//! Reports to the database: the requests that log blocks, sessions and shares.

use crate::clock::{rfc3339_text, whole_seconds, Moment};
use crate::json::{integer_value, last_member_with_a_key_is_found, Json, JsonView};
use crate::text::{signed_decimal, signed_text, trim_final_slashes, without_final_slashes};
use vstd::prelude::*;

verus! {

/// How a request changes a table.
#[derive(Debug, Clone, Copy, PartialEq, Eq, Structural)]
pub enum Verb {
    /// Rows are added.
    Post,
    /// Rows are changed.
    Patch,
}

/// A request to the database.
#[derive(Debug, PartialEq)]
pub struct DbRequest {
    pub verb: Verb,
    pub table: String,
    pub url: String,
    pub headers: Vec<(String, String)>,
    pub body: Json,
    /// Whether the answer holds the new rows.
    pub returns_rows: bool,
}

/// A request to the database, as a mathematical value.
pub struct DbRequestView {
    pub verb: Verb,
    pub table: Seq<char>,
    pub url: Seq<char>,
    pub headers: Seq<(Seq<char>, Seq<char>)>,
    pub body: JsonView,
    pub returns_rows: bool,
}

/// The characters of a list of headers.
pub open spec fn headers_of(list: Seq<(String, String)>) -> Seq<(Seq<char>, Seq<char>)> {
    list.map_values(|header: (String, String)| (header.0@, header.1@))
}

impl View for DbRequest {
    type V = DbRequestView;

    open spec fn view(&self) -> DbRequestView {
        DbRequestView {
            verb: self.verb,
            table: self.table@,
            url: self.url@,
            headers: headers_of(self.headers@),
            body: self.body@,
            returns_rows: self.returns_rows,
        }
    }
}

/// The database, and when the last block was logged.
#[derive(Debug, Clone)]
pub struct Db {
    base_url: String,
    service_key: String,
    server_id: String,
    last_block_at: Option<Moment>,
}

/// The database as a mathematical value.
pub struct DbView {
    pub base_url: Seq<char>,
    pub service_key: Seq<char>,
    pub server_id: Seq<char>,
    pub last_block_at: Option<Moment>,
}

impl View for Db {
    type V = DbView;

    closed spec fn view(&self) -> DbView {
        DbView {
            base_url: self.base_url@,
            service_key: self.service_key@,
            server_id: self.server_id@,
            last_block_at: self.last_block_at,
        }
    }
}

impl DbView {
    /// The time of the last block is a valid one.
    pub open spec fn wf(self) -> bool {
        self.last_block_at matches Some(last) ==> last.wf()
    }

    /// Where a table is found.
    pub open spec fn url(self, table: Seq<char>) -> Seq<char> {
        self.base_url + "/rest/v1/"@ + table
    }

    /// The headers that every request has.
    pub open spec fn headers(self) -> Seq<(Seq<char>, Seq<char>)> {
        seq![
            ("apikey"@, self.service_key),
            ("Authorization"@, "Bearer "@ + self.service_key),
            ("Content-Type"@, "application/json"@),
        ]
    }

    /// The request that adds a row. It asks for the row as it was stored where `returns_rows`
    /// holds.
    pub open spec fn post(
        self,
        table: Seq<char>,
        body: JsonView,
        returns_rows: bool,
    ) -> DbRequestView {
        DbRequestView {
            verb: Verb::Post,
            table,
            url: self.url(table),
            headers: self.headers().push(
                (
                    "Prefer"@,
                    if returns_rows {
                        "return=representation"@
                    } else {
                        "return=minimal"@
                    },
                ),
            ),
            body,
            returns_rows,
        }
    }

    /// The request that changes the rows that `filter` picks.
    pub open spec fn patch(
        self,
        table: Seq<char>,
        filter: Seq<char>,
        body: JsonView,
    ) -> DbRequestView {
        DbRequestView {
            verb: Verb::Patch,
            table,
            url: self.url(table) + "?"@ + filter,
            headers: self.headers(),
            body,
            returns_rows: false,
        }
    }

    /// The request that closes the open sessions of this server, and of no other.
    pub open spec fn stale_sessions_request(self, now: Seq<char>) -> DbRequestView {
        self.patch(
            "meowpow_miner_sessions"@,
            "disconnected_at=is.null&server_id=eq."@ + self.server_id,
            closing_row(now),
        )
    }

    /// The request that closes one session.
    pub open spec fn session_end_request(self, session_id: i64, now: Seq<char>) -> DbRequestView {
        self.patch(
            "meowpow_miner_sessions"@,
            "id=eq."@ + signed_decimal(session_id as int),
            closing_row(now),
        )
    }

    /// The seconds since the last block, nothing before the first one.
    pub open spec fn gap_seconds(self, now: Moment) -> Option<i64> {
        match self.last_block_at {
            Some(last) => Some((whole_seconds(last, now) as u64) as i64),
            None => None,
        }
    }
}

/// The row that closes a session.
pub open spec fn closing_row(now: Seq<char>) -> JsonView {
    JsonView::Object(seq![("disconnected_at"@, JsonView::Str(now))])
}

/// The row of a found block. The payouts are given by the bits of their floating-point numbers.
pub open spec fn block_row(
    height: u32,
    hash: Seq<char>,
    finder_address: Seq<char>,
    worker: Seq<char>,
    miner_payout: u64,
    dev_fee: u64,
    community_payout: u64,
    gap_seconds: Option<i64>,
) -> JsonView {
    JsonView::Object(
        seq![
            ("height"@, JsonView::Uint(height as u64)),
            ("hash"@, JsonView::Str(hash)),
            ("finder_address"@, JsonView::Str(finder_address)),
            ("worker"@, JsonView::Str(worker)),
            ("miner_payout"@, JsonView::Real(miner_payout)),
            ("dev_fee"@, JsonView::Real(dev_fee)),
            ("community_payout"@, JsonView::Real(community_payout)),
            ("tx_fees"@, JsonView::Uint(0)),
            (
                "gap_seconds"@,
                match gap_seconds {
                    Some(gap) => integer_value(gap),
                    None => JsonView::Null,
                },
            ),
        ],
    )
}

/// The row of a new session.
pub open spec fn session_row(
    address: Seq<char>,
    worker: Seq<char>,
    ip: Seq<char>,
    server_id: Seq<char>,
) -> JsonView {
    JsonView::Object(
        seq![
            ("address"@, JsonView::Str(address)),
            ("worker"@, JsonView::Str(worker)),
            ("ip"@, JsonView::Str(ip)),
            ("server_id"@, JsonView::Str(server_id)),
        ],
    )
}

/// The row of the shares of a miner in a span of time. Average difficulty and hashrate are given
/// by the bits of their floating-point numbers.
pub open spec fn share_row(
    address: Seq<char>,
    worker: Seq<char>,
    window_start: Seq<char>,
    window_end: Seq<char>,
    shares_valid: u32,
    shares_invalid: u32,
    shares_stale: u32,
    difficulty_avg: u64,
    hashrate_mhs: u64,
) -> JsonView {
    JsonView::Object(
        seq![
            ("address"@, JsonView::Str(address)),
            ("worker"@, JsonView::Str(worker)),
            ("window_start"@, JsonView::Str(window_start)),
            ("window_end"@, JsonView::Str(window_end)),
            ("shares_valid"@, JsonView::Uint(shares_valid as u64)),
            ("shares_invalid"@, JsonView::Uint(shares_invalid as u64)),
            ("shares_stale"@, JsonView::Uint(shares_stale as u64)),
            ("difficulty_avg"@, JsonView::Real(difficulty_avg)),
            ("hashrate_mhs"@, JsonView::Real(hashrate_mhs)),
        ],
    )
}

/// The view of an optional request.
pub open spec fn request_of(request: Option<DbRequest>) -> Option<DbRequestView> {
    match request {
        Some(r) => Some(r@),
        None => None,
    }
}

fn build_closing_row(now: &str) -> (row: Json)
    ensures
        row@ == closing_row(now@),
{
    let row: Json = Json::object().and("disconnected_at", Json::string(now));
    assert(row@->Object_0 =~= closing_row(now@)->Object_0);
    row
}

/// The id of the session that was logged, read from the rows that the database answered.
pub fn read_session_id(rows: &Json) -> (session_id: Option<i64>)
    ensures
        session_id == rows@.item(0).field("id"@).integer(),
{
    match rows.at(0) {
        Some(row) => match row.get("id") {
            Some(value) => value.as_i64(),
            None => None,
        },
        None => None,
    }
}

impl Db {
    /// A time that was noted is a valid one.
    pub closed spec fn wf(self) -> bool {
        self@.wf()
    }

    /// The database at a URL, with or without a final slash.
    pub fn new(base_url: String, service_key: String, server_id: String) -> (db: Db)
        ensures
            db.wf(),
            db@ == (DbView {
                base_url: without_final_slashes(base_url@),
                service_key: service_key@,
                server_id: server_id@,
                last_block_at: None,
            }),
    {
        Db {
            base_url: trim_final_slashes(base_url.as_str()).to_owned(),
            service_key,
            server_id,
            last_block_at: None,
        }
    }

    fn url(&self, table: &str) -> (url: String)
        ensures
            url@ == self@.url(table@),
    {
        self.base_url.clone().concat("/rest/v1/").concat(table)
    }

    fn headers(&self) -> (headers: Vec<(String, String)>)
        ensures
            headers_of(headers@) == self@.headers(),
    {
        let mut headers: Vec<(String, String)> = Vec::new();
        headers.push(("apikey".to_owned(), self.service_key.clone()));
        headers.push(
            ("Authorization".to_owned(), "Bearer ".to_owned().concat(self.service_key.as_str())),
        );
        headers.push(("Content-Type".to_owned(), "application/json".to_owned()));
        assert(headers_of(headers@) =~= self@.headers());
        headers
    }

    fn post(&self, table: &str, body: Json, returns_rows: bool) -> (request: DbRequest)
        ensures
            request@ == self@.post(table@, body@, returns_rows),
    {
        let mut headers: Vec<(String, String)> = self.headers();
        let prefer: &str = if returns_rows {
            "return=representation"
        } else {
            "return=minimal"
        };
        headers.push(("Prefer".to_owned(), prefer.to_owned()));
        assert(headers_of(headers@) =~= self@.post(table@, body@, returns_rows).headers);
        DbRequest {
            verb: Verb::Post,
            table: table.to_owned(),
            url: self.url(table),
            headers,
            body,
            returns_rows,
        }
    }

    fn patch(&self, table: &str, filter: &str, body: Json) -> (request: DbRequest)
        ensures
            request@ == self@.patch(table@, filter@, body@),
    {
        DbRequest {
            verb: Verb::Patch,
            table: table.to_owned(),
            url: self.url(table).concat("?").concat(filter),
            headers: self.headers(),
            body,
            returns_rows: false,
        }
    }

    /// The request that closes the sessions that this server left open, and those of no other
    /// server. Nothing where the time cannot be written.
    pub fn close_stale_sessions(&self, now: Moment) -> (request: Option<DbRequest>)
        ensures
            request_of(request) == match rfc3339_text(now.secs, now.nanos) {
                Some(text) => Some(self@.stale_sessions_request(text)),
                None => None,
            },
    {
        match now.to_rfc3339() {
            Some(text) => Some(self.close_stale_sessions_at(text.as_str())),
            None => None,
        }
    }

    /// The request that closes the sessions that this server left open, at a time that is already
    /// written.
    pub fn close_stale_sessions_at(&self, now: &str) -> (request: DbRequest)
        ensures
            request@ == self@.stale_sessions_request(now@),
    {
        let filter: String = "disconnected_at=is.null&server_id=eq.".to_owned().concat(
            self.server_id.as_str(),
        );
        self.patch("meowpow_miner_sessions", filter.as_str(), build_closing_row(now))
    }

    /// The request that logs a found block, and notes its time. The payouts are given by the bits
    /// of their floating-point numbers.
    pub fn log_block(
        &mut self,
        now: Moment,
        height: u32,
        hash: &str,
        finder_address: &str,
        worker: &str,
        miner_payout: u64,
        dev_fee: u64,
        community_payout: u64,
    ) -> (request: DbRequest)
        requires
            old(self).wf(),
            now.wf(),
        ensures
            final(self).wf(),
            final(self)@ == (DbView { last_block_at: Some(now), ..old(self)@ }),
            request@ == old(self)@.post(
                "meowpow_blocks"@,
                block_row(
                    height,
                    hash@,
                    finder_address@,
                    worker@,
                    miner_payout,
                    dev_fee,
                    community_payout,
                    old(self)@.gap_seconds(now),
                ),
                false,
            ),
    {
        let gap: Json = match &self.last_block_at {
            Some(last) => Json::from_i64(now.seconds_since(last) as i64),
            None => Json::Null,
        };
        let row: Json = Json::object().and("height", Json::Uint(height as u64)).and(
            "hash",
            Json::string(hash),
        ).and("finder_address", Json::string(finder_address)).and(
            "worker",
            Json::string(worker),
        ).and("miner_payout", Json::Real(miner_payout)).and("dev_fee", Json::Real(dev_fee)).and(
            "community_payout",
            Json::Real(community_payout),
        ).and("tx_fees", Json::Uint(0)).and("gap_seconds", gap);
        assert(row@->Object_0 =~= block_row(
            height,
            hash@,
            finder_address@,
            worker@,
            miner_payout,
            dev_fee,
            community_payout,
            self@.gap_seconds(now),
        )->Object_0);
        let request: DbRequest = self.post("meowpow_blocks", row, false);
        self.last_block_at = Some(now);
        request
    }

    /// The request that logs a new session. The answer holds its row.
    pub fn log_session_start(&self, address: &str, worker: &str, ip: &str) -> (request: DbRequest)
        ensures
            request@ == self@.post(
                "meowpow_miner_sessions"@,
                session_row(address@, worker@, ip@, self@.server_id),
                true,
            ),
    {
        let row: Json = Json::object().and("address", Json::string(address)).and(
            "worker",
            Json::string(worker),
        ).and("ip", Json::string(ip)).and("server_id", Json::string(self.server_id.as_str()));
        assert(row@->Object_0 =~= session_row(
            address@,
            worker@,
            ip@,
            self@.server_id,
        )->Object_0);
        self.post("meowpow_miner_sessions", row, true)
    }

    /// The request that closes a session. Nothing where the time cannot be written.
    pub fn log_session_end(&self, session_id: i64, now: Moment) -> (request: Option<DbRequest>)
        ensures
            request_of(request) == match rfc3339_text(now.secs, now.nanos) {
                Some(text) => Some(self@.session_end_request(session_id, text)),
                None => None,
            },
    {
        match now.to_rfc3339() {
            Some(text) => Some(self.log_session_end_at(session_id, text.as_str())),
            None => None,
        }
    }

    /// The request that closes a session, at a time that is already written.
    pub fn log_session_end_at(&self, session_id: i64, now: &str) -> (request: DbRequest)
        ensures
            request@ == self@.session_end_request(session_id, now@),
    {
        let filter: String = "id=eq.".to_owned().concat(signed_text(session_id).as_str());
        self.patch("meowpow_miner_sessions", filter.as_str(), build_closing_row(now))
    }

    /// The request that logs the shares of a miner in a span of time. Average difficulty and
    /// hashrate are given by the bits of their floating-point numbers. Nothing where one of the
    /// times cannot be written.
    pub fn flush_share_window(
        &self,
        address: &str,
        worker: &str,
        window_start: Moment,
        window_end: Moment,
        shares_valid: u32,
        shares_invalid: u32,
        shares_stale: u32,
        difficulty_avg: u64,
        hashrate_mhs: u64,
    ) -> (request: Option<DbRequest>)
        ensures
            request_of(request) == match (
                rfc3339_text(window_start.secs, window_start.nanos),
                rfc3339_text(window_end.secs, window_end.nanos),
            ) {
                (Some(start), Some(end)) => Some(
                    self@.post(
                        "meowpow_share_windows"@,
                        share_row(
                            address@,
                            worker@,
                            start,
                            end,
                            shares_valid,
                            shares_invalid,
                            shares_stale,
                            difficulty_avg,
                            hashrate_mhs,
                        ),
                        false,
                    ),
                ),
                _ => None,
            },
    {
        match (window_start.to_rfc3339(), window_end.to_rfc3339()) {
            (Some(start), Some(end)) => Some(
                self.flush_share_window_between(
                    address,
                    worker,
                    start.as_str(),
                    end.as_str(),
                    shares_valid,
                    shares_invalid,
                    shares_stale,
                    difficulty_avg,
                    hashrate_mhs,
                ),
            ),
            _ => None,
        }
    }

    /// The request that logs the shares of a miner between two times that are already written.
    pub fn flush_share_window_between(
        &self,
        address: &str,
        worker: &str,
        window_start: &str,
        window_end: &str,
        shares_valid: u32,
        shares_invalid: u32,
        shares_stale: u32,
        difficulty_avg: u64,
        hashrate_mhs: u64,
    ) -> (request: DbRequest)
        ensures
            request@ == self@.post(
                "meowpow_share_windows"@,
                share_row(
                    address@,
                    worker@,
                    window_start@,
                    window_end@,
                    shares_valid,
                    shares_invalid,
                    shares_stale,
                    difficulty_avg,
                    hashrate_mhs,
                ),
                false,
            ),
    {
        let row: Json = Json::object().and("address", Json::string(address)).and(
            "worker",
            Json::string(worker),
        ).and("window_start", Json::string(window_start)).and(
            "window_end",
            Json::string(window_end),
        ).and("shares_valid", Json::Uint(shares_valid as u64)).and(
            "shares_invalid",
            Json::Uint(shares_invalid as u64),
        ).and("shares_stale", Json::Uint(shares_stale as u64)).and(
            "difficulty_avg",
            Json::Real(difficulty_avg),
        ).and("hashrate_mhs", Json::Real(hashrate_mhs));
        assert(row@->Object_0 =~= share_row(
            address@,
            worker@,
            window_start@,
            window_end@,
            shares_valid,
            shares_invalid,
            shares_stale,
            difficulty_avg,
            hashrate_mhs,
        )->Object_0);
        self.post("meowpow_share_windows", row, false)
    }
}

/// A time that was noted is a valid one.
pub proof fn database_is_well_formed(db: Db)
    requires
        db.wf(),
    ensures
        db@.wf(),
{
}

/// A slash at the end of the database's URL makes no difference to where its tables are found.
pub proof fn final_slash_makes_no_difference(base_url: Seq<char>)
    ensures
        without_final_slashes(base_url.push('/')) == without_final_slashes(base_url),
{
    assert(base_url.push('/').drop_last() =~= base_url);
}

/// A block that is logged after another one is logged with the whole seconds between the two, none
/// where the clock went back; the first block is logged without any.
pub proof fn gaps_span_consecutive_blocks(db: DbView, first: Moment, second: Moment)
    requires
        first.wf(),
        second.wf(),
        second.secs - first.secs <= i64::MAX,
    ensures
        db.last_block_at is None ==> db.gap_seconds(first) is None,
        ({
            let gap = (DbView { last_block_at: Some(first), ..db }).gap_seconds(second);
            let nanos = (second.secs - first.secs) * 1_000_000_000 + (second.nanos - first.nanos);
            &&& gap is Some
            &&& nanos >= 0 ==> gap->0 * 1_000_000_000 <= nanos < (gap->0 + 1) * 1_000_000_000
            &&& nanos < 0 ==> gap->0 == 0
        }),
{
}

proof fn lemma_block_row(pairs: Seq<(Seq<char>, JsonView)>)
    requires
        pairs.len() == 9,
        pairs[0].0 == "height"@,
        pairs[1].0 == "hash"@,
        pairs[2].0 == "finder_address"@,
        pairs[3].0 == "worker"@,
        pairs[4].0 == "miner_payout"@,
        pairs[5].0 == "dev_fee"@,
        pairs[6].0 == "community_payout"@,
        pairs[7].0 == "tx_fees"@,
        pairs[8].0 == "gap_seconds"@,
    ensures
        forall|k: int|
            0 <= k < 9 ==> JsonView::Object(pairs).field((#[trigger] pairs[k]).0) == pairs[k].1,
{
    reveal_strlit("height");
    reveal_strlit("hash");
    reveal_strlit("finder_address");
    reveal_strlit("worker");
    reveal_strlit("miner_payout");
    reveal_strlit("dev_fee");
    reveal_strlit("community_payout");
    reveal_strlit("tx_fees");
    reveal_strlit("gap_seconds");
    assert("height"@[0] == 'h' && "worker"@[0] == 'w' && "dev_fee"@[0] == 'd' && "tx_fees"@[0]
        == 't');
    assert("height"@.len() == 6 && "hash"@.len() == 4 && "finder_address"@.len() == 14);
    assert("worker"@.len() == 6 && "miner_payout"@.len() == 12 && "dev_fee"@.len() == 7);
    assert("community_payout"@.len() == 16 && "tx_fees"@.len() == 7 && "gap_seconds"@.len() == 11);
    last_member_with_a_key_is_found(pairs, 0);
    last_member_with_a_key_is_found(pairs, 1);
    last_member_with_a_key_is_found(pairs, 2);
    last_member_with_a_key_is_found(pairs, 3);
    last_member_with_a_key_is_found(pairs, 4);
    last_member_with_a_key_is_found(pairs, 5);
    last_member_with_a_key_is_found(pairs, 6);
    last_member_with_a_key_is_found(pairs, 7);
    last_member_with_a_key_is_found(pairs, 8);
}

/// A found block is logged in its own table with its height and hash, who found it, what the miner,
/// the fee and the community fund got, no further fees, and the seconds since the block before:
/// null for the first one.
pub proof fn blocks_are_logged_in_full(
    db: DbView,
    height: u32,
    hash: Seq<char>,
    finder_address: Seq<char>,
    worker: Seq<char>,
    miner_payout: u64,
    dev_fee: u64,
    community_payout: u64,
    gap: i64,
)
    requires
        gap >= 0,
    ensures
        ({
            let row = block_row(
                height,
                hash,
                finder_address,
                worker,
                miner_payout,
                dev_fee,
                community_payout,
                Some(gap),
            );
            let first = block_row(
                height,
                hash,
                finder_address,
                worker,
                miner_payout,
                dev_fee,
                community_payout,
                None,
            );
            &&& row.field("height"@) == JsonView::Uint(height as u64)
            &&& row.field("hash"@) == JsonView::Str(hash)
            &&& row.field("finder_address"@) == JsonView::Str(finder_address)
            &&& row.field("worker"@) == JsonView::Str(worker)
            &&& row.field("miner_payout"@) == JsonView::Real(miner_payout)
            &&& row.field("dev_fee"@) == JsonView::Real(dev_fee)
            &&& row.field("community_payout"@) == JsonView::Real(community_payout)
            &&& row.field("tx_fees"@) == JsonView::Uint(0)
            &&& row.field("gap_seconds"@) == JsonView::Uint(gap as u64)
            &&& first.field("gap_seconds"@) == JsonView::Null
        }),
{
    let row = block_row(
        height,
        hash,
        finder_address,
        worker,
        miner_payout,
        dev_fee,
        community_payout,
        Some(gap),
    )->Object_0;
    let first = block_row(
        height,
        hash,
        finder_address,
        worker,
        miner_payout,
        dev_fee,
        community_payout,
        None,
    )->Object_0;
    lemma_block_row(row);
    lemma_block_row(first);
    assert(row[0].0 == "height"@ && row[1].0 == "hash"@ && row[2].0 == "finder_address"@);
    assert(row[3].0 == "worker"@ && row[4].0 == "miner_payout"@ && row[5].0 == "dev_fee"@);
    assert(row[6].0 == "community_payout"@ && row[7].0 == "tx_fees"@ && row[8].0 == "gap_seconds"@);
    assert(first[8].0 == "gap_seconds"@);
}

proof fn lemma_share_row(pairs: Seq<(Seq<char>, JsonView)>)
    requires
        pairs.len() == 9,
        pairs[0].0 == "address"@,
        pairs[1].0 == "worker"@,
        pairs[2].0 == "window_start"@,
        pairs[3].0 == "window_end"@,
        pairs[4].0 == "shares_valid"@,
        pairs[5].0 == "shares_invalid"@,
        pairs[6].0 == "shares_stale"@,
        pairs[7].0 == "difficulty_avg"@,
        pairs[8].0 == "hashrate_mhs"@,
    ensures
        forall|k: int|
            0 <= k < 9 ==> JsonView::Object(pairs).field((#[trigger] pairs[k]).0) == pairs[k].1,
{
    reveal_strlit("address");
    reveal_strlit("worker");
    reveal_strlit("window_start");
    reveal_strlit("window_end");
    reveal_strlit("shares_valid");
    reveal_strlit("shares_invalid");
    reveal_strlit("shares_stale");
    reveal_strlit("difficulty_avg");
    reveal_strlit("hashrate_mhs");
    assert("window_start"@[0] == 'w' && "shares_valid"@[0] == 's' && "hashrate_mhs"@[0] == 'h');
    assert("shares_valid"@[7] == 'v' && "shares_stale"@[7] == 's' && "shares_stale"@[0] == 's');
    assert("shares_invalid"@[0] == 's' && "difficulty_avg"@[0] == 'd');
    assert("address"@.len() == 7 && "worker"@.len() == 6 && "window_start"@.len() == 12);
    assert("window_end"@.len() == 10 && "shares_valid"@.len() == 12);
    assert("shares_invalid"@.len() == 14 && "shares_stale"@.len() == 12);
    assert("difficulty_avg"@.len() == 14 && "hashrate_mhs"@.len() == 12);
    last_member_with_a_key_is_found(pairs, 0);
    last_member_with_a_key_is_found(pairs, 1);
    last_member_with_a_key_is_found(pairs, 2);
    last_member_with_a_key_is_found(pairs, 3);
    last_member_with_a_key_is_found(pairs, 4);
    last_member_with_a_key_is_found(pairs, 5);
    last_member_with_a_key_is_found(pairs, 6);
    last_member_with_a_key_is_found(pairs, 7);
    last_member_with_a_key_is_found(pairs, 8);
}

/// The shares of a window are logged with who made them, when it began and ended, how many were
/// valid, invalid and stale, the average difficulty and the hashrate.
pub proof fn share_windows_are_logged_in_full(
    address: Seq<char>,
    worker: Seq<char>,
    window_start: Seq<char>,
    window_end: Seq<char>,
    shares_valid: u32,
    shares_invalid: u32,
    shares_stale: u32,
    difficulty_avg: u64,
    hashrate_mhs: u64,
)
    ensures
        ({
            let row = share_row(
                address,
                worker,
                window_start,
                window_end,
                shares_valid,
                shares_invalid,
                shares_stale,
                difficulty_avg,
                hashrate_mhs,
            );
            &&& row.field("address"@) == JsonView::Str(address)
            &&& row.field("worker"@) == JsonView::Str(worker)
            &&& row.field("window_start"@) == JsonView::Str(window_start)
            &&& row.field("window_end"@) == JsonView::Str(window_end)
            &&& row.field("shares_valid"@) == JsonView::Uint(shares_valid as u64)
            &&& row.field("shares_invalid"@) == JsonView::Uint(shares_invalid as u64)
            &&& row.field("shares_stale"@) == JsonView::Uint(shares_stale as u64)
            &&& row.field("difficulty_avg"@) == JsonView::Real(difficulty_avg)
            &&& row.field("hashrate_mhs"@) == JsonView::Real(hashrate_mhs)
        }),
{
    let row = share_row(
        address,
        worker,
        window_start,
        window_end,
        shares_valid,
        shares_invalid,
        shares_stale,
        difficulty_avg,
        hashrate_mhs,
    )->Object_0;
    lemma_share_row(row);
    assert(row[0].0 == "address"@ && row[1].0 == "worker"@ && row[2].0 == "window_start"@);
    assert(row[3].0 == "window_end"@ && row[4].0 == "shares_valid"@ && row[5].0
        == "shares_invalid"@);
    assert(row[6].0 == "shares_stale"@ && row[7].0 == "difficulty_avg"@ && row[8].0
        == "hashrate_mhs"@);
}

/// A session is logged with who is mining, from where and on which server; closing it notes the
/// time.
pub proof fn sessions_are_logged_in_full(
    address: Seq<char>,
    worker: Seq<char>,
    ip: Seq<char>,
    server_id: Seq<char>,
    now: Seq<char>,
)
    ensures
        ({
            let row = session_row(address, worker, ip, server_id);
            &&& row.field("address"@) == JsonView::Str(address)
            &&& row.field("worker"@) == JsonView::Str(worker)
            &&& row.field("ip"@) == JsonView::Str(ip)
            &&& row.field("server_id"@) == JsonView::Str(server_id)
        }),
        closing_row(now).field("disconnected_at"@) == JsonView::Str(now),
        closing_row(now)->Object_0.len() == 1,
{
    reveal_strlit("address");
    reveal_strlit("worker");
    reveal_strlit("ip");
    reveal_strlit("server_id");
    assert("address"@.len() == 7 && "worker"@.len() == 6 && "ip"@.len() == 2 && "server_id"@.len()
        == 9);
    let pairs = session_row(address, worker, ip, server_id)->Object_0;
    last_member_with_a_key_is_found(pairs, 0);
    last_member_with_a_key_is_found(pairs, 1);
    last_member_with_a_key_is_found(pairs, 2);
    last_member_with_a_key_is_found(pairs, 3);
    last_member_with_a_key_is_found(closing_row(now)->Object_0, 0);
}

/// Every request goes to its table below the database's URL and carries the service key, alone and
/// as a bearer token. Rows are added by a request that says whether it wants them back; rows are
/// changed by one whose filter stands behind a question mark. Closing what was left open touches
/// this server's open sessions alone, and closing one session that session alone.
pub proof fn requests_reach_their_table(
    db: DbView,
    table: Seq<char>,
    filter: Seq<char>,
    body: JsonView,
    now: Seq<char>,
    session_id: i64,
)
    ensures
        db.post(table, body, true).url == db.base_url + "/rest/v1/"@ + table,
        db.post(table, body, false).url == db.base_url + "/rest/v1/"@ + table,
        db.patch(table, filter, body).url == db.base_url + "/rest/v1/"@ + table + "?"@ + filter,
        db.post(table, body, true).verb == Verb::Post,
        db.patch(table, filter, body).verb == Verb::Patch,
        db.post(table, body, true).body == body && db.post(table, body, false).body == body,
        db.patch(table, filter, body).body == body,
        db.post(table, body, true).table == table && db.patch(table, filter, body).table == table,
        db.post(table, body, true).returns_rows,
        !db.post(table, body, false).returns_rows,
        !db.patch(table, filter, body).returns_rows,
        db.patch(table, filter, body).headers == seq![
            ("apikey"@, db.service_key),
            ("Authorization"@, "Bearer "@ + db.service_key),
            ("Content-Type"@, "application/json"@),
        ],
        db.post(table, body, true).headers == db.patch(table, filter, body).headers.push(
            ("Prefer"@, "return=representation"@),
        ),
        db.post(table, body, false).headers == db.patch(table, filter, body).headers.push(
            ("Prefer"@, "return=minimal"@),
        ),
        db.stale_sessions_request(now).url == db.base_url
            + "/rest/v1/meowpow_miner_sessions?disconnected_at=is.null&server_id=eq."@
            + db.server_id,
        db.stale_sessions_request(now).body == closing_row(now),
        db.stale_sessions_request(now).verb == Verb::Patch,
        db.session_end_request(session_id, now).url == db.base_url
            + "/rest/v1/meowpow_miner_sessions?id=eq."@ + signed_decimal(session_id as int),
        db.session_end_request(session_id, now).body == closing_row(now),
        db.session_end_request(session_id, now).verb == Verb::Patch,
{
    reveal_strlit("/rest/v1/");
    reveal_strlit("meowpow_miner_sessions");
    reveal_strlit("?");
    reveal_strlit("disconnected_at=is.null&server_id=eq.");
    reveal_strlit("id=eq.");
    reveal_strlit("/rest/v1/meowpow_miner_sessions?disconnected_at=is.null&server_id=eq.");
    reveal_strlit("/rest/v1/meowpow_miner_sessions?id=eq.");
    assert("/rest/v1/"@ + "meowpow_miner_sessions"@ + "?"@
        + "disconnected_at=is.null&server_id=eq."@
        =~= "/rest/v1/meowpow_miner_sessions?disconnected_at=is.null&server_id=eq."@);
    assert("/rest/v1/"@ + "meowpow_miner_sessions"@ + "?"@ + "id=eq."@
        =~= "/rest/v1/meowpow_miner_sessions?id=eq."@);
    assert(db.stale_sessions_request(now).url =~= db.base_url + ("/rest/v1/"@
        + "meowpow_miner_sessions"@ + "?"@ + "disconnected_at=is.null&server_id=eq."@)
        + db.server_id);
    assert(db.session_end_request(session_id, now).url =~= db.base_url + ("/rest/v1/"@
        + "meowpow_miner_sessions"@ + "?"@ + "id=eq."@) + signed_decimal(session_id as int));
}

/// What a request stands for is what its parts hold, in their order.
pub proof fn requests_stand_for_their_parts(request: DbRequest, i: int)
    requires
        0 <= i < request.headers@.len(),
    ensures
        request@.verb == request.verb,
        request@.table == request.table@,
        request@.url == request.url@,
        request@.headers.len() == request.headers@.len(),
        request@.headers[i] == (request.headers@[i].0@, request.headers@[i].1@),
        request@.body == request.body@,
        request@.returns_rows == request.returns_rows,
        request_of(Some(request)) == Some(request@),
        request_of(None) is None,
{
}

} // verus!
