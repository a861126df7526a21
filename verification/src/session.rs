//! The session of one miner: who it is, what it works on, and what its shares are worth.

use crate::active_jobs::{
    active_job_for, stored_jobs_are_real, ActiveJob, ActiveJobView, ActiveJobs,
};
use crate::address::{is_valid_address, script_of, valid_address};
use crate::bytes::{be_bytes, be_value, le_bytes, lemma_be_bytes_value};
use crate::hash::{merkle_root_of, sha256d_of};
use crate::hexcode;
use crate::ids::{fresh_id, is_fresh_id};
use crate::job::{block_carries_its_header, coinbase_pays_out, joined, Job, JobView};
use crate::json::{Json, JsonView};
use crate::node::text_of;
use crate::shares::{no_shares, ShareAggregate, ShareAggregateView};
use crate::stratum::{
    accept, build_login_job, build_login_reply, build_notify, build_set_difficulty,
    difficulty_message, error_reply, login_job, login_reply, notify_message, ok_reply, refuse,
};
use crate::target::{
    diff_to_target, difficulty_target, lemma_target_fits, target_falls_with_difficulty,
};
use crate::text::{
    after_first, before_first, parse_hex, parsed_hex, same_text, split_first, trim_0x, without_0x,
};
use crate::transaction::txid_of;
use crate::varint::varint_bytes;
use crate::verify::{accepted_hash, check_share, mix_hash_to_raw, raw_mix_hash};
use vstd::prelude::*;

verus! {

/// How many active jobs a miner keeps before all are dropped for a new one.
pub const MAX_ACTIVE_JOBS: usize = 4;

/// After how many shares the difficulty is set anew.
pub const RETARGET_SHARES: u32 = 8;

/// After how many seconds the difficulty is set anew.
pub const RETARGET_SECONDS: u64 = 60;

/// The highest difficulty that is set by itself.
pub const MAX_DIFFICULTY: u64 = 1_000_000;

/// What the pool knows of a connected miner.
pub struct MinerState {
    address: Option<String>,
    worker: String,
    difficulty: u64,
    extranonce1: String,
    active_jobs: ActiveJobs,
    shares_since_retarget: u32,
    share_agg: ShareAggregate,
    db_session_id: Option<i64>,
    total_valid: u32,
    total_invalid: u32,
}

/// What the pool knows of a miner, as a mathematical value.
pub struct MinerView {
    /// Where the miner is paid, nothing before it has authorized.
    pub address: Option<Seq<char>>,
    pub worker: Seq<char>,
    pub difficulty: u64,
    pub extranonce1: Seq<char>,
    /// The jobs that shares may be submitted for, by their id.
    pub active_jobs: Map<Seq<char>, ActiveJobView>,
    pub shares_since_retarget: u32,
    pub share_agg: ShareAggregateView,
    pub db_session_id: Option<i64>,
    pub total_valid: u32,
    pub total_invalid: u32,
}

impl View for MinerState {
    type V = MinerView;

    closed spec fn view(&self) -> MinerView {
        MinerView {
            address: text_of(self.address),
            worker: self.worker@,
            difficulty: self.difficulty,
            extranonce1: self.extranonce1@,
            active_jobs: self.active_jobs@,
            shares_since_retarget: self.shares_since_retarget,
            share_agg: self.share_agg@,
            db_session_id: self.db_session_id,
            total_valid: self.total_valid,
            total_invalid: self.total_invalid,
        }
    }
}

/// The target that shares of a difficulty have to meet.
pub open spec fn pool_target(difficulty: u64) -> Seq<u8> {
    be_bytes(difficulty_target(difficulty as nat), 32)
}

/// The views of a list of messages.
pub open spec fn messages_of(list: Seq<Json>) -> Seq<JsonView> {
    list.map_values(|message: Json| message@)
}

impl MinerView {
    /// Every active job can be mined and stands under its own id; the window's shares are among
    /// all shares; the difficulty is set anew before the shares reach their limit.
    pub open spec fn wf(self) -> bool {
        &&& forall|id: Seq<char>| #[trigger]
            self.active_jobs.dom().contains(id) ==> self.active_jobs[id].job.minable()
                && self.active_jobs[id].job.id == id && self.active_jobs[id].merkle_root.len()
                == 32
        &&& self.active_jobs.dom().finite()
        &&& self.shares_since_retarget < RETARGET_SHARES
        &&& self.share_agg.wf()
        &&& self.share_agg.shares_valid <= self.total_valid
        &&& self.share_agg.shares_invalid <= self.total_invalid
    }

    /// One more share of any kind can be counted.
    pub open spec fn can_count(self) -> bool {
        self.total_valid < u32::MAX && self.total_invalid < u32::MAX && self.share_agg.shares_stale
            < u32::MAX
    }

    /// A job for `address` is added to those the miner works on.
    pub open spec fn with_job(self, job: JobView, address: Seq<char>) -> MinerView {
        MinerView {
            active_jobs: self.active_jobs.insert(job.id, active_job_for(job, address)),
            ..self
        }
    }

    /// The active jobs are dropped where there are too many.
    pub open spec fn pruned(self) -> MinerView {
        if self.active_jobs.dom().len() >= MAX_ACTIVE_JOBS {
            MinerView { active_jobs: Map::empty(), ..self }
        } else {
            self
        }
    }

    /// The miner is known under an address and a worker name.
    pub open spec fn known_as(self, address: Seq<char>, worker: Seq<char>) -> MinerView {
        MinerView { address: Some(address), worker, ..self }
    }
}

/// A new session: nobody has authorized, and nothing has been handed out.
pub open spec fn new_session(difficulty: u64, extranonce1: Seq<char>) -> MinerView {
    MinerView {
        address: None,
        worker: Seq::empty(),
        difficulty,
        extranonce1,
        active_jobs: Map::empty(),
        shares_since_retarget: 0,
        share_agg: no_shares(),
        db_session_id: None,
        total_valid: 0,
        total_invalid: 0,
    }
}

/// Who is paid for what a miner finds: the address before the first dot of its login where that
/// is a valid one, else the fallback.
pub open spec fn paid_address(login: Seq<char>, fallback: Option<Seq<char>>) -> Option<Seq<char>> {
    let address = before_first(login, '.');
    if valid_address(address) {
        Some(address)
    } else {
        fallback
    }
}

/// The worker name of an authorization: what stands between the first two dots of the login, or
/// the second parameter where there is no such part.
pub open spec fn authorized_worker(params: JsonView) -> Seq<char> {
    let suffix = after_first(params.item(0).text_or(Seq::empty()), '.');
    if suffix.len() == 0 {
        params.item(1).text_or("default"@)
    } else {
        before_first(suffix, '.')
    }
}

/// The worker name of a login: all that stands behind the first dot, or the name of the rig
/// where there is no such part.
pub open spec fn login_worker(params: JsonView) -> Seq<char> {
    let suffix = after_first(params.field("login"@).text_or(Seq::empty()), '.');
    if suffix.len() == 0 {
        params.field("rigid"@).text_or("default"@)
    } else {
        suffix
    }
}

/// The message that hands a job to a miner.
pub open spec fn job_message(job: JobView, address: Seq<char>, difficulty: u64) -> JsonView {
    notify_message(
        job,
        hexcode::encoded(job.header_hash(address)),
        pool_target(difficulty),
        true,
    )
}

/// The view of an optional job.
pub open spec fn job_of(job: Option<Job>) -> Option<JobView> {
    match job {
        Some(j) => Some(j@),
        None => None,
    }
}

impl MinerView {
    /// What follows an authorization: the new session, and the messages in their order. The
    /// acknowledgement comes before all else.
    pub open spec fn authorize(
        self,
        id: JsonView,
        params: JsonView,
        fallback: Option<Seq<char>>,
        job: Option<JobView>,
    ) -> (MinerView, Seq<JsonView>) {
        match paid_address(params.item(0).text_or(Seq::empty()), fallback) {
            None => (self, seq![error_reply(id, 24, "invalid address"@)]),
            Some(address) => {
                let known = self.known_as(address, authorized_worker(params));
                let greeting = seq![ok_reply(id), difficulty_message(self.difficulty)];
                match job {
                    Some(j) => (
                        known.with_job(j, address),
                        greeting.push(job_message(j, address, self.difficulty)),
                    ),
                    None => (known, greeting),
                }
            },
        }
    }

    /// What follows a login: the new session, and the answer.
    pub open spec fn login(
        self,
        id: JsonView,
        params: JsonView,
        fallback: Option<Seq<char>>,
        job: Option<JobView>,
        session_id: Seq<char>,
    ) -> (MinerView, JsonView) {
        match paid_address(params.field("login"@).text_or(Seq::empty()), fallback) {
            None => (self, error_reply(id, 24, "invalid address"@)),
            Some(address) => {
                let known = self.known_as(address, login_worker(params));
                match job {
                    Some(j) => (
                        known.pruned().with_job(j, address),
                        login_reply(
                            id,
                            session_id,
                            login_job(
                                j,
                                hexcode::encoded(j.header_hash(address)),
                                pool_target(self.difficulty),
                            ),
                        ),
                    ),
                    None => (known, login_reply(id, session_id, JsonView::Null)),
                }
            },
        }
    }

    /// What follows a new job: the session, and the message where the miner is known.
    pub open spec fn push_job(self, job: JobView) -> (MinerView, Option<JsonView>) {
        match self.address {
            Some(address) => (
                self.pruned().with_job(job, address),
                Some(job_message(job, address, self.difficulty)),
            ),
            None => (self, None),
        }
    }

    /// What follows the suggestion of a difficulty: the session, and the messages. Zero is no
    /// difficulty.
    pub open spec fn suggest(
        self,
        id: JsonView,
        suggested: Option<u64>,
    ) -> (MinerView, Seq<JsonView>) {
        match suggested {
            Some(difficulty) => if difficulty > 0 {
                (
                    MinerView { difficulty, ..self },
                    seq![difficulty_message(difficulty), ok_reply(id)],
                )
            } else {
                (self, seq![ok_reply(id)])
            },
            None => (self, seq![ok_reply(id)]),
        }
    }
}

/// A block that a share has completed.
#[derive(Debug, Clone, PartialEq)]
pub struct FoundBlock {
    pub height: u32,
    /// The whole block in hexadecimal.
    pub block_hex: String,
    /// Its final hash in hexadecimal.
    pub final_hash_hex: String,
    pub address: String,
    pub worker: String,
    pub miner_payout_sats: u64,
    pub dev_fee_sats: u64,
    pub community_sats: u64,
}

/// A found block as a mathematical value.
pub struct FoundBlockView {
    pub height: u32,
    pub block_hex: Seq<char>,
    pub final_hash_hex: Seq<char>,
    pub address: Seq<char>,
    pub worker: Seq<char>,
    pub miner_payout_sats: u64,
    pub dev_fee_sats: u64,
    pub community_sats: u64,
}

impl View for FoundBlock {
    type V = FoundBlockView;

    open spec fn view(&self) -> FoundBlockView {
        FoundBlockView {
            height: self.height,
            block_hex: self.block_hex@,
            final_hash_hex: self.final_hash_hex@,
            address: self.address@,
            worker: self.worker@,
            miner_payout_sats: self.miner_payout_sats,
            dev_fee_sats: self.dev_fee_sats,
            community_sats: self.community_sats,
        }
    }
}

/// What becomes of a submitted share.
#[derive(Debug, PartialEq)]
pub enum Submission {
    /// The share does not count; the answer says why.
    Refused(Json),
    /// The share counts. Where it also completes a block, the block is to be handed to the node
    /// before the answer is sent.
    Accepted(Json, Option<FoundBlock>),
}

/// What becomes of a submitted share, as a mathematical value.
pub enum SubmissionView {
    Refused(JsonView),
    Accepted(JsonView, Option<FoundBlockView>),
}

impl View for Submission {
    type V = SubmissionView;

    open spec fn view(&self) -> SubmissionView {
        match self {
            Submission::Refused(reply) => SubmissionView::Refused(reply@),
            Submission::Accepted(reply, block) => SubmissionView::Accepted(
                reply@,
                match block {
                    Some(b) => Some(b@),
                    None => None,
                },
            ),
        }
    }
}

/// The job that a share is submitted for.
pub open spec fn submitted_job(params: JsonView) -> Seq<char> {
    params.item(1).text_or(Seq::empty())
}

/// The nonce of a submitted share, where it is one.
pub open spec fn submitted_nonce(params: JsonView) -> Option<nat> {
    parsed_hex(without_0x(params.item(2).text_or(Seq::empty())), u64::MAX as nat)
}

/// The header hash that a share repeats.
pub open spec fn submitted_header(params: JsonView) -> Seq<char> {
    without_0x(params.item(3).text_or(Seq::empty()))
}

/// The mix hash of a submitted share.
pub open spec fn submitted_mix(params: JsonView) -> Seq<char> {
    without_0x(params.item(4).text_or(Seq::empty()))
}

impl MinerView {
    /// A share is counted: as a valid one with its final hash, or as an invalid one.
    pub open spec fn counted(self, hash: Option<Seq<u8>>) -> MinerView {
        match hash {
            Some(h) => MinerView {
                share_agg: self.share_agg.with_valid(self.difficulty, h),
                total_valid: (self.total_valid + 1) as u32,
                ..self
            },
            None => MinerView {
                share_agg: self.share_agg.with_invalid(),
                total_invalid: (self.total_invalid + 1) as u32,
                ..self
            },
        }
    }

    /// The block that a share completes.
    pub open spec fn found_block(
        self,
        entry: ActiveJobView,
        nonce: u64,
        mix_hash_hex: Seq<char>,
        hash: Seq<u8>,
    ) -> FoundBlockView {
        FoundBlockView {
            height: entry.job.height,
            block_hex: hexcode::encoded(
                entry.job.block(
                    entry.job.header_prefix(entry.merkle_root),
                    nonce,
                    raw_mix_hash(mix_hash_hex)->0,
                    self.address->0,
                ),
            ),
            final_hash_hex: hexcode::encoded(hash),
            address: self.address->0,
            worker: self.worker,
            miner_payout_sats: entry.job.miner_value() as u64,
            dev_fee_sats: entry.job.fee_value() as u64,
            community_sats: entry.job.community_value,
        }
    }

    /// What becomes of a share for an active job, given its final hash where it meets the pool
    /// target, and whether it meets the target of the network.
    pub open spec fn settle(
        self,
        id: JsonView,
        entry: ActiveJobView,
        nonce: u64,
        mix_hash_hex: Seq<char>,
        hash: Option<Seq<u8>>,
        meets_network: bool,
    ) -> (MinerView, SubmissionView) {
        match hash {
            None => (
                self.counted(None),
                SubmissionView::Refused(error_reply(id, 23, "low difficulty share"@)),
            ),
            Some(h) => (
                self.counted(Some(h)),
                SubmissionView::Accepted(
                    ok_reply(id),
                    if meets_network && raw_mix_hash(mix_hash_hex) is Some {
                        Some(self.found_block(entry, nonce, mix_hash_hex, h))
                    } else {
                        None
                    },
                ),
            ),
        }
    }

    /// What becomes of a submitted share. A nonce that is no number, a miner who has not
    /// authorized and a job that is not active are refused, in this order. The first two count
    /// for nothing, the last one for a stale share.
    pub open spec fn submit(self, id: JsonView, params: JsonView) -> (MinerView, SubmissionView) {
        match submitted_nonce(params) {
            None => (self, SubmissionView::Refused(error_reply(id, 20, "bad nonce"@))),
            Some(n) => if self.address is None {
                (self, SubmissionView::Refused(error_reply(id, 24, "not authorized"@)))
            } else if !self.active_jobs.dom().contains(submitted_job(params)) {
                (
                    MinerView { share_agg: self.share_agg.with_stale(), ..self },
                    SubmissionView::Refused(error_reply(id, 21, "stale job"@)),
                )
            } else {
                let entry = self.active_jobs[submitted_job(params)];
                let mix = submitted_mix(params);
                let nonce = n as u64;
                self.settle(
                    id,
                    entry,
                    nonce,
                    mix,
                    accepted_hash(entry.header_hash_hex, mix, nonce, pool_target(self.difficulty)),
                    accepted_hash(
                        entry.header_hash_hex,
                        mix,
                        nonce,
                        entry.job.network_boundary,
                    ) is Some,
                )
            },
        }
    }

    /// One more share has been counted towards the next change of difficulty. The change is due
    /// after enough shares or enough time; the difficulty then becomes `raw`, kept within its
    /// limits.
    pub open spec fn retarget(self, elapsed_secs: u64, raw: u64) -> MinerView {
        let shares = (self.shares_since_retarget + 1) as u32;
        if shares >= RETARGET_SHARES || elapsed_secs >= RETARGET_SECONDS {
            MinerView {
                shares_since_retarget: 0,
                difficulty: if raw < 1 {
                    1
                } else if raw > MAX_DIFFICULTY {
                    MAX_DIFFICULTY
                } else {
                    raw
                },
                ..self
            }
        } else {
            MinerView { shares_since_retarget: shares, ..self }
        }
    }
}

/// What is reported of the shares of a miner.
#[derive(Debug, Clone, PartialEq)]
pub struct ShareReport {
    pub address: String,
    pub worker: String,
    pub shares: ShareAggregate,
}

/// A report as a mathematical value.
pub struct ShareReportView {
    pub address: Seq<char>,
    pub worker: Seq<char>,
    pub shares: ShareAggregateView,
}

impl View for ShareReport {
    type V = ShareReportView;

    open spec fn view(&self) -> ShareReportView {
        ShareReportView {
            address: self.address@,
            worker: self.worker@,
            shares: self.shares@,
        }
    }
}

impl MinerView {
    /// The shares since the last report are reported, where the miner is known and any of them is
    /// valid or invalid; counting then starts anew. Stale shares alone wait for the next report.
    pub open spec fn report(self) -> (MinerView, Option<ShareReportView>) {
        match self.address {
            Some(address) => if self.share_agg.shares_valid == 0 && self.share_agg.shares_invalid
                == 0 {
                (self, None)
            } else {
                (
                    MinerView { share_agg: no_shares(), ..self },
                    Some(ShareReportView { address, worker: self.worker, shares: self.share_agg }),
                )
            },
            None => (self, None),
        }
    }

    /// How the miner is called in logs.
    pub open spec fn label(self) -> Seq<char> {
        match self.address {
            Some(address) => address + "."@ + self.worker,
            None => "(unauthorized)"@,
        }
    }
}

/// The bytes of an optional hash.
pub open spec fn hash_of(hash: Option<[u8; 32]>) -> Option<Seq<u8>> {
    match hash {
        Some(h) => Some(h@),
        None => None,
    }
}

/// The address that a login is paid at.
fn find_address(login: &str, fallback: &Option<String>) -> (address: Option<String>)
    ensures
        text_of(address) == paid_address(login@, text_of(*fallback)),
{
    let (address, _worker) = split_first(login, '.');
    if is_valid_address(address) {
        Some(address.to_owned())
    } else {
        match fallback {
            Some(text) => Some(text.clone()),
            None => None,
        }
    }
}

impl MinerState {
    /// The parts agree with each other.
    pub closed spec fn wf(self) -> bool {
        self.active_jobs.wf() && self@.wf()
    }

    /// A new session.
    pub fn new(initial_diff: u64, extranonce1: String) -> (state: MinerState)
        ensures
            state.wf(),
            state@ == new_session(initial_diff, extranonce1@),
    {
        let state = MinerState {
            address: None,
            worker: String::new(),
            difficulty: initial_diff,
            extranonce1,
            active_jobs: ActiveJobs::new(),
            shares_since_retarget: 0,
            share_agg: ShareAggregate::new(),
            db_session_id: None,
            total_valid: 0,
            total_invalid: 0,
        };
        assert(state.worker@ =~= Seq::<char>::empty());
        state
    }

    fn add_job(&mut self, active: ActiveJob)
        requires
            old(self).wf(),
            active@.job.minable(),
            active@.merkle_root.len() == 32,
        ensures
            final(self).wf(),
            final(self)@ == (MinerView {
                active_jobs: old(self)@.active_jobs.insert(active@.job.id, active@),
                ..old(self)@
            }),
    {
        self.active_jobs.insert(active);
    }

    fn drop_jobs_if_many(&mut self)
        requires
            old(self).wf(),
        ensures
            final(self).wf(),
            final(self)@ == old(self)@.pruned(),
    {
        if self.active_jobs.len() >= MAX_ACTIVE_JOBS {
            self.active_jobs.clear();
        }
    }

    /// Authorizes a miner. The result holds the messages to send, in their order, and whether a
    /// session has begun.
    pub fn handle_authorize(
        &mut self,
        id: Json,
        params: &Json,
        fallback: &Option<String>,
        job: Option<Job>,
    ) -> (result: (Vec<Json>, bool))
        requires
            old(self).wf(),
            job matches Some(j) ==> j@.minable(),
        ensures
            final(self).wf(),
            (final(self)@, messages_of(result.0@)) == old(self)@.authorize(
                id@,
                params@,
                text_of(*fallback),
                job_of(job),
            ),
            result.1 == (paid_address(
                params@.item(0).text_or(Seq::empty()),
                text_of(*fallback),
            ) is Some),
    {
        proof {
            reveal_strlit("");
            assert(""@ =~= Seq::<char>::empty());
        }
        let ghost before = self@;
        let mut messages: Vec<Json> = Vec::new();
        let login: &str = match params.text_of_item(0) {
            Some(text) => text,
            None => "",
        };
        let address: String = match find_address(login, fallback) {
            Some(text) => text,
            None => {
                messages.push(refuse(id, 24, "invalid address"));
                assert(messages_of(messages@) =~= seq![
                    error_reply(id@, 24, "invalid address"@),
                ]);
                return (messages, false);
            },
        };
        let (_address, suffix) = split_first(login, '.');
        let worker: String = if suffix.is_empty() {
            match params.text_of_item(1) {
                Some(text) => text.to_owned(),
                None => "default".to_owned(),
            }
        } else {
            let (first, _rest) = split_first(suffix, '.');
            first.to_owned()
        };
        self.address = Some(address.clone());
        self.worker = worker;
        messages.push(accept(id));
        messages.push(build_set_difficulty(self.difficulty));
        if let Some(j) = job {
            let target: [u8; 32] = diff_to_target(self.difficulty);
            let active: ActiveJob = ActiveJob::new(j, address.as_str());
            messages.push(
                build_notify(&active.job, active.header_hash_hex.as_str(), &target, true),
            );
            self.add_job(active);
        }
        assert(messages_of(messages@) =~= before.authorize(
            id@,
            params@,
            text_of(*fallback),
            job_of(job),
        ).1);
        (messages, true)
    }

    /// Logs a miner in, under a new random session identifier. The result holds the answer, and
    /// whether a session has begun.
    pub fn handle_login(
        &mut self,
        id: Json,
        params: &Json,
        fallback: &Option<String>,
        job: Option<Job>,
    ) -> (result: (Json, bool))
        requires
            old(self).wf(),
            job matches Some(j) ==> j@.minable(),
        ensures
            final(self).wf(),
            exists|session_id: Seq<char>| #[trigger]
                is_fresh_id(session_id, 8) && session_id.len() == 16 && (
                final(self)@,
                result.0@,
            ) == old(self)@.login(id@, params@, text_of(*fallback), job_of(job), session_id),
            result.1 == (paid_address(
                params@.field("login"@).text_or(Seq::empty()),
                text_of(*fallback),
            ) is Some),
    {
        let session_id: String = fresh_id(8);
        self.handle_login_as(id, params, fallback, job, session_id.as_str())
    }

    /// Logs a miner in, under the given session identifier. The result holds the answer, and
    /// whether a session has begun.
    pub fn handle_login_as(
        &mut self,
        id: Json,
        params: &Json,
        fallback: &Option<String>,
        job: Option<Job>,
        session_id: &str,
    ) -> (result: (Json, bool))
        requires
            old(self).wf(),
            job matches Some(j) ==> j@.minable(),
        ensures
            final(self).wf(),
            (final(self)@, result.0@) == old(self)@.login(
                id@,
                params@,
                text_of(*fallback),
                job_of(job),
                session_id@,
            ),
            result.1 == (paid_address(
                params@.field("login"@).text_or(Seq::empty()),
                text_of(*fallback),
            ) is Some),
    {
        proof {
            reveal_strlit("");
            assert(""@ =~= Seq::<char>::empty());
        }
        let login: &str = match params.text_of_field("login") {
            Some(text) => text,
            None => "",
        };
        let address: String = match find_address(login, fallback) {
            Some(text) => text,
            None => {
                return (refuse(id, 24, "invalid address"), false);
            },
        };
        let (_address, suffix) = split_first(login, '.');
        let worker: String = if suffix.is_empty() {
            match params.text_of_field("rigid") {
                Some(text) => text.to_owned(),
                None => "default".to_owned(),
            }
        } else {
            suffix.to_owned()
        };
        self.address = Some(address.clone());
        self.worker = worker;
        match job {
            Some(j) => {
                let target: [u8; 32] = diff_to_target(self.difficulty);
                let active: ActiveJob = ActiveJob::new(j, address.as_str());
                let job_value: Json = build_login_job(
                    &active.job,
                    active.header_hash_hex.as_str(),
                    &target,
                );
                self.drop_jobs_if_many();
                self.add_job(active);
                (build_login_reply(id, session_id, job_value), true)
            },
            None => (build_login_reply(id, session_id, Json::Null), true),
        }
    }

    /// Hands a new job to the miner, where it is known.
    pub fn push_job(&mut self, job: Job) -> (message: Option<Json>)
        requires
            old(self).wf(),
            old(self)@.address is Some ==> job@.minable(),
        ensures
            final(self).wf(),
            match message {
                Some(m) => (final(self)@, Some(m@)) == old(self)@.push_job(job@),
                None => (final(self)@, None::<JsonView>) == old(self)@.push_job(job@),
            },
    {
        let address: String = match &self.address {
            Some(text) => text.clone(),
            None => {
                return None;
            },
        };
        let target: [u8; 32] = diff_to_target(self.difficulty);
        let active: ActiveJob = ActiveJob::new(job, address.as_str());
        let message: Json = build_notify(
            &active.job,
            active.header_hash_hex.as_str(),
            &target,
            true,
        );
        self.drop_jobs_if_many();
        self.add_job(active);
        Some(message)
    }

    /// Takes the difficulty that a miner suggests. The result holds the messages to send, in
    /// their order.
    pub fn suggest_difficulty(&mut self, id: Json, suggested: Option<u64>) -> (messages: Vec<Json>)
        requires
            old(self).wf(),
        ensures
            final(self).wf(),
            (final(self)@, messages_of(messages@)) == old(self)@.suggest(id@, suggested),
    {
        let ghost before = self@;
        let mut messages: Vec<Json> = Vec::new();
        if let Some(difficulty) = suggested {
            if difficulty > 0 {
                self.difficulty = difficulty;
                messages.push(build_set_difficulty(difficulty));
            }
        }
        messages.push(accept(id));
        assert(messages_of(messages@) =~= before.suggest(id@, suggested).1);
        messages
    }

    /// Judges a submitted share.
    pub fn handle_submit(&mut self, id: Json, params: &Json) -> (outcome: Submission)
        requires
            old(self).wf(),
            old(self)@.can_count(),
        ensures
            final(self).wf(),
            (final(self)@, outcome@) == old(self)@.submit(id@, params@),
    {
        proof {
            reveal_strlit("");
            assert(""@ =~= Seq::<char>::empty());
        }
        let job_id: &str = match params.text_of_item(1) {
            Some(text) => text,
            None => "",
        };
        let nonce_text: &str = match params.text_of_item(2) {
            Some(text) => text,
            None => "",
        };
        let mix_text: &str = match params.text_of_item(4) {
            Some(text) => text,
            None => "",
        };
        let mix_hash_hex: &str = trim_0x(mix_text);
        let nonce: u64 = match parse_hex(trim_0x(nonce_text), u64::MAX) {
            Some(n) => n,
            None => {
                return Submission::Refused(refuse(id, 20, "bad nonce"));
            },
        };
        if self.address.is_none() {
            return Submission::Refused(refuse(id, 24, "not authorized"));
        }
        let target: [u8; 32] = diff_to_target(self.difficulty);
        let (hash, meets_network) = match self.active_jobs.get(job_id) {
            Some(entry) => {
                let header: &str = entry.header_hash_hex.as_str();
                let hash: Option<[u8; 32]> = check_share(header, mix_hash_hex, nonce, &target);
                let meets_network: bool = hash.is_some() && check_share(
                    header,
                    mix_hash_hex,
                    nonce,
                    &entry.job.network_boundary,
                ).is_some();
                (hash, meets_network)
            },
            None => {
                self.share_agg.add_stale();
                return Submission::Refused(refuse(id, 21, "stale job"));
            },
        };
        self.settle(id, job_id, nonce, mix_hash_hex, hash, meets_network)
    }

    /// Counts a share for the active job `job_id`, given its final hash where it meets the pool
    /// target, and whether it meets the target of the network.
    pub fn settle(
        &mut self,
        id: Json,
        job_id: &str,
        nonce: u64,
        mix_hash_hex: &str,
        hash: Option<[u8; 32]>,
        meets_network: bool,
    ) -> (outcome: Submission)
        requires
            old(self).wf(),
            old(self)@.total_valid < u32::MAX,
            old(self)@.total_invalid < u32::MAX,
            old(self)@.address is Some,
            old(self)@.active_jobs.dom().contains(job_id@),
        ensures
            final(self).wf(),
            (final(self)@, outcome@) == old(self)@.settle(
                id@,
                old(self)@.active_jobs[job_id@],
                nonce,
                mix_hash_hex@,
                hash_of(hash),
                meets_network,
            ),
    {
        match hash {
            None => {
                self.share_agg.add_invalid();
                self.total_invalid = self.total_invalid + 1;
                Submission::Refused(refuse(id, 23, "low difficulty share"))
            },
            Some(h) => {
                let block: Option<FoundBlock> = if meets_network {
                    self.complete_block(job_id, nonce, mix_hash_hex, &h)
                } else {
                    None
                };
                self.share_agg.add_valid(self.difficulty, &h);
                self.total_valid = self.total_valid + 1;
                Submission::Accepted(accept(id), block)
            },
        }
    }

    /// The block that a share for the active job `job_id` completes, where its mix hash can be
    /// read.
    fn complete_block(
        &self,
        job_id: &str,
        nonce: u64,
        mix_hash_hex: &str,
        hash: &[u8; 32],
    ) -> (block: Option<FoundBlock>)
        requires
            self.wf(),
            self@.address is Some,
            self@.active_jobs.dom().contains(job_id@),
        ensures
            block is Some <==> raw_mix_hash(mix_hash_hex@) is Some,
            block matches Some(b) ==> b@ == self@.found_block(
                self@.active_jobs[job_id@],
                nonce,
                mix_hash_hex@,
                hash@,
            ),
    {
        match (&self.address, self.active_jobs.get(job_id), mix_hash_to_raw(mix_hash_hex)) {
            (Some(address), Some(entry), Some(mix_raw)) => {
                let prefix: [u8; 80] = entry.job.build_header_prefix(entry.merkle_root);
                let (miner_payout_sats, dev_fee_sats) = entry.job.coinbase_split();
                let raw: Vec<u8> = entry.job.serialize_block(
                    &prefix,
                    nonce,
                    &mix_raw,
                    address.as_str(),
                );
                Some(
                    FoundBlock {
                        height: entry.job.height,
                        block_hex: hexcode::encode(raw.as_slice()),
                        final_hash_hex: hexcode::encode(hash.as_slice()),
                        address: address.clone(),
                        worker: self.worker.clone(),
                        miner_payout_sats,
                        dev_fee_sats,
                        community_sats: entry.job.community_value,
                    },
                )
            },
            _ => None,
        }
    }

    /// Whether a share for an active job repeats another header hash than the one handed out.
    pub fn repeats_other_header(&self, params: &Json) -> (other: bool)
        requires
            self.wf(),
        ensures
            other == (self@.active_jobs.dom().contains(submitted_job(params@))
                && submitted_header(params@).len() > 0 && submitted_header(params@)
                != self@.active_jobs[submitted_job(params@)].header_hash_hex),
    {
        proof {
            reveal_strlit("");
            assert(""@ =~= Seq::<char>::empty());
        }
        let job_id: &str = match params.text_of_item(1) {
            Some(text) => text,
            None => "",
        };
        let header_text: &str = match params.text_of_item(3) {
            Some(text) => text,
            None => "",
        };
        let header: &str = trim_0x(header_text);
        match self.active_jobs.get(job_id) {
            Some(entry) => !header.is_empty() && !same_text(
                header,
                entry.header_hash_hex.as_str(),
            ),
            None => false,
        }
    }

    /// Counts a share towards the next change of difficulty, and sets the difficulty where the
    /// change is due. `elapsed_secs` is the time since the last change, and `raw` the difficulty
    /// that would have spread the shares as wanted. The result is the new difficulty where it
    /// differs from the old one, and whether the change was due.
    pub fn vardiff(&mut self, elapsed_secs: u64, raw: u64) -> (result: (Option<u64>, bool))
        requires
            old(self).wf(),
        ensures
            final(self).wf(),
            final(self)@ == old(self)@.retarget(elapsed_secs, raw),
            result.0 == (if final(self)@.difficulty != old(self)@.difficulty {
                Some(final(self)@.difficulty)
            } else {
                None
            }),
            result.1 == (old(self)@.shares_since_retarget + 1 >= RETARGET_SHARES || elapsed_secs
                >= RETARGET_SECONDS),
            result.1 ==> final(self)@.shares_since_retarget == 0 && 1 <= final(self)@.difficulty
                <= MAX_DIFFICULTY,
            !result.1 ==> final(self)@.difficulty == old(self)@.difficulty
                && final(self)@.shares_since_retarget == old(self)@.shares_since_retarget + 1,
    {
        self.shares_since_retarget = self.shares_since_retarget + 1;
        if self.shares_since_retarget >= RETARGET_SHARES || elapsed_secs >= RETARGET_SECONDS {
            let new_diff: u64 = if raw < 1 {
                1
            } else if raw > MAX_DIFFICULTY {
                MAX_DIFFICULTY
            } else {
                raw
            };
            self.shares_since_retarget = 0;
            if new_diff != self.difficulty {
                self.difficulty = new_diff;
                (Some(new_diff), true)
            } else {
                (None, true)
            }
        } else {
            (None, false)
        }
    }

    /// Takes the shares since the last report, where there is anything to report.
    pub fn take_share_report(&mut self) -> (report: Option<ShareReport>)
        requires
            old(self).wf(),
        ensures
            final(self).wf(),
            match report {
                Some(r) => (final(self)@, Some(r@)) == old(self)@.report(),
                None => (final(self)@, None::<ShareReportView>) == old(self)@.report(),
            },
    {
        let address: String = match &self.address {
            Some(text) => text.clone(),
            None => {
                return None;
            },
        };
        if self.share_agg.is_empty() {
            return None;
        }
        let mut shares: ShareAggregate = ShareAggregate::new();
        std::mem::swap(&mut shares, &mut self.share_agg);
        Some(ShareReport { address, worker: self.worker.clone(), shares })
    }

    /// How the miner is called in logs.
    pub fn label(&self) -> (label: String)
        ensures
            label@ == self@.label(),
    {
        match &self.address {
            Some(address) => {
                let with_dot: String = address.clone().concat(".");
                with_dot.concat(self.worker.as_str())
            },
            None => "(unauthorized)".to_owned(),
        }
    }

    /// Notes the database row of the session.
    pub fn set_db_session_id(&mut self, session_id: Option<i64>)
        requires
            old(self).wf(),
        ensures
            final(self).wf(),
            final(self)@ == (MinerView { db_session_id: session_id, ..old(self)@ }),
    {
        self.db_session_id = session_id;
    }

    /// Whether one more share of any kind can be counted.
    pub fn can_count(&self) -> (can: bool)
        ensures
            can == self@.can_count(),
    {
        self.total_valid < u32::MAX && self.total_invalid < u32::MAX && self.share_agg.shares_stale
            < u32::MAX
    }

    pub fn address(&self) -> (address: Option<String>)
        ensures
            text_of(address) == self@.address,
    {
        match &self.address {
            Some(text) => Some(text.clone()),
            None => None,
        }
    }

    pub fn worker(&self) -> (worker: String)
        ensures
            worker@ == self@.worker,
    {
        self.worker.clone()
    }

    pub fn extranonce1(&self) -> (extranonce1: String)
        ensures
            extranonce1@ == self@.extranonce1,
    {
        self.extranonce1.clone()
    }

    pub fn difficulty(&self) -> (difficulty: u64)
        ensures
            difficulty == self@.difficulty,
    {
        self.difficulty
    }

    pub fn shares_since_retarget(&self) -> (shares: u32)
        ensures
            shares == self@.shares_since_retarget,
    {
        self.shares_since_retarget
    }

    pub fn db_session_id(&self) -> (session_id: Option<i64>)
        ensures
            session_id == self@.db_session_id,
    {
        self.db_session_id
    }

    pub fn total_valid(&self) -> (shares: u32)
        ensures
            shares == self@.total_valid,
    {
        self.total_valid
    }

    pub fn total_invalid(&self) -> (shares: u32)
        ensures
            shares == self@.total_invalid,
    {
        self.total_invalid
    }
}

/// Whether every active job was made for `address`.
pub open spec fn all_jobs_for(state: MinerView, address: Seq<char>) -> bool {
    forall|id: Seq<char>| #[trigger]
        state.active_jobs.dom().contains(id) ==> state.active_jobs[id] == active_job_for(
            state.active_jobs[id].job,
            address,
        )
}

/// As long as a miner stays with its address, all its active jobs pay that address: a new
/// session has no jobs, and no call brings in a job for another address.
pub proof fn active_jobs_pay_the_miner(
    state: MinerView,
    address: Seq<char>,
    id: JsonView,
    params: JsonView,
    fallback: Option<Seq<char>>,
    job: Option<JobView>,
    session_id: Seq<char>,
    suggested: Option<u64>,
    elapsed_secs: u64,
    raw: u64,
)
    requires
        all_jobs_for(state, address),
    ensures
        forall|difficulty: u64, extranonce1: Seq<char>|
            all_jobs_for(#[trigger] new_session(difficulty, extranonce1), address),
        ({
            let after = state.authorize(id, params, fallback, job).0;
            after.address == Some(address) ==> all_jobs_for(after, address)
        }),
        ({
            let after = state.login(id, params, fallback, job, session_id).0;
            after.address == Some(address) ==> all_jobs_for(after, address)
        }),
        state.address == Some(address) && job is Some ==> all_jobs_for(
            state.push_job(job->0).0,
            address,
        ),
        all_jobs_for(state.submit(id, params).0, address),
        all_jobs_for(state.suggest(id, suggested).0, address),
        all_jobs_for(state.retarget(elapsed_secs, raw), address),
        all_jobs_for(state.report().0, address),
{
}

/// The parts of a session agree with each other.
pub proof fn session_is_well_formed(state: MinerState)
    requires
        state.wf(),
    ensures
        state@.wf(),
{
}

/// A miner whose active jobs pay its own address gets a consistent block for every share that
/// completes one. The header of the block has the very hash that the share was judged by, and
/// carries its nonce and mix hash. It commits to the coinbase and the transactions that follow.
/// The coinbase pays the miner first.
pub proof fn found_block_is_consistent(
    state: MinerState,
    address: Seq<char>,
    id: JsonView,
    params: JsonView,
)
    requires
        state.wf(),
        state@.address == Some(address),
        all_jobs_for(state@, address),
    ensures
        state@.submit(id, params).1 matches SubmissionView::Accepted(_, Some(found)) ==> {
            let entry = state@.active_jobs[submitted_job(params)];
            let job = entry.job;
            let coinbase = job.coinbase(address);
            &&& hexcode::decoded(found.block_hex) matches Some(block) && {
                &&& hexcode::encoded(sha256d_of(block.take(80)).reverse()) == entry.header_hash_hex
                &&& block.subrange(36, 68) == merkle_root_of(
                    seq![sha256d_of(coinbase.legacy_bytes())] + job.tx_data.map_values(
                        |raw: Seq<u8>| txid_of(raw),
                    ),
                )
                &&& block.subrange(80, 88) == le_bytes(submitted_nonce(params)->0, 8)
                &&& block.subrange(88, 120).reverse() == hexcode::decoded(
                    submitted_mix(params),
                )->0
                &&& block.skip(120) == varint_bytes(1 + job.tx_data.len())
                    + coinbase.segwit_bytes() + joined(job.tx_data)
            }
            &&& coinbase.outputs[0].script == script_of(address)
            &&& coinbase.outputs[0].value == found.miner_payout_sats
            &&& found.miner_payout_sats + found.dev_fee_sats == job.coinbase_value
            &&& found.address == address
        },
{
    if let SubmissionView::Accepted(_, Some(found)) = state@.submit(id, params).1 {
        let job_id = submitted_job(params);
        let entry = state@.active_jobs[job_id];
        let mix = submitted_mix(params);
        let raw = raw_mix_hash(mix)->0;
        let nonce = submitted_nonce(params)->0 as u64;
        stored_jobs_are_real(state.active_jobs, job_id);
        let stored = choose|stored: ActiveJob| #[trigger] stored@ == entry;
        assert(entry == active_job_for(entry.job, address));
        let block = entry.job.block(
            entry.job.header_prefix(entry.merkle_root),
            nonce,
            raw,
            address,
        );
        block_carries_its_header(stored.job, address, entry.merkle_root, nonce, raw);
        coinbase_pays_out(stored.job, address);
        hexcode::decode_of_encode(block);
        assert(raw.reverse() =~= hexcode::decoded(mix)->0);
    }
}

/// A job that has been handed out is no stale job: a share for it is judged by its hash, as
/// long as its nonce is a number.
pub proof fn handed_out_jobs_are_not_stale(
    state: MinerView,
    id: JsonView,
    params: JsonView,
    fallback: Option<Seq<char>>,
    job: JobView,
    session_id: Seq<char>,
    share: JsonView,
)
    requires
        state.address is Some,
        submitted_job(share) == job.id,
        submitted_nonce(share) is Some,
    ensures
        state.push_job(job).0.active_jobs.dom().contains(job.id),
        paid_address(params.item(0).text_or(Seq::empty()), fallback) is Some ==> state.authorize(
            id,
            params,
            fallback,
            Some(job),
        ).0.active_jobs.dom().contains(job.id),
        paid_address(params.field("login"@).text_or(Seq::empty()), fallback) is Some
            ==> state.login(
            id,
            params,
            fallback,
            Some(job),
            session_id,
        ).0.active_jobs.dom().contains(job.id),
        ({
            let after = state.push_job(job).0;
            let (judged, outcome) = after.submit(id, share);
            ||| outcome is Accepted
            ||| outcome == SubmissionView::Refused(error_reply(id, 23, "low difficulty share"@))
        }),
{
}

/// Right after a job is pushed to a known miner, and right after a login, the miner has no more
/// active jobs than the limit, however many it had before.
pub proof fn active_jobs_are_few(
    state: MinerView,
    id: JsonView,
    params: JsonView,
    fallback: Option<Seq<char>>,
    job: JobView,
    session_id: Seq<char>,
)
    requires
        state.wf(),
    ensures
        state.address is Some ==> state.push_job(job).0.active_jobs.dom().len()
            <= MAX_ACTIVE_JOBS,
        paid_address(params.field("login"@).text_or(Seq::empty()), fallback) is Some
            ==> state.login(
            id,
            params,
            fallback,
            Some(job),
            session_id,
        ).0.active_jobs.dom().len() <= MAX_ACTIVE_JOBS,
{
}

/// A share completes a block exactly where its final hash meets both the pool target and the
/// target of the network; the block is reported with that hash.
pub proof fn blocks_meet_both_targets(state: MinerView, id: JsonView, params: JsonView)
    requires
        state.address is Some,
        state.active_jobs.dom().contains(submitted_job(params)),
        submitted_nonce(params) is Some,
    ensures
        ({
            let entry = state.active_jobs[submitted_job(params)];
            let nonce = submitted_nonce(params)->0 as u64;
            let mix = submitted_mix(params);
            let pool = accepted_hash(
                entry.header_hash_hex,
                mix,
                nonce,
                pool_target(state.difficulty),
            );
            let network = accepted_hash(
                entry.header_hash_hex,
                mix,
                nonce,
                entry.job.network_boundary,
            );
            let outcome = state.submit(id, params).1;
            &&& (outcome is Accepted && outcome->1 is Some) <==> (pool is Some && network is Some)
            &&& outcome is Accepted && outcome->1 is Some ==> {
                &&& network == pool
                &&& outcome->1->0.final_hash_hex == hexcode::encoded(network->0)
                &&& be_value(network->0) <= be_value(entry.job.network_boundary)
            }
        }),
{
}

/// A share is good enough for a difficulty exactly where its final hash, read as a number, is at
/// most the target of the difficulty. A higher difficulty is never easier to meet.
pub proof fn pool_target_is_that_of_the_difficulty(low: u64, high: u64)
    requires
        low <= high,
    ensures
        be_value(pool_target(low)) == difficulty_target(low as nat),
        be_value(pool_target(high)) == difficulty_target(high as nat),
        be_value(pool_target(high)) <= be_value(pool_target(low)),
{
    lemma_target_fits(low as nat);
    lemma_target_fits(high as nat);
    lemma_be_bytes_value(difficulty_target(low as nat), 32);
    lemma_be_bytes_value(difficulty_target(high as nat), 32);
    target_falls_with_difficulty(low as nat, high as nat);
}

/// A submission counts for exactly one share: for a valid or an invalid one where it is judged by
/// its hash, and for a stale one where its job is not active. It counts for none where its nonce
/// is no number or the miner is not known. It changes neither the miner's difficulty nor its jobs.
pub proof fn a_share_counts_at_most_once(state: MinerState, id: JsonView, params: JsonView)
    requires
        state.wf(),
        state@.can_count(),
    ensures
        ({
            let before = state@;
            let (after, outcome) = before.submit(id, params);
            let known = submitted_nonce(params) is Some && before.address is Some;
            let active = before.active_jobs.dom().contains(submitted_job(params));
            let judged = known && active;
            &&& !known ==> after == before
            &&& known && !active ==> {
                &&& after.share_agg.shares_stale == before.share_agg.shares_stale + 1
                &&& after.share_agg.shares_valid == before.share_agg.shares_valid
                &&& after.share_agg.shares_invalid == before.share_agg.shares_invalid
                &&& after.total_valid == before.total_valid
                &&& after.total_invalid == before.total_invalid
                &&& outcome == SubmissionView::Refused(error_reply(id, 21, "stale job"@))
            }
            &&& judged && outcome is Accepted ==> {
                &&& after.share_agg.shares_valid == before.share_agg.shares_valid + 1
                &&& after.share_agg.shares_invalid == before.share_agg.shares_invalid
                &&& after.total_valid == before.total_valid + 1
                &&& after.total_invalid == before.total_invalid
            }
            &&& judged && outcome is Refused ==> {
                &&& after.share_agg.shares_valid == before.share_agg.shares_valid
                &&& after.share_agg.shares_invalid == before.share_agg.shares_invalid + 1
                &&& after.total_valid == before.total_valid
                &&& after.total_invalid == before.total_invalid + 1
            }
            &&& judged ==> after.share_agg.shares_stale == before.share_agg.shares_stale
            &&& outcome is Accepted ==> judged
            &&& after.difficulty == before.difficulty
            &&& after.active_jobs == before.active_jobs
            &&& after.address == before.address
            &&& after.shares_since_retarget == before.shares_since_retarget
        }),
{
}

/// With a fallback address no miner is turned away: it is paid at its own address where that is
/// valid, and at the fallback address otherwise. Without one, exactly the miners with a valid
/// address are let in.
pub proof fn fallback_lets_everyone_in(
    state: MinerView,
    id: JsonView,
    params: JsonView,
    fallback: Option<Seq<char>>,
    job: Option<JobView>,
    session_id: Seq<char>,
)
    ensures
        ({
            let own = before_first(params.item(0).text_or(Seq::empty()), '.');
            let after = state.authorize(id, params, fallback, job).0;
            &&& valid_address(own) ==> after.address == Some(own)
            &&& !valid_address(own) && fallback is Some ==> after.address == fallback
            &&& !valid_address(own) && fallback is None ==> after == state
        }),
        ({
            let own = before_first(params.field("login"@).text_or(Seq::empty()), '.');
            let after = state.login(id, params, fallback, job, session_id).0;
            &&& valid_address(own) ==> after.address == Some(own)
            &&& !valid_address(own) && fallback is Some ==> after.address == fallback
            &&& !valid_address(own) && fallback is None ==> after == state
        }),
{
}

/// A change of difficulty that is due leaves the difficulty between one and the highest value,
/// and makes the next one due only after new shares or more time.
pub proof fn retarget_stays_in_range(state: MinerView, elapsed_secs: u64, raw: u64)
    requires
        state.wf(),
    ensures
        ({
            let after = state.retarget(elapsed_secs, raw);
            &&& after.shares_since_retarget < RETARGET_SHARES
            &&& after.shares_since_retarget == 0 ==> 1 <= after.difficulty <= MAX_DIFFICULTY
            &&& after.shares_since_retarget != 0 ==> after.difficulty == state.difficulty
            &&& 1 <= raw <= MAX_DIFFICULTY && after.shares_since_retarget == 0 ==> after.difficulty
                == raw
        }),
{
}

/// No share is reported twice and none is lost: a report holds all shares since the last one,
/// stale ones too, and right after it there is nothing to report. Where nothing is reported,
/// everything counted so far stays for the next report.
pub proof fn reports_do_not_overlap(state: MinerView)
    ensures
        ({
            let (after, report) = state.report();
            &&& after.report() == (after, None::<ShareReportView>)
            &&& report matches Some(r) ==> r.shares == state.share_agg && after.share_agg
                == no_shares()
            &&& report is None ==> after == state
            &&& after.total_valid == state.total_valid
            &&& after.total_invalid == state.total_invalid
        }),
{
}

} // verus!
