use mewc_solo_pool::dispatch::{conclude, needs_job, react, react_as, Reaction};
use mewc_solo_pool::job::Job;
use mewc_solo_pool::json::Json;
use mewc_solo_pool::node::{BlockTemplate, GbtTransaction};
use mewc_solo_pool::session::{FoundBlock, MinerState, Submission};
use mewc_solo_pool::shares::{share_difficulty, ShareDifficulty};
use mewc_solo_pool::stratum::{
    accept, build_notify, handle_subscribe, read_request, refuse_unknown, Method, Request,
};
use mewc_solo_pool::target::diff_to_target;

const MINER: &str = "1A1zP1eP5QGefi2DMPTfTL5SLmv7DivfNa";
const COMMUNITY: &str = "1BvBMSEYstWetqTFn5Au4m4GFg7xJaNVN2";
const FEE: &str = "3J98t1WpEZ73CNmQviecrnyiWrnqRhWNLy";
const SEGWIT_TX: &str = "01000000000102fff7f7881a8099afa6940d42d1e7f6362bec38171ea3edf433541db4e4ad969f00000000494830450221008b9d1dc26ba6a9cb62127b02742fa9d754cd3bebf337f7a55d114c8e5cdd30be022040529b194ba3f9281a99f2b1c0a19c0489bc22ede944ccf4ecbab4cc618ef3ed01eeffffffef51e1b804cc89d182d279655c3aa89e815b1b309fe287d9b2b55d57b90ec68a0100000000ffffffff02202cb206000000001976a9148280b37df378db99f66f85c95a783a76ac7a6d5988ac9093510d000000001976a9143bde42dbee7e4dbe6a21b2d50ce2f0167faa815988ac000247304402203609e17b84f6a7d30c80bfa610b5b4542f32a8a0d5447a12fb1366d7f01cc44a0220573a954c4518331561406f90300e8f3358f51928d43c212a8caed02de67eebee0121025476c2e83188368da1ff3e292e7acafcdb3566bb0ad253f62fc70f07aeee635711000000";
const LEGACY_TX: &str = "01000000010000000000000000000000000000000000000000000000000000000000000000ffffffff4d04ffff001d0104455468652054696d65732030332f4a616e2f32303039204368616e63656c6c6f72206f6e206272696e6b206f66207365636f6e64206261696c6f757420666f722062616e6b73ffffffff0100f2052a01000000434104678afdb0fe5548271967f1a67130b7105cd6a828e03909a67962e0ea1f61deb649f6bc3f4cef38c4f35504e51ec112de5c384df7ba0b8d578a4c702b6bf11d5fac00000000";
const MIX: &str = "d85c3a464824e2c5422d84b9572eb7fc214473e36d89dcca83fe0d8efb7ca00d";
const SEED: &str = "4442f225020ba6d0037c1baa9e9f66654481d0e5b3db0a4631120df006c71b42";
/// What the miner works on in the job below.
const HEADER: &str = "cd702f106e0e25da29eafdc93d142092371e980dbbabe9dccff49298ab8acd73";
/// The same for the fallback address.
const FALLBACK_HEADER: &str = "18e094ceee0a39aca126120b7af54885c8d6139ba42d4085be10a144aad72809";

fn transaction(data: &str) -> GbtTransaction {
    GbtTransaction {
        data: data.to_string(),
        txid: "00".repeat(32),
        hash: "00".repeat(32),
        fee: 1,
        weight: 4,
    }
}

fn job_named(id: &str) -> Job {
    let template = BlockTemplate {
        version: 0x3000_0000,
        previousblockhash: "00000000000000000001a2b3c4d5e6f708192a3b4c5d6e7f8091a2b3c4d5e6f7"
            .to_string(),
        transactions: vec![transaction(LEGACY_TX), transaction(SEGWIT_TX)],
        coinbasevalue: 250_000_000_000,
        bits: "207fffff".to_string(),
        height: 801_212,
        curtime: 1_710_799_584,
        witness_commitment: Some(format!("6a24aa21a9ed{}", "11".repeat(32))),
        community_address: Some(COMMUNITY.to_string()),
        community_value: Some(100_000_000),
    };
    Job::with_id(template, id.to_string(), Some(FEE.to_string()), Some(2_500_000_000))
}

fn text(s: &str) -> Json {
    Json::Str(s.to_string())
}

fn object(pairs: Vec<(&str, Json)>) -> Json {
    Json::Object(pairs.into_iter().map(|(k, v)| (k.to_string(), v)).collect())
}

fn ok(id: u64) -> Json {
    object(vec![("id", Json::Uint(id)), ("result", Json::Bool(true)), ("error", Json::Null)])
}

fn error(id: u64, code: u64, reason: &str) -> Json {
    object(vec![
        ("id", Json::Uint(id)),
        ("result", Json::Null),
        ("error", Json::Array(vec![Json::Uint(code), text(reason), Json::Null])),
    ])
}

fn set_difficulty(difficulty: u64) -> Json {
    object(vec![
        ("id", Json::Null),
        ("method", text("mining.set_difficulty")),
        ("params", Json::Array(vec![Json::Uint(difficulty)])),
    ])
}

fn notify(job_id: &str, header: &str, target: &str) -> Json {
    object(vec![
        ("id", Json::Null),
        ("method", text("mining.notify")),
        (
            "params",
            Json::Array(vec![
                text(job_id),
                text(header),
                text(SEED),
                text(target),
                Json::Bool(true),
                Json::Uint(801_212),
            ]),
        ),
    ])
}

const TARGET_ONE: &str = "00000000ffff0000000000000000000000000000000000000000000000000000";
const TARGET_ALL: &str = "ffffffffffffffffffffffffffffffffffffffffffffffffffffffffffffffff";

fn params(items: &[&str]) -> Json {
    Json::Array(items.iter().map(|s| text(s)).collect())
}

/// A miner that is known, works on the job `j1`, and whose every share meets the pool target.
fn mining() -> MinerState {
    let mut state = MinerState::new(0, "ab01ff00".to_string());
    let login = format!("{MINER}.rig1");
    let (_, started) =
        state.handle_authorize(Json::Uint(1), &params(&[&login, "x"]), &None, Some(job_named("j1")));
    assert!(started);
    state
}

fn share(job_id: &str, nonce: &str) -> Json {
    params(&["rig1", job_id, nonce, HEADER, MIX])
}

#[test]
fn requests_are_read() {
    let msg = object(vec![
        ("id", text("a")),
        ("method", text("mining.submit")),
        ("params", params(&["x"])),
    ]);
    let request = read_request(&msg);
    assert_eq!(request.id, text("a"));
    assert_eq!(request.method, Method::Submit);
    assert_eq!(request.params, params(&["x"]));
    for (name, method) in [
        ("mining.subscribe", Method::Subscribe),
        ("mining.authorize", Method::Authorize),
        ("login", Method::Login),
        ("mining.extranonce.subscribe", Method::ExtranonceSubscribe),
        ("mining.suggest_difficulty", Method::SuggestDifficulty),
        ("eth_submitHashrate", Method::SubmitHashrate),
        ("eth_getWork", Method::Unknown),
        ("", Method::Unknown),
    ] {
        assert_eq!(read_request(&object(vec![("method", text(name))])).method, method);
    }
    let empty = read_request(&Json::Array(vec![]));
    assert_eq!((empty.id, empty.method, empty.params), (Json::Null, Method::Unknown, Json::Null));
    // Of two members with one name the later one counts.
    let twice = object(vec![("id", Json::Uint(1)), ("id", Json::Uint(2))]);
    assert_eq!(read_request(&twice).id, Json::Uint(2));
}

#[test]
fn plain_answers() {
    assert_eq!(accept(Json::Uint(7)), ok(7));
    assert_eq!(refuse_unknown(Json::Uint(7)), error(7, 20, "Unknown method"));
    assert_eq!(
        handle_subscribe(Json::Uint(1), "ab01ff00"),
        object(vec![
            ("id", Json::Uint(1)),
            (
                "result",
                Json::Array(vec![
                    Json::Array(vec![
                        params(&["mining.set_difficulty", ""]),
                        params(&["mining.notify", ""]),
                    ]),
                    text("ab01ff00"),
                    Json::Uint(4),
                ])
            ),
            ("error", Json::Null),
        ])
    );
    assert_eq!(
        build_notify(&job_named("j9"), HEADER, &diff_to_target(1), true),
        notify("j9", HEADER, TARGET_ONE)
    );
}

#[test]
fn answers_carry_the_id_of_any_kind() {
    let id = object(vec![("deep", Json::Array(vec![Json::Int(-1), Json::Bool(false)]))]);
    assert_eq!(accept(id.copy()).get("id"), Some(&id));
    assert_eq!(refuse_unknown(id.copy()).get("id"), Some(&id));
    assert_eq!(handle_subscribe(id.copy(), "x").get("id"), Some(&id));
}

fn request(id: u64, method: Method, params: Json) -> Request {
    Request { id: Json::Uint(id), method, params }
}

#[test]
fn requests_of_every_kind() {
    let mut state = MinerState::new(1, "ab01ff00".to_string());
    assert_eq!(
        react(&mut state, request(1, Method::Subscribe, Json::Null), &None, None, None),
        Reaction::Send(vec![handle_subscribe(Json::Uint(1), "ab01ff00")])
    );
    assert_eq!(
        react(&mut state, request(2, Method::Unknown, Json::Null), &None, None, None),
        Reaction::Send(vec![error(2, 20, "Unknown method")])
    );
    assert_eq!(
        react(&mut state, request(3, Method::ExtranonceSubscribe, Json::Null), &None, None, None),
        Reaction::Send(vec![ok(3)])
    );
    assert_eq!(
        react(&mut state, request(4, Method::SubmitHashrate, Json::Null), &None, None, None),
        Reaction::Send(vec![ok(4)])
    );
    assert_eq!(
        react(&mut state, request(5, Method::SuggestDifficulty, Json::Null), &None, None, Some(9)),
        Reaction::Send(vec![set_difficulty(9), ok(5)])
    );
    assert_eq!(
        react(&mut state, request(6, Method::Authorize, params(&["x"])), &None, None, None),
        Reaction::Send(vec![error(6, 24, "invalid address")])
    );
    assert_eq!(
        react(&mut state, request(7, Method::Authorize, params(&[MINER])), &None, None, None),
        Reaction::Begin(vec![ok(7), set_difficulty(9)])
    );
    assert_eq!(
        react(&mut state, request(8, Method::Submit, share("j1", "0")), &None, None, None),
        Reaction::Judged(Submission::Refused(error(8, 21, "stale job")))
    );
    let login = object(vec![("login", text(MINER))]);
    let want = object(vec![
        ("id", Json::Uint(9)),
        ("error", Json::Null),
        (
            "result",
            object(vec![("id", text("s1")), ("status", text("OK")), ("job", Json::Null)]),
        ),
    ]);
    assert_eq!(
        react_as(&mut state, request(9, Method::Login, login.copy()), &None, None, None, "s1"),
        Reaction::Begin(vec![want])
    );
    assert!(matches!(
        react(&mut state, request(10, Method::Login, login), &None, None, None),
        Reaction::Begin(_)
    ));
    assert_eq!(
        react(&mut state, request(11, Method::Login, Json::Null), &None, None, None),
        Reaction::Send(vec![error(11, 24, "invalid address")])
    );
    assert!(needs_job(Method::Authorize) && needs_job(Method::Login));
    assert!(!needs_job(Method::Submit) && !needs_job(Method::Unknown));
}

#[test]
fn authorization_is_acknowledged_first() {
    let mut state = MinerState::new(1, "ab01ff00".to_string());
    let login = format!("{MINER}.rig1.password");
    let (messages, started) =
        state.handle_authorize(Json::Uint(2), &params(&[&login, "x"]), &None, Some(job_named("j1")));
    assert!(started);
    assert_eq!(messages, vec![ok(2), set_difficulty(1), notify("j1", HEADER, TARGET_ONE)]);
    assert_eq!(state.address(), Some(MINER.to_string()));
    assert_eq!(state.worker(), "rig1");
    assert_eq!(state.label(), format!("{MINER}.rig1"));
    assert_eq!(state.extranonce1(), "ab01ff00");
}

#[test]
fn worker_names_of_authorizations() {
    for (items, worker) in [
        (vec![MINER, "other"], "other"),
        (vec![MINER], "default"),
        (vec!["1A1zP1eP5QGefi2DMPTfTL5SLmv7DivfNa.", "x"], "x"),
        (vec!["1A1zP1eP5QGefi2DMPTfTL5SLmv7DivfNa..y", "x"], ""),
        (vec!["1A1zP1eP5QGefi2DMPTfTL5SLmv7DivfNa.a.b.c", "x"], "a"),
    ] {
        let mut state = MinerState::new(1, String::new());
        state.handle_authorize(Json::Null, &params(&items), &None, None);
        assert_eq!(state.worker(), worker);
    }
}

#[test]
fn authorization_without_a_job() {
    let mut state = MinerState::new(5, String::new());
    let (messages, started) = state.handle_authorize(Json::Uint(2), &params(&[MINER]), &None, None);
    assert!(started);
    assert_eq!(messages, vec![ok(2), set_difficulty(5)]);
}

#[test]
fn invalid_addresses_fall_back_or_are_refused() {
    let mut state = MinerState::new(1, String::new());
    let (messages, started) =
        state.handle_authorize(Json::Uint(3), &params(&["nobody.rig"]), &None, Some(job_named("j1")));
    assert!(!started);
    assert_eq!(messages, vec![error(3, 24, "invalid address")]);
    assert_eq!(state.address(), None);
    assert_eq!(state.label(), "(unauthorized)");

    let fallback = Some(FEE.to_string());
    let (messages, started) =
        state.handle_authorize(Json::Uint(3), &params(&["nobody.rig"]), &fallback, Some(job_named("j1")));
    assert!(started);
    assert_eq!(
        messages,
        vec![ok(3), set_difficulty(1), notify("j1", FALLBACK_HEADER, TARGET_ONE)]
    );
    assert_eq!(state.address(), fallback);
    assert_eq!(state.worker(), "rig");

    // Parameters that are no list name nobody.
    let (_, started) = state.handle_authorize(Json::Null, &Json::Null, &None, None);
    assert!(!started);
}

#[test]
fn logins_get_session_and_job() {
    let mut state = MinerState::new(1, String::new());
    let login = object(vec![("login", text(&format!("{MINER}.rig.1"))), ("rigid", text("r"))]);
    let (reply, started) =
        state.handle_login_as(Json::Uint(4), &login, &None, Some(job_named("j1")), "0123456789abcdef");
    assert!(started);
    assert_eq!(
        reply,
        object(vec![
            ("id", Json::Uint(4)),
            ("error", Json::Null),
            (
                "result",
                object(vec![
                    ("id", text("0123456789abcdef")),
                    ("status", text("OK")),
                    (
                        "job",
                        object(vec![
                            ("job_id", text("j1")),
                            ("seed_hash", text(SEED)),
                            ("blob", text(HEADER)),
                            ("target", text(TARGET_ONE)),
                        ])
                    ),
                ])
            ),
        ])
    );
    assert_eq!(state.worker(), "rig.1");

    let (reply, started) = state.handle_login_as(
        Json::Uint(4),
        &object(vec![("login", text(MINER)), ("rigid", text("r"))]),
        &None,
        None,
        "s",
    );
    assert!(started);
    assert_eq!(reply.get("result").unwrap().get("job"), Some(&Json::Null));
    assert_eq!(state.worker(), "r");

    state.handle_login_as(Json::Null, &object(vec![("login", text(MINER))]), &None, None, "s");
    assert_eq!(state.worker(), "default");
}

#[test]
fn logins_get_a_random_session() {
    let mut state = MinerState::new(1, String::new());
    let login = object(vec![("login", text(MINER))]);
    let (a, _) = state.handle_login(Json::Null, &login, &None, None);
    let (b, _) = state.handle_login(Json::Null, &login, &None, None);
    let id = |reply: &Json| {
        reply.get("result").unwrap().text_of_field("id").unwrap().to_string()
    };
    assert_eq!(id(&a).len(), 16);
    assert_ne!(id(&a), id(&b));
}

#[test]
fn logins_with_invalid_addresses() {
    let mut state = MinerState::new(1, String::new());
    let login = object(vec![("login", text("nobody"))]);
    let (reply, started) = state.handle_login(Json::Uint(6), &login, &None, Some(job_named("j1")));
    assert!(!started);
    assert_eq!(reply, error(6, 24, "invalid address"));
    assert_eq!(state.address(), None);
    let (_, started) =
        state.handle_login(Json::Uint(6), &login, &Some(FEE.to_string()), Some(job_named("j1")));
    assert!(started);
    assert_eq!(state.address(), Some(FEE.to_string()));
}

#[test]
fn jobs_are_pushed_to_known_miners() {
    let mut state = MinerState::new(0, String::new());
    assert_eq!(state.push_job(job_named("j1")), None);
    state.handle_authorize(Json::Null, &params(&[MINER]), &None, None);
    assert_eq!(
        state.handle_submit(Json::Uint(9), &share("j1", "0")),
        Submission::Refused(error(9, 21, "stale job"))
    );
    assert_eq!(state.push_job(job_named("j1")), Some(notify("j1", HEADER, TARGET_ALL)));
    assert!(matches!(state.handle_submit(Json::Uint(9), &share("j1", "0")), Submission::Accepted(_, _)));
}

#[test]
fn old_jobs_become_stale() {
    let mut state = mining();
    for id in ["j2", "j3", "j4"] {
        state.push_job(job_named(id));
    }
    assert!(matches!(state.handle_submit(Json::Null, &share("j1", "0")), Submission::Accepted(_, _)));
    // The fifth job drops all before it.
    state.push_job(job_named("j5"));
    for id in ["j1", "j2", "j3", "j4"] {
        assert_eq!(
            state.handle_submit(Json::Uint(1), &share(id, "0")),
            Submission::Refused(error(1, 21, "stale job"))
        );
    }
    assert!(matches!(state.handle_submit(Json::Null, &share("j5", "0")), Submission::Accepted(_, _)));
}

#[test]
fn authorization_keeps_old_jobs() {
    let mut state = mining();
    for id in ["j2", "j3", "j4"] {
        state.push_job(job_named(id));
    }
    state.handle_authorize(Json::Null, &params(&[MINER]), &None, Some(job_named("j5")));
    for id in ["j1", "j2", "j3", "j4", "j5"] {
        assert!(matches!(state.handle_submit(Json::Null, &share(id, "0")), Submission::Accepted(_, _)));
    }
    // A login drops them, having found more than enough.
    state.handle_login(
        Json::Null,
        &object(vec![("login", text(MINER))]),
        &None,
        Some(job_named("j6")),
    );
    assert!(matches!(state.handle_submit(Json::Null, &share("j5", "0")), Submission::Refused(_)));
    assert!(matches!(state.handle_submit(Json::Null, &share("j6", "0")), Submission::Accepted(_, _)));
}

#[test]
fn refused_shares_count_for_nothing() {
    let mut state = mining();
    for nonce in ["", "xyz", "0x", "10000000000000000"] {
        assert_eq!(
            state.handle_submit(Json::Uint(5), &share("j1", nonce)),
            Submission::Refused(error(5, 20, "bad nonce"))
        );
    }
    assert_eq!(
        state.handle_submit(Json::Uint(5), &Json::Null),
        Submission::Refused(error(5, 20, "bad nonce"))
    );
    // Not even a job that is not active makes a bad nonce a stale share.
    state.handle_submit(Json::Uint(5), &share("j2", "xyz"));
    assert_eq!((state.total_valid(), state.total_invalid()), (0, 0));
    state.handle_submit(Json::Uint(5), &share("j1", "0"));
    assert_eq!(state.take_share_report().unwrap().shares.shares_stale, 0);

    let mut stranger = MinerState::new(0, String::new());
    assert_eq!(
        stranger.handle_submit(Json::Uint(5), &share("j1", "0")),
        Submission::Refused(error(5, 24, "not authorized"))
    );
    assert_eq!(
        stranger.handle_submit(Json::Uint(5), &share("j1", "?")),
        Submission::Refused(error(5, 20, "bad nonce"))
    );
}

#[test]
fn shares_for_inactive_jobs_are_stale() {
    let mut state = mining();
    for _ in 0..2 {
        assert_eq!(
            state.handle_submit(Json::Uint(5), &share("j2", "0")),
            Submission::Refused(error(5, 21, "stale job"))
        );
    }
    assert_eq!((state.total_valid(), state.total_invalid(), state.difficulty()), (0, 0, 0));
    // Stale shares alone make no report, but none is lost.
    assert_eq!(state.take_share_report(), None);
    state.handle_submit(Json::Uint(5), &share("j1", "0"));
    let report = state.take_share_report().unwrap();
    assert_eq!(
        (report.shares.shares_valid, report.shares.shares_invalid, report.shares.shares_stale),
        (1, 0, 2)
    );
    state.handle_submit(Json::Uint(5), &share("j1", "0"));
    assert_eq!(state.take_share_report().unwrap().shares.shares_stale, 0);
}

#[test]
fn accepted_shares_are_concluded() {
    let mut state = MinerState::new(3, String::new());
    assert_eq!(conclude(&mut state, ok(1), 59, 100), (vec![ok(1)], false));
    assert_eq!(conclude(&mut state, ok(2), 60, 100), (vec![set_difficulty(100), ok(2)], true));
    assert_eq!(conclude(&mut state, ok(3), 60, 100), (vec![ok(3)], true));
    assert_eq!(state.difficulty(), 100);
}

#[test]
fn every_message_gets_its_answer_in_order() {
    let mut state = MinerState::new(0, "ab01ff00".to_string());
    let login = format!("{MINER}.rig1");
    let sent = vec![
        (Json::Uint(1), "mining.subscribe", Json::Null),
        (text("two"), "mining.authorize", params(&[&login])),
        (Json::Null, "mining.submit", share("j1", "0")),
        (Json::Uint(4), "mining.submit", share("gone", "0")),
        (Json::Uint(5), "no.such.method", Json::Null),
    ];
    let mut replies = Vec::new();
    for (id, method, params) in &sent {
        let msg = object(vec![
            ("id", id.copy()),
            ("method", text(method)),
            ("params", params.copy()),
        ]);
        let written = match react(&mut state, read_request(&msg), &None, Some(job_named("j1")), None) {
            Reaction::Send(messages) | Reaction::Begin(messages) => messages,
            Reaction::Judged(Submission::Refused(reply)) => vec![reply],
            Reaction::Judged(Submission::Accepted(reply, _)) => {
                conclude(&mut state, reply, 60, 7).0
            }
        };
        for message in written {
            match message.get("method") {
                Some(_) => assert_eq!(message.get("id"), Some(&Json::Null)),
                None => replies.push(message),
            }
        }
        let pushed = state.push_job(job_named("j1"));
        assert!(pushed.is_none() || pushed.unwrap().get("method").is_some());
    }
    assert_eq!(replies.len(), sent.len());
    for (reply, (id, _, _)) in replies.iter().zip(&sent) {
        assert_eq!(reply.get("id"), Some(id));
    }
}

#[test]
fn shares_that_miss_the_pool_target() {
    let mut state = mining();
    assert_eq!(state.suggest_difficulty(Json::Uint(3), Some(1)), vec![set_difficulty(1), ok(3)]);
    assert_eq!(
        state.handle_submit(Json::Uint(5), &share("j1", "0")),
        Submission::Refused(error(5, 23, "low difficulty share"))
    );
    assert_eq!((state.total_valid(), state.total_invalid()), (0, 1));
    // A mix hash that cannot be read is no better.
    state.suggest_difficulty(Json::Null, Some(1));
    assert_eq!(
        state.handle_submit(Json::Uint(5), &params(&["rig1", "j1", "0", HEADER, "00"])),
        Submission::Refused(error(5, 23, "low difficulty share"))
    );
    let report = state.take_share_report().unwrap();
    assert_eq!(
        (report.shares.shares_valid, report.shares.shares_invalid, report.shares.shares_stale),
        (0, 2, 0)
    );
}

#[test]
fn shares_that_complete_a_block() {
    let mut state = mining();
    let outcome = state.handle_submit(Json::Uint(8), &share("j1", "0x0000000000000002"));
    let job = job_named("j1");
    let prefix = job.build_header_prefix(job.header_hash(MINER).1);
    let mut raw_mix = [0u8; 32];
    raw_mix.copy_from_slice(&hex::decode(MIX).unwrap());
    raw_mix.reverse();
    let block = job.serialize_block(&prefix, 2, &raw_mix, MINER);
    assert_eq!(
        outcome,
        Submission::Accepted(
            ok(8),
            Some(FoundBlock {
                height: 801_212,
                block_hex: hex::encode(block),
                final_hash_hex: "66725c4391bb7ced4baf06bc646e12e0fabd1789622406239d81242c3286be8d"
                    .to_string(),
                address: MINER.to_string(),
                worker: "rig1".to_string(),
                miner_payout_sats: 247_500_000_000,
                dev_fee_sats: 2_500_000_000,
                community_sats: 100_000_000,
            })
        )
    );
    assert_eq!((state.total_valid(), state.total_invalid()), (1, 0));
}

#[test]
fn found_blocks_carry_the_header_that_was_mined() {
    let mut state = mining();
    match state.handle_submit(Json::Null, &share("j1", "0")) {
        Submission::Accepted(_, Some(found)) => {
            let block = hex::decode(&found.block_hex).unwrap();
            let mut hash = mewc_solo_pool::hash::sha256d(&block[..80]).to_vec();
            hash.reverse();
            assert_eq!(hex::encode(hash), HEADER);
            assert_eq!(&block[80..88], &[0u8; 8]);
            let mut mix = block[88..120].to_vec();
            mix.reverse();
            assert_eq!(hex::encode(mix), MIX);
            assert_eq!(block[120], 3);
        }
        other => panic!("no block: {other:?}"),
    }
}

#[test]
fn shares_below_the_network_target() {
    let mut state = mining();
    // The final hash of this nonce is above the target of the network.
    assert_eq!(
        state.handle_submit(Json::Uint(8), &share("j1", "1")),
        Submission::Accepted(ok(8), None)
    );
    assert_eq!((state.total_valid(), state.total_invalid()), (1, 0));
}

#[test]
fn repeated_header_hashes_are_compared() {
    let state = mining();
    let with_header = |header: &str| params(&["rig1", "j1", "0", header, MIX]);
    assert!(!state.repeats_other_header(&with_header(HEADER)));
    assert!(!state.repeats_other_header(&with_header(&format!("0x{HEADER}"))));
    assert!(!state.repeats_other_header(&with_header("")));
    assert!(state.repeats_other_header(&with_header("00")));
    assert!(!state.repeats_other_header(&params(&["rig1", "j2", "0", "00", MIX])));
}

#[test]
fn suggested_difficulties() {
    let mut state = MinerState::new(3, String::new());
    assert_eq!(state.suggest_difficulty(Json::Uint(1), None), vec![ok(1)]);
    assert_eq!(state.suggest_difficulty(Json::Uint(1), Some(0)), vec![ok(1)]);
    assert_eq!(state.difficulty(), 3);
    assert_eq!(
        state.suggest_difficulty(Json::Uint(1), Some(u64::MAX)),
        vec![set_difficulty(u64::MAX), ok(1)]
    );
    assert_eq!(state.difficulty(), u64::MAX);
}

#[test]
fn difficulty_changes_after_eight_shares() {
    let mut state = MinerState::new(3, String::new());
    for n in 1..8u32 {
        assert_eq!(state.vardiff(59, 100), (None, false));
        assert_eq!(state.shares_since_retarget(), n);
    }
    assert_eq!(state.vardiff(0, 100), (Some(100), true));
    assert_eq!((state.difficulty(), state.shares_since_retarget()), (100, 0));
}

#[test]
fn difficulty_changes_after_a_minute() {
    let mut state = MinerState::new(3, String::new());
    assert_eq!(state.vardiff(60, 3), (None, true));
    assert_eq!(state.vardiff(60, 0), (Some(1), true));
    assert_eq!(state.vardiff(600, u64::MAX), (Some(1_000_000), true));
    assert_eq!(state.vardiff(60, 1_000_000), (None, true));
    assert_eq!(state.vardiff(60, 999_999), (Some(999_999), true));
    assert_eq!(state.difficulty(), 999_999);
}

#[test]
fn shares_are_reported_once() {
    let mut state = mining();
    assert_eq!(state.take_share_report(), None);
    state.handle_submit(Json::Null, &share("j1", "0"));
    state.handle_submit(Json::Null, &share("j1", "1"));
    state.suggest_difficulty(Json::Null, Some(1));
    state.handle_submit(Json::Null, &share("j1", "1"));
    let report = state.take_share_report().unwrap();
    assert_eq!((report.address.as_str(), report.worker.as_str()), (MINER, "rig1"));
    assert_eq!(report.shares.shares_valid, 2);
    assert_eq!(report.shares.shares_invalid, 1);
    assert_eq!(report.shares.shares_stale, 0);
    assert_eq!(report.shares.difficulties, vec![0, 0]);
    assert_eq!(report.shares.peak_share_diff, ShareDifficulty::Finite(0));
    assert_eq!(state.take_share_report(), None);
    assert_eq!((state.total_valid(), state.total_invalid()), (2, 1));
    assert!(state.can_count());
}

#[test]
fn difficulties_of_hashes() {
    let hash = |text: &str| {
        let mut out = [0u8; 32];
        out.copy_from_slice(&hex::decode(text).unwrap());
        out
    };
    assert_eq!(
        share_difficulty(&hash("00000000001a87e36d7bc8401cbd1264f87692b383a136c92f88b0dcb34b03dd")),
        ShareDifficulty::Finite(2470)
    );
    assert_eq!(share_difficulty(&hash(TARGET_ONE)), ShareDifficulty::Finite(1));
    assert_eq!(share_difficulty(&hash(TARGET_ALL)), ShareDifficulty::Finite(0));
    let mut tiny = [0u8; 32];
    tiny[16] = 0xff;
    assert_eq!(share_difficulty(&tiny), ShareDifficulty::Unbounded);
    tiny[15] = 1;
    assert_eq!(
        share_difficulty(&tiny),
        ShareDifficulty::Finite(0xFFFF_0000_0000_0000_0000_0000)
    );
}

#[test]
fn peaks_only_rise() {
    let mut shares = mewc_solo_pool::shares::ShareAggregate::new();
    let mut hash = [0u8; 32];
    hash[4] = 0x7f;
    shares.add_valid(5, &hash);
    assert_eq!(shares.peak_share_diff, ShareDifficulty::Finite(2));
    shares.add_valid(6, &[0xffu8; 32]);
    assert_eq!(shares.peak_share_diff, ShareDifficulty::Finite(2));
    shares.add_valid(7, &[0u8; 32]);
    assert_eq!(shares.peak_share_diff, ShareDifficulty::Unbounded);
    shares.add_valid(8, &hash);
    assert_eq!(shares.peak_share_diff, ShareDifficulty::Unbounded);
    assert_eq!(shares.difficulties, vec![5, 6, 7, 8]);
    assert_eq!(shares.shares_valid, 4);
    assert!(!shares.is_empty());
}

#[test]
fn session_rows_are_remembered() {
    let mut state = MinerState::new(1, String::new());
    assert_eq!(state.db_session_id(), None);
    state.set_db_session_id(Some(-7));
    assert_eq!(state.db_session_id(), Some(-7));
}
