use mewc_solo_pool::clock::Moment;
use mewc_solo_pool::config::{listen_address, parse_config_arg, NodeConfig};
use mewc_solo_pool::db::{read_session_id, Db, DbRequest, Verb};
use mewc_solo_pool::json::Json;
use mewc_solo_pool::node::{read_answer, read_submission, NodeClient};

fn text(s: &str) -> Json {
    Json::Str(s.to_string())
}

fn object(pairs: Vec<(&str, Json)>) -> Json {
    Json::Object(pairs.into_iter().map(|(k, v)| (k.to_string(), v)).collect())
}

fn db() -> Db {
    Db::new("https://x.supabase.co/".to_string(), "key".to_string(), "rig-7".to_string())
}

fn headers(prefer: Option<&str>) -> Vec<(String, String)> {
    let mut list = vec![
        ("apikey".to_string(), "key".to_string()),
        ("Authorization".to_string(), "Bearer key".to_string()),
        ("Content-Type".to_string(), "application/json".to_string()),
    ];
    if let Some(p) = prefer {
        list.push(("Prefer".to_string(), p.to_string()));
    }
    list
}

fn at(secs: i64, nanos: u32) -> Moment {
    Moment { secs, nanos }
}

#[test]
fn stale_sessions_of_this_server_are_closed() {
    assert_eq!(
        db().close_stale_sessions(at(0, 0)),
        Some(DbRequest {
            verb: Verb::Patch,
            table: "meowpow_miner_sessions".to_string(),
            url: "https://x.supabase.co/rest/v1/meowpow_miner_sessions?disconnected_at=is.null&server_id=eq.rig-7".to_string(),
            headers: headers(None),
            body: object(vec![("disconnected_at", text("1970-01-01T00:00:00+00:00"))]),
            returns_rows: false,
        })
    );
    assert_eq!(db().close_stale_sessions(at(i64::MAX, 0)), None);
}

#[test]
fn sessions_are_logged() {
    assert_eq!(
        db().log_session_start("addr", "rig1", "10.0.0.1"),
        DbRequest {
            verb: Verb::Post,
            table: "meowpow_miner_sessions".to_string(),
            url: "https://x.supabase.co/rest/v1/meowpow_miner_sessions".to_string(),
            headers: headers(Some("return=representation")),
            body: object(vec![
                ("address", text("addr")),
                ("worker", text("rig1")),
                ("ip", text("10.0.0.1")),
                ("server_id", text("rig-7")),
            ]),
            returns_rows: true,
        }
    );
    let request = db().log_session_end(-5, at(1_710_799_584, 250_000_000)).unwrap();
    assert_eq!(
        request.url,
        "https://x.supabase.co/rest/v1/meowpow_miner_sessions?id=eq.-5"
    );
    assert_eq!(
        request.body,
        object(vec![("disconnected_at", text("2024-03-18T22:06:24.250+00:00"))])
    );
    assert_eq!(db().log_session_end(1, at(0, 2_000_000_000)), None);
}

#[test]
fn times_that_are_already_written() {
    let request = db().close_stale_sessions_at("now");
    assert_eq!(request.verb, Verb::Patch);
    assert_eq!(request.body, object(vec![("disconnected_at", text("now"))]));
    let request = db().log_session_end_at(12, "later");
    assert_eq!(
        request.url,
        "https://x.supabase.co/rest/v1/meowpow_miner_sessions?id=eq.12"
    );
    assert_eq!(request.body, object(vec![("disconnected_at", text("later"))]));
    let request = db().flush_share_window_between("a", "w", "t0", "t1", 1, 2, 3, 4, 5);
    assert_eq!(request.body.text_of_field("window_start"), Some("t0"));
    assert_eq!(request.body.text_of_field("window_end"), Some("t1"));
    assert_eq!(request.body.get("shares_stale"), Some(&Json::Uint(3)));
    assert_eq!(request.body.get("hashrate_mhs"), Some(&Json::Real(5)));
}

#[test]
fn session_ids_are_read() {
    let rows = Json::Array(vec![object(vec![("id", Json::Uint(17)), ("x", Json::Null)])]);
    assert_eq!(read_session_id(&rows), Some(17));
    assert_eq!(read_session_id(&Json::Array(vec![object(vec![("id", Json::Int(-3))])])), Some(-3));
    assert_eq!(read_session_id(&Json::Array(vec![object(vec![("id", Json::Uint(u64::MAX))])])), None);
    assert_eq!(read_session_id(&Json::Array(vec![object(vec![("id", text("17"))])])), None);
    assert_eq!(read_session_id(&Json::Array(vec![])), None);
    assert_eq!(read_session_id(&Json::Null), None);
}

#[test]
fn blocks_are_logged_with_their_gap() {
    let mut db = db();
    let (miner, fee, community) = (2475.0f64.to_bits(), 25.0f64.to_bits(), 1.0f64.to_bits());
    let row = |gap: Json| {
        object(vec![
            ("height", Json::Uint(801_212)),
            ("hash", text("00ff")),
            ("finder_address", text("addr")),
            ("worker", text("rig1")),
            ("miner_payout", Json::Real(miner)),
            ("dev_fee", Json::Real(fee)),
            ("community_payout", Json::Real(community)),
            ("tx_fees", Json::Uint(0)),
            ("gap_seconds", gap),
        ])
    };
    let mut log = |secs: i64, nanos: u32| {
        db.log_block(at(secs, nanos), 801_212, "00ff", "addr", "rig1", miner, fee, community)
    };
    let first = log(1000, 900_000_000);
    assert_eq!(first.verb, Verb::Post);
    assert_eq!(first.table, "meowpow_blocks");
    assert_eq!(first.url, "https://x.supabase.co/rest/v1/meowpow_blocks");
    assert_eq!(first.headers, headers(Some("return=minimal")));
    assert!(!first.returns_rows);
    assert_eq!(first.body, row(Json::Null));
    // Only whole seconds count, and a clock that went back counts as no time.
    assert_eq!(log(1060, 0).body, row(Json::Uint(59)));
    assert_eq!(log(1061, 0).body, row(Json::Uint(1)));
    assert_eq!(log(900, 0).body, row(Json::Uint(0)));
    assert_eq!(log(901, 1).body, row(Json::Uint(1)));
}

#[test]
fn share_windows_are_logged() {
    let (avg, rate) = (1.5f64.to_bits(), 42.25f64.to_bits());
    let request = db()
        .flush_share_window("addr", "rig1", at(1, 0), at(61, 1_000), 6, 2, 0, avg, rate)
        .unwrap();
    assert_eq!(request.url, "https://x.supabase.co/rest/v1/meowpow_share_windows");
    assert_eq!(request.headers, headers(Some("return=minimal")));
    assert_eq!(
        request.body,
        object(vec![
            ("address", text("addr")),
            ("worker", text("rig1")),
            ("window_start", text("1970-01-01T00:00:01+00:00")),
            ("window_end", text("1970-01-01T00:01:01.000001+00:00")),
            ("shares_valid", Json::Uint(6)),
            ("shares_invalid", Json::Uint(2)),
            ("shares_stale", Json::Uint(0)),
            ("difficulty_avg", Json::Real(avg)),
            ("hashrate_mhs", Json::Real(rate)),
        ])
    );
    assert_eq!(
        db().flush_share_window("a", "w", at(1, 0), at(i64::MAX, 0), 1, 0, 0, avg, rate),
        None
    );
}

#[test]
fn final_slashes_of_the_url_do_not_matter() {
    for url in ["https://x.supabase.co", "https://x.supabase.co/", "https://x.supabase.co///"] {
        let db = Db::new(url.to_string(), "key".to_string(), "rig-7".to_string());
        assert_eq!(
            db.log_session_start("a", "w", "ip").url,
            "https://x.supabase.co/rest/v1/meowpow_miner_sessions"
        );
    }
}

fn client() -> NodeClient {
    NodeClient::new(&NodeConfig {
        rpc_url: "http://127.0.0.1:8766".to_string(),
        rpc_user: "user".to_string(),
        rpc_pass: "pass".to_string(),
        zmq_url: "tcp://127.0.0.1:28332".to_string(),
    })
}

#[test]
fn the_node_is_called() {
    let node = client();
    assert_eq!(
        (node.url.as_str(), node.user.as_str(), node.pass.as_str()),
        ("http://127.0.0.1:8766", "user", "pass")
    );
    let call = |method: &str, params: Json| {
        object(vec![
            ("jsonrpc", text("1.0")),
            ("id", Json::Uint(1)),
            ("method", text(method)),
            ("params", params),
        ])
    };
    assert_eq!(
        node.get_block_template(),
        call(
            "getblocktemplate",
            Json::Array(vec![object(vec![(
                "rules",
                Json::Array(vec![text("segwit"), text("taproot")])
            )])])
        )
    );
    assert_eq!(
        node.submit_block("00ff"),
        call("submitblock", Json::Array(vec![text("00ff")]))
    );
}

#[test]
fn answers_of_the_node() {
    let ok = object(vec![("result", Json::Uint(5)), ("error", Json::Null)]);
    assert_eq!(read_answer(&ok), Ok(Json::Uint(5)));
    let bare = object(vec![("result", text("x"))]);
    assert_eq!(read_answer(&bare), Ok(text("x")));
    let error = object(vec![("result", Json::Uint(5)), ("error", object(vec![("code", Json::Int(-8))]))]);
    assert_eq!(read_answer(&error), Err(object(vec![("code", Json::Int(-8))])));
    assert_eq!(read_answer(&object(vec![("error", Json::Bool(false))])), Err(Json::Bool(false)));
    assert_eq!(read_answer(&Json::Null), Ok(Json::Null));
    assert_eq!(read_submission(Json::Null), Ok(()));
    assert_eq!(read_submission(text("high-hash")), Err(text("high-hash")));
}

#[test]
fn the_configuration_path() {
    let path = |args: &[&str]| {
        parse_config_arg(&args.iter().map(|a| a.to_string()).collect::<Vec<String>>())
    };
    assert_eq!(path(&["pool"]), None);
    assert_eq!(path(&[]), None);
    assert_eq!(path(&["pool", "--config", "a.toml"]), Some("a.toml".to_string()));
    assert_eq!(path(&["pool", "-c", "a.toml"]), Some("a.toml".to_string()));
    assert_eq!(path(&["pool", "--config=b.toml"]), Some("b.toml".to_string()));
    assert_eq!(path(&["pool", "--config="]), Some("".to_string()));
    assert_eq!(path(&["pool", "-v", "--config=b", "-c", "a"]), Some("b".to_string()));
    assert_eq!(path(&["pool", "--config", "-c", "a"]), Some("-c".to_string()));
    assert_eq!(path(&["pool", "--config"]), None);
    assert_eq!(path(&["--config", "a"]), None);
}

#[test]
fn the_listening_address() {
    assert_eq!(listen_address(3333), "0.0.0.0:3333");
    assert_eq!(listen_address(0), "0.0.0.0:0");
    assert_eq!(listen_address(65535), "0.0.0.0:65535");
}
