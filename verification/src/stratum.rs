//! Stratum messages: what miners ask, and what they are answered.

use crate::hexcode;
use crate::job::{Job, JobView};
use crate::json::{last_with, Json, JsonView};
use crate::text::same_text;
use vstd::prelude::*;

verus! {

/// What a miner asks for.
#[derive(Debug, Clone, Copy, PartialEq, Eq, Structural)]
pub enum Method {
    Subscribe,
    Authorize,
    Login,
    Submit,
    ExtranonceSubscribe,
    SuggestDifficulty,
    SubmitHashrate,
    Unknown,
}

/// The method of that name.
pub open spec fn method_named(name: Seq<char>) -> Method {
    if name == "mining.subscribe"@ {
        Method::Subscribe
    } else if name == "mining.authorize"@ {
        Method::Authorize
    } else if name == "login"@ {
        Method::Login
    } else if name == "mining.submit"@ {
        Method::Submit
    } else if name == "mining.extranonce.subscribe"@ {
        Method::ExtranonceSubscribe
    } else if name == "mining.suggest_difficulty"@ {
        Method::SuggestDifficulty
    } else if name == "eth_submitHashrate"@ {
        Method::SubmitHashrate
    } else {
        Method::Unknown
    }
}

fn find_method(name: &str) -> (method: Method)
    ensures
        method == method_named(name@),
{
    if same_text(name, "mining.subscribe") {
        Method::Subscribe
    } else if same_text(name, "mining.authorize") {
        Method::Authorize
    } else if same_text(name, "login") {
        Method::Login
    } else if same_text(name, "mining.submit") {
        Method::Submit
    } else if same_text(name, "mining.extranonce.subscribe") {
        Method::ExtranonceSubscribe
    } else if same_text(name, "mining.suggest_difficulty") {
        Method::SuggestDifficulty
    } else if same_text(name, "eth_submitHashrate") {
        Method::SubmitHashrate
    } else {
        Method::Unknown
    }
}

/// A message of a miner.
#[derive(Debug, PartialEq)]
pub struct Request {
    pub id: Json,
    pub method: Method,
    pub params: Json,
}

/// Reads a message of a miner. What it lacks is null, and a message without a method name has
/// the empty one.
pub fn read_request(msg: &Json) -> (request: Request)
    ensures
        request.id@ == msg@.field("id"@),
        request.method == method_named(
            msg@.field("method"@).text_or(Seq::empty()),
        ),
        request.params@ == msg@.field("params"@),
{
    proof {
        reveal_strlit("");
        assert(""@ =~= Seq::<char>::empty());
    }
    let id: Json = match msg.get("id") {
        Some(value) => value.copy(),
        None => Json::Null,
    };
    let name: &str = match msg.text_of_field("method") {
        Some(text) => text,
        None => "",
    };
    let params: Json = match msg.get("params") {
        Some(value) => value.copy(),
        None => Json::Null,
    };
    Request { id, method: find_method(name), params }
}

/// The answer to a request that was carried out.
pub open spec fn ok_reply(id: JsonView) -> JsonView {
    JsonView::Object(
        seq![("id"@, id), ("result"@, JsonView::Bool(true)), ("error"@, JsonView::Null)],
    )
}

/// The answer to a request that was refused, with an error code and the reason.
pub open spec fn error_reply(id: JsonView, code: u64, reason: Seq<char>) -> JsonView {
    JsonView::Object(
        seq![
            ("id"@, id),
            ("result"@, JsonView::Null),
            (
                "error"@,
                JsonView::Array(
                    seq![JsonView::Uint(code), JsonView::Str(reason), JsonView::Null],
                ),
            ),
        ],
    )
}

/// The answer to a subscription: what will be notified, the extranonce of the connection and
/// the size of the extranonce that is left to the miner.
pub open spec fn subscribe_reply(id: JsonView, extranonce1: Seq<char>) -> JsonView {
    JsonView::Object(
        seq![
            ("id"@, id),
            (
                "result"@,
                JsonView::Array(
                    seq![
                        JsonView::Array(
                            seq![
                                JsonView::Array(
                                    seq![
                                        JsonView::Str("mining.set_difficulty"@),
                                        JsonView::Str(""@),
                                    ],
                                ),
                                JsonView::Array(
                                    seq![JsonView::Str("mining.notify"@), JsonView::Str(""@)],
                                ),
                            ],
                        ),
                        JsonView::Str(extranonce1),
                        JsonView::Uint(4),
                    ],
                ),
            ),
            ("error"@, JsonView::Null),
        ],
    )
}

/// A call of the miner that expects no answer.
pub open spec fn notification(method: Seq<char>, params: Seq<JsonView>) -> JsonView {
    JsonView::Object(
        seq![
            ("id"@, JsonView::Null),
            ("method"@, JsonView::Str(method)),
            ("params"@, JsonView::Array(params)),
        ],
    )
}

/// Tells the miner its difficulty.
pub open spec fn difficulty_message(difficulty: u64) -> JsonView {
    notification("mining.set_difficulty"@, seq![JsonView::Uint(difficulty)])
}

/// Hands the miner a job.
pub open spec fn notify_message(
    job: JobView,
    header_hash_hex: Seq<char>,
    pool_target: Seq<u8>,
    clean: bool,
) -> JsonView {
    notification(
        "mining.notify"@,
        seq![
            JsonView::Str(job.id),
            JsonView::Str(header_hash_hex),
            JsonView::Str(job.seed_hash),
            JsonView::Str(hexcode::encoded(pool_target)),
            JsonView::Bool(clean),
            JsonView::Uint(job.height as u64),
        ],
    )
}

/// The job in the answer to a login.
pub open spec fn login_job(
    job: JobView,
    header_hash_hex: Seq<char>,
    pool_target: Seq<u8>,
) -> JsonView {
    JsonView::Object(
        seq![
            ("job_id"@, JsonView::Str(job.id)),
            ("seed_hash"@, JsonView::Str(job.seed_hash)),
            ("blob"@, JsonView::Str(header_hash_hex)),
            ("target"@, JsonView::Str(hexcode::encoded(pool_target))),
        ],
    )
}

/// The answer to a login; `job` is null where there is none yet.
pub open spec fn login_reply(id: JsonView, session_id: Seq<char>, job: JsonView) -> JsonView {
    JsonView::Object(
        seq![
            ("id"@, id),
            ("error"@, JsonView::Null),
            (
                "result"@,
                JsonView::Object(
                    seq![
                        ("id"@, JsonView::Str(session_id)),
                        ("status"@, JsonView::Str("OK"@)),
                        ("job"@, job),
                    ],
                ),
            ),
        ],
    )
}

/// Answers a request that was carried out.
pub fn accept(id: Json) -> (reply: Json)
    ensures
        reply@ == ok_reply(id@),
{
    let reply: Json = Json::object().and("id", id).and("result", Json::Bool(true)).and("error", Json::Null);
    assert(reply@->Object_0 =~= ok_reply(id@)->Object_0);
    reply
}

/// Answers a request that is refused.
pub fn refuse(id: Json, code: u64, reason: &str) -> (reply: Json)
    ensures
        reply@ == error_reply(id@, code, reason@),
{
    let error: Json = Json::array().then_item(Json::Uint(code)).then_item(
        Json::string(reason),
    ).then_item(Json::Null);
    assert(error@->Array_0 =~= seq![JsonView::Uint(code), JsonView::Str(reason@), JsonView::Null]);
    let reply: Json = Json::object().and("id", id).and("result", Json::Null).and("error", error);
    assert(reply@->Object_0 =~= error_reply(id@, code, reason@)->Object_0);
    reply
}

/// Answers a request whose method is not known.
pub fn refuse_unknown(id: Json) -> (reply: Json)
    ensures
        reply@ == error_reply(id@, 20, "Unknown method"@),
{
    refuse(id, 20, "Unknown method")
}

/// Answers a subscription.
pub fn handle_subscribe(id: Json, extranonce1: &str) -> (reply: Json)
    ensures
        reply@ == subscribe_reply(id@, extranonce1@),
{
    let difficulty: Json = Json::array().then_item(
        Json::string("mining.set_difficulty"),
    ).then_item(Json::string(""));
    let notify: Json = Json::array().then_item(Json::string("mining.notify")).then_item(
        Json::string(""),
    );
    assert(difficulty@->Array_0 =~= seq![
        JsonView::Str("mining.set_difficulty"@),
        JsonView::Str(""@),
    ]);
    assert(notify@->Array_0 =~= seq![JsonView::Str("mining.notify"@), JsonView::Str(""@)]);
    let calls: Json = Json::array().then_item(difficulty).then_item(notify);
    assert(calls@->Array_0 =~= seq![difficulty@, notify@]);
    let result: Json = Json::array().then_item(calls).then_item(
        Json::string(extranonce1),
    ).then_item(Json::Uint(4));
    assert(result@->Array_0 =~= seq![calls@, JsonView::Str(extranonce1@), JsonView::Uint(4)]);
    let reply: Json = Json::object().and("id", id).and("result", result).and("error", Json::Null);
    assert(reply@->Object_0 =~= subscribe_reply(id@, extranonce1@)->Object_0);
    reply
}

fn build_notification(method: &str, params: Json) -> (message: Json)
    requires
        params@ is Array,
    ensures
        message@ == notification(method@, params@->Array_0),
{
    let message: Json = Json::object().and("id", Json::Null).and("method", Json::string(method)).and("params", params);
    assert(message@->Object_0 =~= notification(method@, params@->Array_0)->Object_0);
    message
}

/// Tells the miner its difficulty.
pub fn build_set_difficulty(difficulty: u64) -> (message: Json)
    ensures
        message@ == difficulty_message(difficulty),
{
    let params: Json = Json::array().then_item(Json::Uint(difficulty));
    assert(params@->Array_0 =~= seq![JsonView::Uint(difficulty)]);
    build_notification("mining.set_difficulty", params)
}

/// Hands the miner a job.
pub fn build_notify(
    job: &Job,
    header_hash_hex: &str,
    pool_target: &[u8; 32],
    clean: bool,
) -> (message: Json)
    ensures
        message@ == notify_message(job@, header_hash_hex@, pool_target@, clean),
{
    let target: String = hexcode::encode(pool_target.as_slice());
    let params: Json = Json::array().then_item(Json::string(job.id.as_str())).then_item(
        Json::string(header_hash_hex),
    ).then_item(Json::string(job.seed_hash.as_str())).then_item(Json::Str(target)).then_item(
        Json::Bool(clean),
    ).then_item(Json::Uint(job.height as u64));
    assert(params@->Array_0 =~= seq![
        JsonView::Str(job@.id),
        JsonView::Str(header_hash_hex@),
        JsonView::Str(job@.seed_hash),
        JsonView::Str(hexcode::encoded(pool_target@)),
        JsonView::Bool(clean),
        JsonView::Uint(job@.height as u64),
    ]);
    build_notification("mining.notify", params)
}

/// The job in the answer to a login.
pub fn build_login_job(job: &Job, header_hash_hex: &str, pool_target: &[u8; 32]) -> (value: Json)
    ensures
        value@ == login_job(job@, header_hash_hex@, pool_target@),
{
    let target: String = hexcode::encode(pool_target.as_slice());
    let value: Json = Json::object().and("job_id", Json::string(job.id.as_str())).and(
        "seed_hash",
        Json::string(job.seed_hash.as_str()),
    ).and("blob", Json::string(header_hash_hex)).and("target", Json::Str(target));
    assert(value@->Object_0 =~= login_job(job@, header_hash_hex@, pool_target@)->Object_0);
    value
}

/// Answers a login.
pub fn build_login_reply(id: Json, session_id: &str, job: Json) -> (reply: Json)
    ensures
        reply@ == login_reply(id@, session_id@, job@),
{
    let result: Json = Json::object().and("id", Json::string(session_id)).and(
        "status",
        Json::string("OK"),
    ).and("job", job);
    assert(result@->Object_0 =~= seq![
        ("id"@, JsonView::Str(session_id@)),
        ("status"@, JsonView::Str("OK"@)),
        ("job"@, job@),
    ]);
    let reply: Json = Json::object().and("id", id).and("error", Json::Null).and("result", result);
    assert(reply@->Object_0 =~= login_reply(id@, session_id@, job@)->Object_0);
    reply
}

/// The members of an object of three pairs with distinct keys.
proof fn lemma_three(value: JsonView)
    requires
        value is Object,
        value->Object_0.len() == 3,
        value->Object_0[0].0 != value->Object_0[1].0,
        value->Object_0[0].0 != value->Object_0[2].0,
        value->Object_0[1].0 != value->Object_0[2].0,
    ensures
        value.member(value->Object_0[0].0) == Some(value->Object_0[0].1),
        value.member(value->Object_0[1].0) == Some(value->Object_0[1].1),
        value.member(value->Object_0[2].0) == Some(value->Object_0[2].1),
        forall|key: Seq<char>|
            key != value->Object_0[0].0 && key != value->Object_0[1].0 && key
                != value->Object_0[2].0 ==> #[trigger] value.member(key) is None,
{
    let pairs = value->Object_0;
    reveal_with_fuel(last_with, 4);
    assert(pairs.drop_last().last() == pairs[1]);
    assert(pairs.drop_last().drop_last().last() == pairs[0]);
}

proof fn lemma_keys_differ()
    ensures
        "id"@ != "result"@,
        "id"@ != "error"@,
        "id"@ != "method"@,
        "id"@ != "params"@,
        "result"@ != "error"@,
        "result"@ != "method"@,
        "error"@ != "method"@,
        "method"@ != "params"@,
{
    reveal_strlit("id");
    reveal_strlit("result");
    reveal_strlit("error");
    reveal_strlit("method");
    reveal_strlit("params");
    assert("id"@.len() == 2 && "result"@.len() == 6 && "error"@.len() == 5);
    assert("method"@.len() == 6 && "params"@.len() == 6);
    assert("result"@[0] == 'r' && "method"@[0] == 'm' && "params"@[0] == 'p');
}

/// Whether `message` answers the request with the id: it carries the id, a result and an error,
/// and calls no method.
pub open spec fn answers(message: JsonView, id: JsonView) -> bool {
    &&& message.member("id"@) == Some(id)
    &&& message.member("result"@) is Some
    &&& message.member("error"@) is Some
    &&& message.member("method"@) is None
}

/// Whether `message` calls a method of the miner and expects no answer.
pub open spec fn notifies(message: JsonView) -> bool {
    message.member("method"@) is Some && message.member("id"@) == Some(JsonView::Null)
}

/// Every answer carries the id of the request it answers, whatever that id is.
pub proof fn answers_echo_the_id(
    id: JsonView,
    code: u64,
    reason: Seq<char>,
    extranonce1: Seq<char>,
    session_id: Seq<char>,
    job: JsonView,
)
    ensures
        answers(ok_reply(id), id),
        answers(error_reply(id, code, reason), id),
        answers(subscribe_reply(id, extranonce1), id),
        answers(login_reply(id, session_id, job), id),
{
    lemma_keys_differ();
    lemma_three(ok_reply(id));
    lemma_three(error_reply(id, code, reason));
    lemma_three(subscribe_reply(id, extranonce1));
    lemma_three(login_reply(id, session_id, job));
}

/// The message that tells a miner its difficulty expects no answer.
pub proof fn difficulty_message_notifies(difficulty: u64)
    ensures
        notifies(difficulty_message(difficulty)),
{
    lemma_keys_differ();
    lemma_three(difficulty_message(difficulty));
}

/// The message that hands a job to a miner expects no answer.
pub proof fn notify_message_notifies(
    job: JobView,
    header_hash_hex: Seq<char>,
    pool_target: Seq<u8>,
    clean: bool,
)
    ensures
        notifies(notify_message(job, header_hash_hex, pool_target, clean)),
{
    lemma_keys_differ();
    lemma_three(notify_message(job, header_hash_hex, pool_target, clean));
}

/// An answer reports an error exactly where the request was refused, and then carries no
/// result.
pub proof fn only_refusals_carry_an_error(
    id: JsonView,
    code: u64,
    reason: Seq<char>,
    extranonce1: Seq<char>,
    session_id: Seq<char>,
    job: JsonView,
)
    ensures
        ok_reply(id).field("error"@) == JsonView::Null,
        subscribe_reply(id, extranonce1).field("error"@) == JsonView::Null,
        login_reply(id, session_id, job).field("error"@) == JsonView::Null,
        error_reply(id, code, reason).field("error"@).item(0) == JsonView::Uint(code),
        error_reply(id, code, reason).field("error"@).item(1) == JsonView::Str(reason),
        error_reply(id, code, reason).field("result"@) == JsonView::Null,
{
    lemma_keys_differ();
    lemma_three(ok_reply(id));
    lemma_three(error_reply(id, code, reason));
    lemma_three(subscribe_reply(id, extranonce1));
    lemma_three(login_reply(id, session_id, job));
}

proof fn lemma_message_keys_differ()
    ensures
        "id"@ != "status"@,
        "id"@ != "job"@,
        "status"@ != "job"@,
        "job_id"@ != "seed_hash"@,
        "job_id"@ != "blob"@,
        "job_id"@ != "target"@,
        "seed_hash"@ != "blob"@,
        "seed_hash"@ != "target"@,
        "blob"@ != "target"@,
{
    reveal_strlit("id");
    reveal_strlit("status");
    reveal_strlit("job");
    reveal_strlit("job_id");
    reveal_strlit("seed_hash");
    reveal_strlit("blob");
    reveal_strlit("target");
    assert("id"@.len() == 2 && "status"@.len() == 6 && "job"@.len() == 3);
    assert("job_id"@.len() == 6 && "seed_hash"@.len() == 9 && "blob"@.len() == 4);
    assert("target"@.len() == 6 && "target"@[0] == 't' && "job_id"@[0] == 'j');
}

/// An acknowledgement says that the request was carried out. A refusal gives its code and its
/// reason, and nothing beside them.
pub proof fn acknowledgements_and_refusals_say_so(id: JsonView, code: u64, reason: Seq<char>)
    ensures
        ok_reply(id).field("result"@) == JsonView::Bool(true),
        ok_reply(id).member("error"@) == Some(JsonView::Null),
        error_reply(id, code, reason).member("result"@) == Some(JsonView::Null),
        error_reply(id, code, reason).field("error"@) == JsonView::Array(
            seq![JsonView::Uint(code), JsonView::Str(reason), JsonView::Null],
        ),
{
    lemma_keys_differ();
    lemma_three(ok_reply(id));
    lemma_three(error_reply(id, code, reason));
}

/// A subscription is answered with the two methods that will be called, the extranonce of the
/// connection, and the four bytes that are left to the miner.
pub proof fn subscriptions_name_the_extranonce(id: JsonView, extranonce1: Seq<char>)
    ensures
        ({
            let result = subscribe_reply(id, extranonce1).field("result"@);
            &&& result is Array && result->Array_0.len() == 3
            &&& result.item(0).item(0).item(0) == JsonView::Str("mining.set_difficulty"@)
            &&& result.item(0).item(1).item(0) == JsonView::Str("mining.notify"@)
            &&& result.item(1) == JsonView::Str(extranonce1)
            &&& result.item(2) == JsonView::Uint(4)
        }),
{
    lemma_keys_differ();
    lemma_three(subscribe_reply(id, extranonce1));
}

/// A job is handed out with its id, the header hash, the seed hash, the target in hexadecimal,
/// whether older work is to be dropped, and its height; a difficulty as the one number it is.
pub proof fn notifications_carry_job_and_difficulty(
    job: JobView,
    header_hash_hex: Seq<char>,
    pool_target: Seq<u8>,
    clean: bool,
    difficulty: u64,
)
    ensures
        ({
            let message = notify_message(job, header_hash_hex, pool_target, clean);
            let params = message.field("params"@);
            &&& message.field("method"@) == JsonView::Str("mining.notify"@)
            &&& params is Array && params->Array_0.len() == 6
            &&& params.item(0) == JsonView::Str(job.id)
            &&& params.item(1) == JsonView::Str(header_hash_hex)
            &&& params.item(2) == JsonView::Str(job.seed_hash)
            &&& params.item(3) == JsonView::Str(hexcode::encoded(pool_target))
            &&& params.item(4) == JsonView::Bool(clean)
            &&& params.item(5) == JsonView::Uint(job.height as u64)
        }),
        ({
            let message = difficulty_message(difficulty);
            let params = message.field("params"@);
            &&& message.field("method"@) == JsonView::Str("mining.set_difficulty"@)
            &&& params is Array && params->Array_0.len() == 1
            &&& params.item(0) == JsonView::Uint(difficulty)
        }),
{
    lemma_keys_differ();
    lemma_three(notify_message(job, header_hash_hex, pool_target, clean));
    lemma_three(difficulty_message(difficulty));
}

/// A login is answered with the id of the session, the word `OK` and the job: its id, the seed
/// hash, the header hash and the target in hexadecimal.
pub proof fn logins_are_answered_with_session_and_job(
    id: JsonView,
    session_id: Seq<char>,
    job: JobView,
    header_hash_hex: Seq<char>,
    pool_target: Seq<u8>,
)
    ensures
        ({
            let handed = login_job(job, header_hash_hex, pool_target);
            let result = login_reply(id, session_id, handed).field("result"@);
            &&& result.field("id"@) == JsonView::Str(session_id)
            &&& result.field("status"@) == JsonView::Str("OK"@)
            &&& result.field("job"@) == handed
            &&& handed.field("job_id"@) == JsonView::Str(job.id)
            &&& handed.field("seed_hash"@) == JsonView::Str(job.seed_hash)
            &&& handed.field("blob"@) == JsonView::Str(header_hash_hex)
            &&& handed.field("target"@) == JsonView::Str(hexcode::encoded(pool_target))
        }),
        login_reply(id, session_id, JsonView::Null).field("result"@).member("job"@) == Some(
            JsonView::Null,
        ),
{
    lemma_keys_differ();
    lemma_message_keys_differ();
    let handed = login_job(job, header_hash_hex, pool_target);
    let reply = login_reply(id, session_id, handed);
    let bare = login_reply(id, session_id, JsonView::Null);
    lemma_three(reply);
    lemma_three(bare);
    lemma_three(reply.field("result"@));
    lemma_three(bare.field("result"@));
    let pairs = handed->Object_0;
    reveal_with_fuel(last_with, 5);
    assert(pairs.drop_last().last() == pairs[2]);
    assert(pairs.drop_last().drop_last().last() == pairs[1]);
    assert(pairs.drop_last().drop_last().drop_last().last() == pairs[0]);
}

/// Each method is known by its own name, and a name that is none of these is not known.
pub proof fn methods_are_known_by_name(name: Seq<char>)
    ensures
        method_named("mining.subscribe"@) == Method::Subscribe,
        method_named("mining.authorize"@) == Method::Authorize,
        method_named("login"@) == Method::Login,
        method_named("mining.submit"@) == Method::Submit,
        method_named("mining.extranonce.subscribe"@) == Method::ExtranonceSubscribe,
        method_named("mining.suggest_difficulty"@) == Method::SuggestDifficulty,
        method_named("eth_submitHashrate"@) == Method::SubmitHashrate,
        method_named(name) == Method::Subscribe ==> name == "mining.subscribe"@,
        method_named(name) == Method::Authorize ==> name == "mining.authorize"@,
        method_named(name) == Method::Login ==> name == "login"@,
        method_named(name) == Method::Submit ==> name == "mining.submit"@,
        method_named(name) == Method::ExtranonceSubscribe ==> name == "mining.extranonce.subscribe"@,
        method_named(name) == Method::SuggestDifficulty ==> name == "mining.suggest_difficulty"@,
        method_named(name) == Method::SubmitHashrate ==> name == "eth_submitHashrate"@,
{
    reveal_strlit("mining.subscribe");
    reveal_strlit("mining.authorize");
    reveal_strlit("login");
    reveal_strlit("mining.submit");
    reveal_strlit("mining.extranonce.subscribe");
    reveal_strlit("mining.suggest_difficulty");
    reveal_strlit("eth_submitHashrate");
    assert("mining.subscribe"@.len() == 16 && "mining.subscribe"@[7] == 's');
    assert("mining.authorize"@.len() == 16 && "mining.authorize"@[7] == 'a');
    assert("login"@.len() == 5 && "mining.submit"@.len() == 13);
    assert("mining.extranonce.subscribe"@.len() == 27);
    assert("mining.suggest_difficulty"@.len() == 25);
    assert("eth_submitHashrate"@.len() == 18);
}

} // verus!
