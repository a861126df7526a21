//! What the pool does with a message of a miner.

use crate::hexcode;
use crate::ids::{fresh_id, is_fresh_id};
use crate::job::{Job, JobView};
use crate::json::{Json, JsonView};
use crate::node::text_of;
use crate::session::{
    job_message, job_of, messages_of, paid_address, pool_target, FoundBlock, MinerState, MinerView,
    Submission, SubmissionView, RETARGET_SECONDS, RETARGET_SHARES,
};
use crate::stratum::{
    accept, answers, answers_echo_the_id, build_set_difficulty, difficulty_message,
    difficulty_message_notifies, error_reply, handle_subscribe, login_job, method_named, notifies,
    notify_message_notifies, ok_reply, refuse_unknown, subscribe_reply, Method, Request,
};
use vstd::prelude::*;

verus! {

/// What is to be done for a message.
#[derive(Debug, PartialEq)]
pub enum Reaction {
    /// Messages are to be sent, in their order.
    Send(Vec<Json>),
    /// A session has begun and is to be logged; messages are to be sent, in their order.
    Begin(Vec<Json>),
    /// A share has been judged.
    Judged(Submission),
}

/// What is to be done for a message, as a mathematical value.
pub enum ReactionView {
    Send(Seq<JsonView>),
    Begin(Seq<JsonView>),
    Judged(SubmissionView),
}

impl View for Reaction {
    type V = ReactionView;

    open spec fn view(&self) -> ReactionView {
        match self {
            Reaction::Send(messages) => ReactionView::Send(messages_of(messages@)),
            Reaction::Begin(messages) => ReactionView::Begin(messages_of(messages@)),
            Reaction::Judged(submission) => ReactionView::Judged(submission@),
        }
    }
}

/// What the pool does with a request: the new session, and what is to be done. `suggested` is the
/// difficulty that the request suggests, where it suggests one, and `session_id` names the
/// session that a login begins.
pub open spec fn reaction_to(
    state: MinerView,
    id: JsonView,
    method: Method,
    params: JsonView,
    fallback: Option<Seq<char>>,
    job: Option<JobView>,
    suggested: Option<u64>,
    session_id: Seq<char>,
) -> (MinerView, ReactionView) {
    match method {
        Method::Subscribe => (
            state,
            ReactionView::Send(seq![subscribe_reply(id, state.extranonce1)]),
        ),
        Method::Authorize => {
            let (after, messages) = state.authorize(id, params, fallback, job);
            if paid_address(params.item(0).text_or(Seq::empty()), fallback) is Some {
                (after, ReactionView::Begin(messages))
            } else {
                (after, ReactionView::Send(messages))
            }
        },
        Method::Login => {
            let (after, reply) = state.login(id, params, fallback, job, session_id);
            if paid_address(params.field("login"@).text_or(Seq::empty()), fallback) is Some {
                (after, ReactionView::Begin(seq![reply]))
            } else {
                (after, ReactionView::Send(seq![reply]))
            }
        },
        Method::Submit => {
            let (after, submission) = state.submit(id, params);
            (after, ReactionView::Judged(submission))
        },
        Method::SuggestDifficulty => {
            let (after, messages) = state.suggest(id, suggested);
            (after, ReactionView::Send(messages))
        },
        Method::ExtranonceSubscribe => (state, ReactionView::Send(seq![ok_reply(id)])),
        Method::SubmitHashrate => (state, ReactionView::Send(seq![ok_reply(id)])),
        Method::Unknown => (
            state,
            ReactionView::Send(seq![error_reply(id, 20, "Unknown method"@)]),
        ),
    }
}

/// Whether the current job is needed to answer the method.
pub fn needs_job(method: Method) -> (needed: bool)
    ensures
        needed == (method == Method::Authorize || method == Method::Login),
{
    match method {
        Method::Authorize => true,
        Method::Login => true,
        _ => false,
    }
}

fn only(message: Json) -> (messages: Vec<Json>)
    ensures
        messages_of(messages@) == seq![message@],
{
    let mut messages: Vec<Json> = Vec::new();
    messages.push(message);
    assert(messages_of(messages@) =~= seq![message@]);
    messages
}

/// Reacts to a request; a login begins the session `session_id`.
pub fn react_as(
    state: &mut MinerState,
    request: Request,
    fallback: &Option<String>,
    job: Option<Job>,
    suggested: Option<u64>,
    session_id: &str,
) -> (reaction: Reaction)
    requires
        old(state).wf(),
        request.method == Method::Submit ==> old(state)@.can_count(),
        job matches Some(j) ==> j@.minable(),
    ensures
        final(state).wf(),
        (final(state)@, reaction@) == reaction_to(
            old(state)@,
            request.id@,
            request.method,
            request.params@,
            text_of(*fallback),
            job_of(job),
            suggested,
            session_id@,
        ),
{
    let id: Json = request.id;
    let params: Json = request.params;
    match request.method {
        Method::Subscribe => Reaction::Send(
            only(handle_subscribe(id, state.extranonce1().as_str())),
        ),
        Method::Authorize => {
            let (messages, started) = state.handle_authorize(id, &params, fallback, job);
            if started {
                Reaction::Begin(messages)
            } else {
                Reaction::Send(messages)
            }
        },
        Method::Login => {
            let (reply, started) = state.handle_login_as(id, &params, fallback, job, session_id);
            if started {
                Reaction::Begin(only(reply))
            } else {
                Reaction::Send(only(reply))
            }
        },
        Method::Submit => Reaction::Judged(state.handle_submit(id, &params)),
        Method::SuggestDifficulty => Reaction::Send(state.suggest_difficulty(id, suggested)),
        Method::ExtranonceSubscribe => Reaction::Send(only(accept(id))),
        Method::SubmitHashrate => Reaction::Send(only(accept(id))),
        Method::Unknown => Reaction::Send(only(refuse_unknown(id))),
    }
}

/// Reacts to a request; a login begins a session with a new random identifier.
pub fn react(
    state: &mut MinerState,
    request: Request,
    fallback: &Option<String>,
    job: Option<Job>,
    suggested: Option<u64>,
) -> (reaction: Reaction)
    requires
        old(state).wf(),
        request.method == Method::Submit ==> old(state)@.can_count(),
        job matches Some(j) ==> j@.minable(),
    ensures
        final(state).wf(),
        exists|session_id: Seq<char>| #[trigger]
            is_fresh_id(session_id, 8) && session_id.len() == 16 && (final(state)@, reaction@)
                == reaction_to(
                old(state)@,
                request.id@,
                request.method,
                request.params@,
                text_of(*fallback),
                job_of(job),
                suggested,
                session_id,
            ),
{
    let session_id: String = fresh_id(8);
    react_as(state, request, fallback, job, suggested, session_id.as_str())
}

/// What follows an accepted share, once a block that it completes has been handed in: it counts
/// towards the next change of difficulty, a new difficulty is told, and then the share is
/// answered.
pub open spec fn conclusion_of(
    state: MinerView,
    reply: JsonView,
    elapsed_secs: u64,
    raw: u64,
) -> (MinerView, Seq<JsonView>) {
    let after = state.retarget(elapsed_secs, raw);
    (
        after,
        if after.difficulty != state.difficulty {
            seq![difficulty_message(after.difficulty), reply]
        } else {
            seq![reply]
        },
    )
}

/// Concludes an accepted share. The result holds the messages to send, in their order, and
/// whether a change of difficulty was due.
pub fn conclude(state: &mut MinerState, reply: Json, elapsed_secs: u64, raw: u64) -> (result: (
    Vec<Json>,
    bool,
))
    requires
        old(state).wf(),
    ensures
        final(state).wf(),
        (final(state)@, messages_of(result.0@)) == conclusion_of(
            old(state)@,
            reply@,
            elapsed_secs,
            raw,
        ),
        result.1 == (old(state)@.shares_since_retarget + 1 >= RETARGET_SHARES || elapsed_secs
            >= RETARGET_SECONDS),
{
    let ghost before = state@;
    let (new_diff, due) = state.vardiff(elapsed_secs, raw);
    let mut messages: Vec<Json> = Vec::new();
    if let Some(difficulty) = new_diff {
        messages.push(build_set_difficulty(difficulty));
    }
    messages.push(reply);
    assert(messages_of(messages@) =~= conclusion_of(before, reply@, elapsed_secs, raw).1);
    (messages, due)
}

/// Whether one of the messages answers the request with the id, and all others are
/// notifications.
pub open spec fn answered_once(messages: Seq<JsonView>, id: JsonView) -> bool {
    exists|k: int|
        0 <= k < messages.len() && answers(#[trigger] messages[k], id) && forall|j: int|
            0 <= j < messages.len() && j != k ==> notifies(#[trigger] messages[j])
}

/// Every request gets exactly one answer, and the answer carries the id of the request. Whatever
/// else is sent for it expects no answer.
pub proof fn every_request_is_answered_once(
    state: MinerView,
    id: JsonView,
    method: Method,
    params: JsonView,
    fallback: Option<Seq<char>>,
    job: Option<JobView>,
    suggested: Option<u64>,
    session_id: Seq<char>,
)
    ensures
        match reaction_to(state, id, method, params, fallback, job, suggested, session_id).1 {
            ReactionView::Send(messages) => answered_once(messages, id),
            ReactionView::Begin(messages) => answered_once(messages, id),
            ReactionView::Judged(SubmissionView::Refused(reply)) => answers(reply, id),
            ReactionView::Judged(SubmissionView::Accepted(reply, _)) => answers(reply, id),
        },
{
    let reaction = reaction_to(state, id, method, params, fallback, job, suggested, session_id).1;
    answers_echo_the_id(id, 20, "Unknown method"@, state.extranonce1, session_id, JsonView::Null);
    answers_echo_the_id(id, 20, "bad nonce"@, state.extranonce1, session_id, JsonView::Null);
    answers_echo_the_id(id, 21, "stale job"@, state.extranonce1, session_id, JsonView::Null);
    answers_echo_the_id(
        id,
        23,
        "low difficulty share"@,
        state.extranonce1,
        session_id,
        JsonView::Null,
    );
    answers_echo_the_id(id, 24, "not authorized"@, state.extranonce1, session_id, JsonView::Null);
    answers_echo_the_id(id, 24, "invalid address"@, state.extranonce1, session_id, JsonView::Null);
    if let ReactionView::Send(messages) = reaction {
        if method == Method::SuggestDifficulty && messages.len() == 2 {
            difficulty_message_notifies(suggested->0);
            assert(answers(messages[1], id));
        } else {
            assert(answers(messages[0], id));
        }
    }
    if let ReactionView::Begin(messages) = reaction {
        if method == Method::Authorize {
            let address = paid_address(params.item(0).text_or(Seq::empty()), fallback)->0;
            difficulty_message_notifies(state.difficulty);
            if let Some(j) = job {
                notify_message_notifies(
                    j,
                    hexcode::encoded(j.header_hash(address)),
                    pool_target(state.difficulty),
                    true,
                );
            }
            assert(answers(messages[0], id));
        } else {
            let address = paid_address(params.field("login"@).text_or(Seq::empty()), fallback)->0;
            if let Some(j) = job {
                let handed = login_job(
                    j,
                    hexcode::encoded(j.header_hash(address)),
                    pool_target(state.difficulty),
                );
                answers_echo_the_id(id, 24, ""@, state.extranonce1, session_id, handed);
            }
            assert(answers(messages[0], id));
        }
    }
}

/// A miner that authorizes is acknowledged before it is told anything else; then come its
/// difficulty and, where there is one, the current job for its own address.
pub proof fn acknowledgement_comes_first(
    state: MinerView,
    id: JsonView,
    params: JsonView,
    fallback: Option<Seq<char>>,
    job: Option<JobView>,
    suggested: Option<u64>,
    session_id: Seq<char>,
)
    requires
        paid_address(params.item(0).text_or(Seq::empty()), fallback) is Some,
    ensures
        ({
            let (after, reaction) = reaction_to(
                state,
                id,
                Method::Authorize,
                params,
                fallback,
                job,
                suggested,
                session_id,
            );
            &&& reaction is Begin
            &&& reaction->Begin_0[0] == ok_reply(id)
            &&& reaction->Begin_0[1] == difficulty_message(after.difficulty)
            &&& job matches Some(j) ==> reaction->Begin_0[2] == job_message(
                j,
                after.address->0,
                after.difficulty,
            )
        }),
{
}

/// What can happen while a miner is connected.
pub enum Event {
    /// The miner sends a message. The rest is what the pool has at hand to answer it.
    Message {
        msg: JsonView,
        fallback: Option<Seq<char>>,
        job: Option<JobView>,
        suggested: Option<u64>,
        session_id: Seq<char>,
        elapsed_secs: u64,
        raw: u64,
    },
    /// The node has a new job.
    NewJob(JobView),
    /// The shares are reported.
    Report,
}

/// What is written to the miner for an event, in its order, and the session after it.
pub open spec fn written_for(state: MinerView, event: Event) -> (MinerView, Seq<JsonView>) {
    match event {
        Event::Message { msg, fallback, job, suggested, session_id, elapsed_secs, raw } => {
            let (after, reaction) = reaction_to(
                state,
                msg.field("id"@),
                method_named(msg.field("method"@).text_or(Seq::empty())),
                msg.field("params"@),
                fallback,
                job,
                suggested,
                session_id,
            );
            match reaction {
                ReactionView::Send(messages) => (after, messages),
                ReactionView::Begin(messages) => (after, messages),
                ReactionView::Judged(SubmissionView::Refused(reply)) => (after, seq![reply]),
                ReactionView::Judged(SubmissionView::Accepted(reply, _)) => conclusion_of(
                    after,
                    reply,
                    elapsed_secs,
                    raw,
                ),
            }
        },
        Event::NewJob(job) => match state.push_job(job) {
            (after, Some(message)) => (after, seq![message]),
            (after, None) => (after, Seq::empty()),
        },
        Event::Report => (state.report().0, Seq::empty()),
    }
}

/// All that is written to the miner for a run of events, and the session after it.
pub open spec fn conversation(state: MinerView, events: Seq<Event>) -> (MinerView, Seq<JsonView>)
    decreases events.len(),
{
    if events.len() == 0 {
        (state, Seq::empty())
    } else {
        let (before, written) = conversation(state, events.drop_last());
        let (after, more) = written_for(before, events.last());
        (after, written + more)
    }
}

/// The ids of the messages that the miner sends in a run of events; null for one without an id.
pub open spec fn ids_asked(events: Seq<Event>) -> Seq<JsonView>
    decreases events.len(),
{
    if events.len() == 0 {
        Seq::empty()
    } else {
        match events.last() {
            Event::Message { msg, .. } => ids_asked(events.drop_last()).push(msg.field("id"@)),
            _ => ids_asked(events.drop_last()),
        }
    }
}

/// Those of the messages that call no method: the answers.
pub open spec fn replies_in(messages: Seq<JsonView>) -> Seq<JsonView>
    decreases messages.len(),
{
    if messages.len() == 0 {
        Seq::empty()
    } else if messages.last().member("method"@) is None {
        replies_in(messages.drop_last()).push(messages.last())
    } else {
        replies_in(messages.drop_last())
    }
}

proof fn lemma_replies_concat(a: Seq<JsonView>, b: Seq<JsonView>)
    ensures
        replies_in(a + b) == replies_in(a) + replies_in(b),
    decreases b.len(),
{
    if b.len() == 0 {
        assert(a + b =~= a);
        assert(replies_in(a) + replies_in(b) =~= replies_in(a));
    } else {
        lemma_replies_concat(a, b.drop_last());
        assert((a + b).drop_last() =~= a + b.drop_last());
        assert((a + b).last() == b.last());
        assert(replies_in(a + b) =~= replies_in(a) + replies_in(b));
    }
}

proof fn lemma_no_replies(messages: Seq<JsonView>)
    requires
        forall|j: int| 0 <= j < messages.len() ==> notifies(#[trigger] messages[j]),
    ensures
        replies_in(messages) == Seq::<JsonView>::empty(),
    decreases messages.len(),
{
    if messages.len() > 0 {
        let front = messages.drop_last();
        assert forall|j: int| 0 <= j < front.len() implies notifies(#[trigger] front[j]) by {
            assert(front[j] == messages[j]);
        }
        lemma_no_replies(front);
        assert(notifies(messages[messages.len() - 1]));
    }
}

proof fn lemma_one_reply(messages: Seq<JsonView>, id: JsonView)
    requires
        answered_once(messages, id),
    ensures
        replies_in(messages).len() == 1,
        answers(replies_in(messages)[0], id),
        forall|j: int|
            0 <= j < messages.len() ==> notifies(#[trigger] messages[j]) || answers(
                messages[j],
                id,
            ),
{
    let k = choose|k: int|
        0 <= k < messages.len() && answers(#[trigger] messages[k], id) && forall|j: int|
            0 <= j < messages.len() && j != k ==> notifies(#[trigger] messages[j]);
    let head = messages.take(k);
    let tail = messages.skip(k + 1);
    let one = seq![messages[k]];
    assert(messages =~= head + one + tail);
    assert forall|j: int| 0 <= j < head.len() implies notifies(#[trigger] head[j]) by {
        assert(head[j] == messages[j]);
    }
    assert forall|j: int| 0 <= j < tail.len() implies notifies(#[trigger] tail[j]) by {
        assert(tail[j] == messages[k + 1 + j]);
    }
    lemma_no_replies(head);
    lemma_no_replies(tail);
    lemma_replies_concat(head + one, tail);
    lemma_replies_concat(head, one);
    assert(replies_in(one) == one) by {
        reveal_with_fuel(replies_in, 2);
        assert(one.drop_last() =~= Seq::<JsonView>::empty());
        assert(replies_in(one) =~= one);
    }
    assert(replies_in(messages) =~= one);
}

/// What one event makes the pool write: one answer to a message, and notifications.
proof fn lemma_written_for(state: MinerView, event: Event)
    ensures
        ({
            let messages = written_for(state, event).1;
            match event {
                Event::Message { msg, .. } => answered_once(messages, msg.field("id"@)),
                _ => forall|j: int| 0 <= j < messages.len() ==> notifies(#[trigger] messages[j]),
            }
        }),
{
    let messages = written_for(state, event).1;
    match event {
        Event::Message { msg, fallback, job, suggested, session_id, elapsed_secs, raw } => {
            let id = msg.field("id"@);
            let method = method_named(msg.field("method"@).text_or(Seq::empty()));
            let params = msg.field("params"@);
            every_request_is_answered_once(
                state,
                id,
                method,
                params,
                fallback,
                job,
                suggested,
                session_id,
            );
            let (after, reaction) = reaction_to(
                state,
                id,
                method,
                params,
                fallback,
                job,
                suggested,
                session_id,
            );
            if let ReactionView::Judged(submission) = reaction {
                difficulty_message_notifies(after.retarget(elapsed_secs, raw).difficulty);
                if messages.len() == 2 {
                    assert(answers(messages[1], id));
                } else {
                    assert(answers(messages[0], id));
                }
            }
        },
        Event::NewJob(job) => {
            if let Some(address) = state.address {
                notify_message_notifies(
                    job,
                    hexcode::encoded(job.header_hash(address)),
                    pool_target(state.difficulty),
                    true,
                );
            }
        },
        Event::Report => {},
    }
}

/// Whatever happens while a miner is connected, exactly as many answers are written to it as it
/// has sent messages. They come in the order of the messages, each with the id of its message.
/// All else that is written are notifications, and nothing is written but objects.
pub proof fn answers_match_messages(state: MinerView, events: Seq<Event>)
    ensures
        ({
            let written = conversation(state, events).1;
            let replies = replies_in(written);
            let ids = ids_asked(events);
            &&& replies.len() == ids.len()
            &&& forall|i: int| 0 <= i < ids.len() ==> answers(#[trigger] replies[i], ids[i])
            &&& forall|j: int| 0 <= j < written.len() ==> #[trigger] written[j] is Object
            &&& forall|j: int|
                0 <= j < written.len() ==> notifies(#[trigger] written[j]) || exists|i: int|
                    0 <= i < ids.len() && answers(written[j], #[trigger] ids[i])
        }),
    decreases events.len(),
{
    if events.len() > 0 {
        let front = events.drop_last();
        let event = events.last();
        let (before, old_written) = conversation(state, front);
        let more = written_for(before, event).1;
        let written = conversation(state, events).1;
        let old_ids = ids_asked(front);
        let ids = ids_asked(events);
        answers_match_messages(state, front);
        lemma_written_for(before, event);
        lemma_replies_concat(old_written, more);
        let replies = replies_in(written);
        match event {
            Event::Message { msg, .. } => {
                let id = msg.field("id"@);
                lemma_one_reply(more, id);
                assert forall|i: int| 0 <= i < ids.len() implies answers(
                    #[trigger] replies[i],
                    ids[i],
                ) by {
                    if i < old_ids.len() {
                        assert(replies[i] == replies_in(old_written)[i]);
                        assert(ids[i] == old_ids[i]);
                    } else {
                        assert(replies[i] == replies_in(more)[0]);
                    }
                }
                assert(ids[ids.len() - 1] == id);
            },
            _ => {
                lemma_no_replies(more);
                assert(replies =~= replies_in(old_written));
            },
        }
        assert forall|j: int| 0 <= j < written.len() implies notifies(#[trigger] written[j])
            || exists|i: int|
            0 <= i < ids.len() && answers(written[j], #[trigger] ids[i]) by {
            if j < old_written.len() {
                assert(written[j] == old_written[j]);
                if !notifies(written[j]) {
                    let i = choose|i: int|
                        0 <= i < old_ids.len() && answers(old_written[j], #[trigger] old_ids[i]);
                    assert(ids[i] == old_ids[i]);
                }
            } else {
                assert(written[j] == more[j - old_written.len()]);
            }
        }
    }
}

/// Requests that ask for nothing but an answer get it and leave the session as it was: a
/// subscription is told the session's own extranonce, an unknown method is refused, and the others
/// are acknowledged.
pub proof fn plain_requests_change_nothing(
    state: MinerView,
    id: JsonView,
    params: JsonView,
    fallback: Option<Seq<char>>,
    job: Option<JobView>,
    suggested: Option<u64>,
    session_id: Seq<char>,
)
    ensures
        reaction_to(state, id, Method::Subscribe, params, fallback, job, suggested, session_id) == (
            state,
            ReactionView::Send(seq![subscribe_reply(id, state.extranonce1)]),
        ),
        reaction_to(
            state,
            id,
            Method::ExtranonceSubscribe,
            params,
            fallback,
            job,
            suggested,
            session_id,
        ) == (state, ReactionView::Send(seq![ok_reply(id)])),
        reaction_to(
            state,
            id,
            Method::SubmitHashrate,
            params,
            fallback,
            job,
            suggested,
            session_id,
        ) == (state, ReactionView::Send(seq![ok_reply(id)])),
        reaction_to(state, id, Method::Unknown, params, fallback, job, suggested, session_id) == (
            state,
            ReactionView::Send(seq![error_reply(id, 20, "Unknown method"@)]),
        ),
{
}

/// A session begins exactly where an authorization or a login finds an address to pay; shares are
/// judged where they are submitted; a suggested difficulty is taken where one is suggested.
pub proof fn requests_reach_their_handler(
    state: MinerView,
    id: JsonView,
    params: JsonView,
    fallback: Option<Seq<char>>,
    job: Option<JobView>,
    suggested: Option<u64>,
    session_id: Seq<char>,
)
    ensures
        ({
            let (after, reaction) = reaction_to(
                state,
                id,
                Method::Authorize,
                params,
                fallback,
                job,
                suggested,
                session_id,
            );
            let found = paid_address(params.item(0).text_or(Seq::empty()), fallback) is Some;
            &&& after == state.authorize(id, params, fallback, job).0
            &&& found ==> reaction == ReactionView::Begin(
                state.authorize(id, params, fallback, job).1,
            )
            &&& !found ==> reaction == ReactionView::Send(
                seq![error_reply(id, 24, "invalid address"@)],
            ) && after == state
        }),
        ({
            let (after, reaction) = reaction_to(
                state,
                id,
                Method::Login,
                params,
                fallback,
                job,
                suggested,
                session_id,
            );
            let found = paid_address(params.field("login"@).text_or(Seq::empty()), fallback) is Some;
            &&& after == state.login(id, params, fallback, job, session_id).0
            &&& found ==> reaction == ReactionView::Begin(
                seq![state.login(id, params, fallback, job, session_id).1],
            )
            &&& !found ==> reaction == ReactionView::Send(
                seq![error_reply(id, 24, "invalid address"@)],
            ) && after == state
        }),
        reaction_to(state, id, Method::Submit, params, fallback, job, suggested, session_id) == (
            state.submit(id, params).0,
            ReactionView::Judged(state.submit(id, params).1),
        ),
        reaction_to(
            state,
            id,
            Method::SuggestDifficulty,
            params,
            fallback,
            job,
            suggested,
            session_id,
        ) == (state.suggest(id, suggested).0, ReactionView::Send(state.suggest(id, suggested).1)),
{
}

/// An accepted share is answered last. A new difficulty is told before that exactly where it
/// differs from the one before.
pub proof fn new_difficulties_are_told_before_the_answer(
    state: MinerView,
    reply: JsonView,
    elapsed_secs: u64,
    raw: u64,
)
    ensures
        ({
            let (after, messages) = conclusion_of(state, reply, elapsed_secs, raw);
            &&& after == state.retarget(elapsed_secs, raw)
            &&& messages.len() > 0 && messages.last() == reply
            &&& after.difficulty == state.difficulty ==> messages.len() == 1
            &&& after.difficulty != state.difficulty ==> messages.len() == 2 && messages[0]
                == difficulty_message(after.difficulty)
        }),
{
}

/// What a reaction or the verdict on a share stands for is what it holds.
pub proof fn reactions_stand_for_their_parts(
    messages: Vec<Json>,
    submission: Submission,
    reply: Json,
    block: FoundBlock,
)
    ensures
        Reaction::Send(messages)@ == ReactionView::Send(messages_of(messages@)),
        Reaction::Begin(messages)@ == ReactionView::Begin(messages_of(messages@)),
        Reaction::Judged(submission)@ == ReactionView::Judged(submission@),
        Submission::Refused(reply)@ == SubmissionView::Refused(reply@),
        Submission::Accepted(reply, None)@ == SubmissionView::Accepted(reply@, None),
        Submission::Accepted(reply, Some(block))@ == SubmissionView::Accepted(
            reply@,
            Some(block@),
        ),
{
}

} // verus!
