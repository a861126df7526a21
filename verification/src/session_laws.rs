//! What a miner's session promises, whatever the miner sends.

use crate::address::valid_address;
use crate::address_laws::{addresses_of_any_version_are_paid, base58_forms_read_back, base58_text};
use crate::bytes::{
    be_bytes, be_value, le_value, lemma_be_bound, lemma_be_bytes_value, lemma_pow256_8, pow256,
};
use crate::encoding_laws::{
    hexadecimal_numbers_are_their_bytes, only_0x_is_dropped, powers_are_those_of_arithmetic,
    texts_part_at_the_first, written_numbers_are_read_back,
};
use crate::hexcode;
use crate::job::JobView;
use crate::job_laws::{blocks_have_their_layout, headers_have_their_layout};
use crate::json::{Json, JsonView};
use crate::pow::light_hash;
use crate::session::{
    authorized_worker, login_worker, messages_of, new_session, paid_address, pool_target,
    pool_target_is_that_of_the_difficulty, submitted_header, submitted_job, submitted_mix,
    submitted_nonce, FoundBlock, MinerView, ShareReport, SubmissionView,
};
use crate::shares::{difficulty_of_hash, higher_difficulty, ShareDifficulty, DIFF1_HIGH};
use crate::stratum::{
    difficulty_message, error_reply, login_job, login_reply, notify_message, ok_reply,
};
use crate::target::{difficulty_target, lemma_target_fits};
use crate::text::without_0x;
use vstd::arithmetic::div_mod::lemma_fundamental_div_mod;
use vstd::arithmetic::power::pow;
use vstd::prelude::*;

verus! {

/// Whether a parameter is the text, with or without a `0x` in front.
pub open spec fn is_written(value: JsonView, text: Seq<char>) -> bool {
    value == JsonView::Str(text) || value == JsonView::Str(seq!['0', 'x'] + text)
}

proof fn lemma_hex_has_no_prefix(text: Seq<char>)
    requires
        forall|i: int| 0 <= i < text.len() ==> hexcode::digit_value(#[trigger] text[i]) is Some,
    ensures
        without_0x(text) == text,
        without_0x(seq!['0', 'x'] + text) == text,
{
    only_0x_is_dropped(text);
    if text.len() >= 2 {
        assert(hexcode::digit_value(text[1]) is Some);
        assert(hexcode::digit_value('x') is None);
    }
}

/// Up to sixteen hexadecimal digits are a nonce, with or without a `0x` in front: the whole number
/// that the digits stand for, none of it cut off.
pub proof fn digits_are_the_whole_nonce(params: JsonView, digits: Seq<char>)
    requires
        1 <= digits.len() <= 16,
        forall|i: int| 0 <= i < digits.len() ==> hexcode::digit_value(#[trigger] digits[i]) is Some,
        is_written(params.item(2), digits),
    ensures
        ({
            let bytes = hexcode::decoded(
                Seq::new((16 - digits.len()) as nat, |i: int| '0') + digits,
            );
            &&& bytes is Some
            &&& bytes->0.len() == 8
            &&& submitted_nonce(params) == Some(be_value(bytes->0))
        }),
{
    let pad = (16 - digits.len()) as nat;
    let bytes = hexcode::decoded(Seq::new(pad, |i: int| '0') + digits);
    hexadecimal_numbers_are_their_bytes(digits, pad, u64::MAX as nat);
    lemma_be_bound(bytes->0);
    lemma_pow256_8();
    lemma_hex_has_no_prefix(digits);
}

/// Every number of 64 bits that is written in hexadecimal is submitted as that very number, so two
/// different nonces stay different.
pub proof fn nonces_are_submitted_unchanged(params: JsonView, nonce: u64)
    requires
        is_written(params.item(2), hexcode::encoded(be_bytes(nonce as nat, 8))),
    ensures
        submitted_nonce(params) == Some(nonce as nat),
{
    written_numbers_are_read_back(nonce);
}

/// Job, header hash and mix hash are the texts at their places in a submission, the hashes without
/// a `0x` in front. What is no text is empty.
pub proof fn submissions_are_read_by_place(params: JsonView, text: Seq<char>)
    ensures
        params.item(1) == JsonView::Str(text) ==> submitted_job(params) == text,
        params.item(1).text() is None ==> submitted_job(params) == Seq::<char>::empty(),
        params.item(3) == JsonView::Str(text) ==> submitted_header(params) == without_0x(text),
        params.item(3).text() is None ==> submitted_header(params) == Seq::<char>::empty(),
        params.item(4) == JsonView::Str(text) ==> submitted_mix(params) == without_0x(text),
        params.item(4).text() is None ==> submitted_mix(params) == Seq::<char>::empty(),
        params.item(2).text() is None ==> submitted_nonce(params) is None,
{
    only_0x_is_dropped(Seq::empty());
}

/// Whether a share is submitted with its job, its nonce and the bytes of its mix hash.
pub open spec fn submits(params: JsonView, job_id: Seq<char>, nonce: u64, mix: Seq<u8>) -> bool {
    &&& submitted_job(params) == job_id
    &&& submitted_nonce(params) == Some(nonce as nat)
    &&& hexcode::decoded(submitted_mix(params)) == Some(mix)
}

/// Every share can be submitted: a job, any nonce of 64 bits and any mix hash, written in
/// hexadecimal, arrive as they are.
pub proof fn written_shares_are_submitted(
    params: JsonView,
    job_id: Seq<char>,
    nonce: u64,
    mix: Seq<u8>,
)
    requires
        params.item(1) == JsonView::Str(job_id),
        is_written(params.item(2), hexcode::encoded(be_bytes(nonce as nat, 8))),
        is_written(params.item(4), hexcode::encoded(mix)),
    ensures
        submits(params, job_id, nonce, mix),
{
    nonces_are_submitted_unchanged(params, nonce);
    hexcode::decode_of_encode(mix);
    lemma_hex_has_no_prefix(hexcode::encoded(mix));
}

/// A share for an active job is accepted exactly where the hash of the header handed out, the mix
/// hash and the whole nonce is at most the target of the miner's difficulty; otherwise it is
/// refused for its low difficulty. It completes a block exactly where that hash is at most the
/// network's boundary too.
pub proof fn shares_are_judged_by_the_whole_nonce(
    state: MinerView,
    id: JsonView,
    params: JsonView,
    job_id: Seq<char>,
    header: Seq<u8>,
    mix: Seq<u8>,
    nonce: u64,
)
    requires
        state.address is Some,
        state.active_jobs.dom().contains(job_id),
        hexcode::decoded(state.active_jobs[job_id].header_hash_hex) == Some(header),
        header.len() == 32,
        mix.len() == 32,
        submits(params, job_id, nonce, mix),
    ensures
        ({
            let outcome = state.submit(id, params).1;
            let hash = light_hash(header, mix, nonce);
            let boundary = state.active_jobs[job_id].job.network_boundary;
            &&& be_value(hash) <= difficulty_target(state.difficulty as nat) ==> outcome is Accepted
                && outcome->Accepted_0 == ok_reply(id) && (outcome->Accepted_1 is Some
                <==> be_value(hash) <= be_value(boundary))
            &&& be_value(hash) > difficulty_target(state.difficulty as nat) ==> outcome
                == SubmissionView::Refused(error_reply(id, 23, "low difficulty share"@))
        }),
{
    pool_target_is_that_of_the_difficulty(state.difficulty, state.difficulty);
}

/// A share whose mix hash is not 64 hexadecimal digits is refused for its low difficulty.
pub proof fn unreadable_mix_hashes_are_refused(state: MinerView, id: JsonView, params: JsonView)
    requires
        submitted_nonce(params) is Some,
        state.address is Some,
        state.active_jobs.dom().contains(submitted_job(params)),
        hexcode::decoded(submitted_mix(params)) is None || hexcode::decoded(
            submitted_mix(params),
        )->0.len() != 32,
    ensures
        state.submit(id, params).1 == SubmissionView::Refused(
            error_reply(id, 23, "low difficulty share"@),
        ),
{
}

/// A block that a share completes carries the whole nonce of the share behind its header, with the
/// lowest byte first, and then the mix hash with its bytes turned round. It is reported with the
/// height of the job, the hash of the share, the miner's address and worker, and what the miner,
/// the fee and the community fund get.
pub proof fn blocks_carry_the_whole_nonce(
    state: MinerView,
    id: JsonView,
    params: JsonView,
    job_id: Seq<char>,
    header: Seq<u8>,
    mix: Seq<u8>,
    nonce: u64,
)
    requires
        state.wf(),
        state.address is Some,
        state.active_jobs.dom().contains(job_id),
        hexcode::decoded(state.active_jobs[job_id].header_hash_hex) == Some(header),
        header.len() == 32,
        mix.len() == 32,
        submits(params, job_id, nonce, mix),
    ensures
        state.submit(id, params).1 matches SubmissionView::Accepted(_, Some(found)) ==> {
            let entry = state.active_jobs[job_id];
            let job = entry.job;
            &&& hexcode::decoded(found.block_hex) matches Some(block) && {
                &&& block.take(80) == job.header_prefix(entry.merkle_root)
                &&& le_value(block.subrange(80, 88)) == nonce
                &&& block.subrange(88, 120) == mix.reverse()
            }
            &&& found.final_hash_hex == hexcode::encoded(light_hash(header, mix, nonce))
            &&& found.height == job.height
            &&& found.address == state.address->0
            &&& found.worker == state.worker
            &&& found.community_sats == job.community_value
            &&& job.fee_sats is Some && job.fee_address is Some ==> found.dev_fee_sats
                == job.fee_sats->0
            &&& !(job.fee_sats is Some && job.fee_address is Some) ==> found.dev_fee_sats == 0
            &&& found.miner_payout_sats + found.dev_fee_sats == job.coinbase_value
        },
{
    let entry = state.active_jobs[job_id];
    let job = entry.job;
    let address = state.address->0;
    headers_have_their_layout(job, entry.merkle_root);
    let prefix = job.header_prefix(entry.merkle_root);
    let block = job.block(prefix, nonce, mix.reverse(), address);
    hexcode::decode_of_encode(block);
    blocks_have_their_layout(
        job,
        address,
        prefix,
        nonce,
        mix.reverse(),
        Seq::empty(),
        Seq::empty(),
    );
}

/// A share is refused before its hash is looked at for a nonce that is no number, then for a miner
/// that has not authorized, then for a job that is not active, each with its own error. Only the
/// last counts, as a stale share.
pub proof fn refusals_have_their_order(state: MinerView, id: JsonView, params: JsonView)
    ensures
        ({
            let (after, outcome) = state.submit(id, params);
            let nonce = submitted_nonce(params);
            let active = state.active_jobs.dom().contains(submitted_job(params));
            &&& nonce is None ==> after == state && outcome == SubmissionView::Refused(
                error_reply(id, 20, "bad nonce"@),
            )
            &&& nonce is Some && state.address is None ==> after == state && outcome
                == SubmissionView::Refused(error_reply(id, 24, "not authorized"@))
            &&& nonce is Some && state.address is Some && !active ==> outcome
                == SubmissionView::Refused(error_reply(id, 21, "stale job"@))
        }),
{
}

/// An accepted share keeps the record of the window: the difficulty it was held to comes behind
/// the others, and the peak is the higher of the old one and the share's own. A refused one leaves
/// both as they were.
pub proof fn windows_keep_difficulties_and_peak(
    state: MinerView,
    id: JsonView,
    params: JsonView,
    job_id: Seq<char>,
    header: Seq<u8>,
    mix: Seq<u8>,
    nonce: u64,
)
    requires
        state.address is Some,
        state.active_jobs.dom().contains(job_id),
        hexcode::decoded(state.active_jobs[job_id].header_hash_hex) == Some(header),
        header.len() == 32,
        mix.len() == 32,
        submits(params, job_id, nonce, mix),
    ensures
        ({
            let (after, outcome) = state.submit(id, params);
            let reached = difficulty_of_hash(light_hash(header, mix, nonce));
            &&& outcome is Accepted ==> {
                &&& after.share_agg.difficulties == state.share_agg.difficulties.push(
                    state.difficulty,
                )
                &&& after.share_agg.peak_share_diff == reached || after.share_agg.peak_share_diff
                    == state.share_agg.peak_share_diff
                &&& at_least(after.share_agg.peak_share_diff, reached)
                &&& at_least(after.share_agg.peak_share_diff, state.share_agg.peak_share_diff)
            }
            &&& outcome is Refused ==> after.share_agg.difficulties == state.share_agg.difficulties
                && after.share_agg.peak_share_diff == state.share_agg.peak_share_diff
            &&& after.worker == state.worker
            &&& after.extranonce1 == state.extranonce1
            &&& after.db_session_id == state.db_session_id
        }),
{
}

/// Whether one difficulty is as high as another; none is as high as an unbounded one but itself.
pub open spec fn at_least(a: ShareDifficulty, b: ShareDifficulty) -> bool {
    match (a, b) {
        (ShareDifficulty::Unbounded, _) => true,
        (ShareDifficulty::Finite(x), ShareDifficulty::Finite(y)) => x >= y,
        (ShareDifficulty::Finite(_), ShareDifficulty::Unbounded) => false,
    }
}

/// The higher of two difficulties is one of them and as high as both.
pub proof fn higher_difficulty_is_the_maximum(a: ShareDifficulty, b: ShareDifficulty)
    ensures
        higher_difficulty(a, b) == a || higher_difficulty(a, b) == b,
        at_least(higher_difficulty(a, b), a),
        at_least(higher_difficulty(a, b), b),
{
}

/// The difficulty of a hash is how often the number of its first sixteen bytes goes into that of
/// the target of difficulty one, and unbounded where those bytes are zero.
pub proof fn hashes_divide_the_target_of_difficulty_one(hash: Seq<u8>)
    ensures
        ({
            let high = be_value(hash.take(16));
            let one = 0xffff * pow(256, 10);
            &&& high == 0 ==> difficulty_of_hash(hash) == ShareDifficulty::Unbounded
            &&& high > 0 ==> difficulty_of_hash(hash) is Finite && difficulty_of_hash(hash)->0 * high
                <= one < (difficulty_of_hash(hash)->0 + 1) * high
        }),
{
    let high = be_value(hash.take(16)) as int;
    powers_are_those_of_arithmetic(10);
    assert(DIFF1_HIGH as int == 0xffff * pow256(10)) by {
        reveal_with_fuel(pow256, 11);
    }
    let one = DIFF1_HIGH as int;
    if high > 0 {
        lemma_fundamental_div_mod(one, high);
        let q = one / high;
        let r = one % high;
        assert(0 <= q <= one) by (nonlinear_arith)
            requires
                one == high * q + r,
                0 <= r < high,
                one >= 0,
                high > 0,
        ;
        assert(q * high <= one < (q + 1) * high) by (nonlinear_arith)
            requires
                one == high * q + r,
                0 <= r < high,
        ;
        assert(difficulty_of_hash(hash)->0 == q);
    }
}

/// After sixty seconds or with the eighth share the difficulty is set: to the wanted one, but no
/// lower than one and no higher than a million; the count of shares starts at zero again. On any
/// other share the difficulty stays and the count rises by one. Nothing else changes.
pub proof fn difficulty_is_set_by_time_or_count(state: MinerView, elapsed_secs: u64, raw: u64)
    requires
        state.shares_since_retarget < 8,
    ensures
        ({
            let after = state.retarget(elapsed_secs, raw);
            let due = elapsed_secs >= 60 || state.shares_since_retarget == 7;
            &&& due ==> {
                &&& after.shares_since_retarget == 0
                &&& 1 <= after.difficulty <= 1_000_000
                &&& 1 <= raw <= 1_000_000 ==> after.difficulty == raw
                &&& raw == 0 ==> after.difficulty == 1
                &&& raw > 1_000_000 ==> after.difficulty == 1_000_000
            }
            &&& !due ==> {
                &&& after.shares_since_retarget == state.shares_since_retarget + 1
                &&& after.difficulty == state.difficulty
            }
            &&& after.address == state.address
            &&& after.worker == state.worker
            &&& after.extranonce1 == state.extranonce1
            &&& after.active_jobs == state.active_jobs
            &&& after.share_agg == state.share_agg
            &&& after.db_session_id == state.db_session_id
            &&& after.total_valid == state.total_valid
            &&& after.total_invalid == state.total_invalid
        }),
{
}

/// A suggested difficulty above zero is taken, told to the miner and then acknowledged. Any other
/// suggestion is acknowledged and changes nothing.
pub proof fn suggestions_above_zero_are_taken(state: MinerView, id: JsonView, wanted: u64)
    requires
        wanted > 0,
    ensures
        state.suggest(id, Some(wanted)).0.difficulty == wanted,
        (MinerView { difficulty: state.difficulty, ..state.suggest(id, Some(wanted)).0 }) == state,
        state.suggest(id, Some(wanted)).1 == seq![difficulty_message(wanted), ok_reply(id)],
        state.suggest(id, Some(0)) == (state, seq![ok_reply(id)]),
        state.suggest(id, None) == (state, seq![ok_reply(id)]),
{
}

/// Whether only the jobs, the address and the worker may differ between two sessions.
pub open spec fn same_but_for_identity_and_jobs(a: MinerView, b: MinerView) -> bool {
    &&& a.difficulty == b.difficulty
    &&& a.extranonce1 == b.extranonce1
    &&& a.shares_since_retarget == b.shares_since_retarget
    &&& a.share_agg == b.share_agg
    &&& a.db_session_id == b.db_session_id
    &&& a.total_valid == b.total_valid
    &&& a.total_invalid == b.total_invalid
}

/// Whether a session works on a job for the address.
pub open spec fn works_on(state: MinerView, job: JobView, address: Seq<char>) -> bool {
    &&& state.active_jobs.dom().contains(job.id)
    &&& state.active_jobs[job.id].job == job
    &&& state.active_jobs[job.id].header_hash_hex == hexcode::encoded(job.header_hash(address))
    &&& state.active_jobs[job.id].merkle_root == job.merkle_root(address)
}

/// Whether all jobs of one session but the one with the id are those of another.
pub open spec fn keeps_jobs_but(after: MinerView, before: MinerView, id: Seq<char>) -> bool {
    forall|other: Seq<char>| #![auto]
        other != id ==> (after.active_jobs.dom().contains(other)
            <==> before.active_jobs.dom().contains(other)) && (
        before.active_jobs.dom().contains(other) ==> after.active_jobs[other]
            == before.active_jobs[other])
}

/// A pushed job reaches a known miner with the header for its own address, the target of its own
/// difficulty and the word to drop older work. The miner keeps up to three older jobs beside it;
/// with four or more it keeps none. A miner that is not known gets nothing and stays as it was.
pub proof fn pushed_jobs_reach_known_miners(state: MinerView, job: JobView)
    requires
        state.wf(),
    ensures
        ({
            let (after, message) = state.push_job(job);
            &&& state.address is None ==> after == state && message is None
            &&& state.address matches Some(address) ==> {
                &&& message == Some(
                    notify_message(
                        job,
                        hexcode::encoded(job.header_hash(address)),
                        pool_target(state.difficulty),
                        true,
                    ),
                )
                &&& works_on(after, job, address)
                &&& same_but_for_identity_and_jobs(after, state)
                &&& after.address == state.address
                &&& after.worker == state.worker
                &&& state.active_jobs.dom().len() <= 3 ==> keeps_jobs_but(after, state, job.id)
                &&& state.active_jobs.dom().len() >= 4 ==> forall|other: Seq<char>|
                    other != job.id ==> !#[trigger] after.active_jobs.dom().contains(other)
            }
        }),
{
}

/// A miner is paid at what stands before the first dot of its login where that is a valid address,
/// and at the fallback address otherwise.
pub proof fn own_address_comes_before_the_fallback(
    own: Seq<char>,
    rest: Seq<char>,
    fallback: Option<Seq<char>>,
)
    requires
        !own.contains('.'),
    ensures
        valid_address(own) ==> paid_address(own, fallback) == Some(own) && paid_address(
            own + seq!['.'] + rest,
            fallback,
        ) == Some(own),
        !valid_address(own) ==> paid_address(own, fallback) == fallback && paid_address(
            own + seq!['.'] + rest,
            fallback,
        ) == fallback,
{
    texts_part_at_the_first(own, '.', rest);
}

/// A miner that authorizes and has an address to be paid at is known by it. It is acknowledged,
/// told its difficulty and handed the current job for that address; the jobs it had stay. One
/// without an address is refused and stays as it was.
pub proof fn authorization_lets_a_miner_in(
    state: MinerView,
    id: JsonView,
    params: JsonView,
    fallback: Option<Seq<char>>,
    job: JobView,
)
    ensures
        ({
            let address = paid_address(params.item(0).text_or(Seq::empty()), fallback);
            let (after, messages) = state.authorize(id, params, fallback, Some(job));
            let (idle, greeting) = state.authorize(id, params, fallback, None);
            &&& address is Some ==> {
                &&& after.address == address
                &&& after.worker == authorized_worker(params)
                &&& same_but_for_identity_and_jobs(after, state)
                &&& works_on(after, job, address->0)
                &&& keeps_jobs_but(after, state, job.id)
                &&& messages == seq![
                    ok_reply(id),
                    difficulty_message(state.difficulty),
                    notify_message(
                        job,
                        hexcode::encoded(job.header_hash(address->0)),
                        pool_target(state.difficulty),
                        true,
                    ),
                ]
                &&& idle.address == address
                &&& idle.worker == authorized_worker(params)
                &&& same_but_for_identity_and_jobs(idle, state)
                &&& idle.active_jobs == state.active_jobs
                &&& greeting == seq![ok_reply(id), difficulty_message(state.difficulty)]
            }
            &&& address is None ==> {
                &&& after == state && idle == state
                &&& messages == seq![error_reply(id, 24, "invalid address"@)]
                &&& greeting == messages
            }
        }),
{
    let address = paid_address(params.item(0).text_or(Seq::empty()), fallback);
    if address is Some {
        assert(state.authorize(id, params, fallback, Some(job)).1 =~= seq![
            ok_reply(id),
            difficulty_message(state.difficulty),
            notify_message(
                job,
                hexcode::encoded(job.header_hash(address->0)),
                pool_target(state.difficulty),
                true,
            ),
        ]);
    }
}

/// The worker name of an authorization stands between the first dot of the login and the next one
/// or the end; that of a login is all that stands behind the first dot. A worker name is optional:
/// without one in the login it is the second parameter or the name of the rig, and without that
/// either it is `default`.
pub proof fn worker_names_are_read(
    params: JsonView,
    own: Seq<char>,
    worker: Seq<char>,
    rest: Seq<char>,
    name: Seq<char>,
)
    requires
        !own.contains('.'),
        !worker.contains('.'),
    ensures
        params.item(0) == JsonView::Str(own + seq!['.'] + (worker + seq!['.'] + rest))
            ==> authorized_worker(params) == worker,
        params.item(0) == JsonView::Str(own + seq!['.'] + worker) && worker.len() > 0
            ==> authorized_worker(params) == worker,
        params.item(0) == JsonView::Str(own) || params.item(0) == JsonView::Str(own.push('.'))
            || params.item(0).text() is None ==> {
            &&& params.item(1) == JsonView::Str(name) ==> authorized_worker(params) == name
            &&& params.item(1).text() is None ==> authorized_worker(params) == "default"@
        },
        params.field("login"@) == JsonView::Str(own + seq!['.'] + rest) && rest.len() > 0
            ==> login_worker(params) == rest,
        params.field("login"@) == JsonView::Str(own) || params.field("login"@) == JsonView::Str(
            own.push('.'),
        ) || params.field("login"@).text() is None ==> {
            &&& params.field("rigid"@) == JsonView::Str(name) ==> login_worker(params) == name
            &&& params.field("rigid"@).text() is None ==> login_worker(params) == "default"@
        },
{
    texts_part_at_the_first(own, '.', worker);
    texts_part_at_the_first(own, '.', rest);
    texts_part_at_the_first(own, '.', worker + seq!['.'] + rest);
    texts_part_at_the_first(worker, '.', rest);
    texts_part_at_the_first(own, '.', Seq::empty());
    texts_part_at_the_first(Seq::empty(), '.', Seq::empty());
    assert(own + seq!['.'] + Seq::<char>::empty() =~= own.push('.'));
}

/// A miner that logs in and has an address to be paid at is known by it. It is answered with the
/// session's id and the current job for that address; the miner keeps up to three older jobs beside
/// that one, and with four or more it keeps none. One without an address is refused and stays as it
/// was.
pub proof fn logins_let_a_miner_in(
    state: MinerView,
    id: JsonView,
    params: JsonView,
    fallback: Option<Seq<char>>,
    job: JobView,
    session_id: Seq<char>,
)
    requires
        state.wf(),
    ensures
        ({
            let address = paid_address(params.field("login"@).text_or(Seq::empty()), fallback);
            let (after, reply) = state.login(id, params, fallback, Some(job), session_id);
            let (idle, greeting) = state.login(id, params, fallback, None, session_id);
            &&& address is Some ==> {
                &&& after.address == address
                &&& after.worker == login_worker(params)
                &&& same_but_for_identity_and_jobs(after, state)
                &&& works_on(after, job, address->0)
                &&& state.active_jobs.dom().len() <= 3 ==> keeps_jobs_but(after, state, job.id)
                &&& state.active_jobs.dom().len() >= 4 ==> forall|other: Seq<char>|
                    other != job.id ==> !#[trigger] after.active_jobs.dom().contains(other)
                &&& reply == login_reply(
                    id,
                    session_id,
                    login_job(
                        job,
                        hexcode::encoded(job.header_hash(address->0)),
                        pool_target(state.difficulty),
                    ),
                )
                &&& idle.address == address
                &&& idle.worker == login_worker(params)
                &&& same_but_for_identity_and_jobs(idle, state)
                &&& idle.active_jobs == state.active_jobs
                &&& greeting == login_reply(id, session_id, JsonView::Null)
            }
            &&& address is None ==> {
                &&& after == state && idle == state
                &&& reply == error_reply(id, 24, "invalid address"@)
                &&& greeting == reply
            }
        }),
{
}

/// A new session knows nobody, works on nothing, has counted nothing, and starts with the difficulty
/// and the extranonce it was given.
pub proof fn new_sessions_start_empty(difficulty: u64, extranonce1: Seq<char>)
    ensures
        ({
            let state = new_session(difficulty, extranonce1);
            &&& state.wf() && state.can_count()
            &&& state.address is None
            &&& state.worker.len() == 0
            &&& state.difficulty == difficulty
            &&& state.extranonce1 == extranonce1
            &&& state.active_jobs.dom().len() == 0
            &&& state.shares_since_retarget == 0
            &&& state.share_agg.shares_valid == 0
            &&& state.share_agg.shares_invalid == 0
            &&& state.share_agg.shares_stale == 0
            &&& state.share_agg.difficulties.len() == 0
            &&& state.share_agg.peak_share_diff == ShareDifficulty::Finite(0)
            &&& state.db_session_id is None
            &&& state.total_valid == 0 && state.total_invalid == 0
        }),
{
}

/// Shares can be counted until one of the counters is full.
pub proof fn shares_count_until_a_counter_is_full(state: MinerView)
    ensures
        state.can_count() <==> state.total_valid < 0xffff_ffff && state.total_invalid < 0xffff_ffff
            && state.share_agg.shares_stale < 0xffff_ffff,
{
}

/// What lists and reports stand for is what they hold, in its order.
pub proof fn reports_stand_for_their_parts(
    messages: Seq<Json>,
    block: FoundBlock,
    report: ShareReport,
    i: int,
)
    requires
        0 <= i < messages.len(),
    ensures
        messages_of(messages).len() == messages.len(),
        messages_of(messages)[i] == messages[i]@,
        block@.height == block.height,
        block@.block_hex == block.block_hex@,
        block@.final_hash_hex == block.final_hash_hex@,
        block@.address == block.address@,
        block@.worker == block.worker@,
        block@.miner_payout_sats == block.miner_payout_sats,
        block@.dev_fee_sats == block.dev_fee_sats,
        block@.community_sats == block.community_sats,
        report@.address == report.address@,
        report@.worker == report.worker@,
        report@.shares.shares_valid == report.shares.shares_valid,
        report@.shares.shares_invalid == report.shares.shares_invalid,
        report@.shares.shares_stale == report.shares.shares_stale,
        report@.shares.difficulties == report.shares.difficulties@,
        report@.shares.peak_share_diff == report.shares.peak_share_diff,
{
}

/// A miner that names any address of 21 bytes or more is let in and paid there, whatever the
/// version byte of the address is. A name that stands for fewer bytes falls back, or is turned away
/// with the error for an invalid address where there is no fallback.
pub proof fn any_version_of_address_is_let_in(
    state: MinerView,
    id: JsonView,
    params: JsonView,
    fallback: Option<Seq<char>>,
    job: Option<JobView>,
    session_id: Seq<char>,
    version: u8,
    key_hash: Seq<u8>,
    checksum: Seq<u8>,
    short: Seq<u8>,
    worker: Seq<char>,
)
    requires
        key_hash.len() == 20,
        short.len() < 21,
    ensures
        ({
            let address = base58_text(seq![version] + key_hash + checksum);
            let bad = base58_text(short);
            &&& paid_address(address, fallback) == Some(address)
            &&& paid_address(address + seq!['.'] + worker, fallback) == Some(address)
            &&& paid_address(bad, fallback) == fallback
            &&& paid_address(bad + seq!['.'] + worker, fallback) == fallback
            &&& params.item(0) == JsonView::Str(address) ==> state.authorize(
                id,
                params,
                fallback,
                job,
            ).0.address == Some(address)
            &&& params.item(0) == JsonView::Str(bad) && fallback is None ==> state.authorize(
                id,
                params,
                fallback,
                job,
            ) == (state, seq![error_reply(id, 24, "invalid address"@)])
            &&& params.field("login"@) == JsonView::Str(bad) && fallback is None ==> state.login(
                id,
                params,
                fallback,
                job,
                session_id,
            ) == (state, error_reply(id, 24, "invalid address"@))
        }),
{
    let data = seq![version] + key_hash + checksum;
    addresses_of_any_version_are_paid(version, key_hash, checksum, short);
    base58_forms_read_back(data);
    base58_forms_read_back(short);
    texts_part_at_the_first(base58_text(data), '.', worker);
    texts_part_at_the_first(base58_text(short), '.', worker);
}

/// A known miner with valid or invalid shares is reported under its address and worker name with
/// everything that was counted, and counting starts at zero. A miner without such shares, or one
/// that is not known, is not reported, and nothing changes.
pub proof fn reports_hold_everything_counted(state: MinerView)
    ensures
        ({
            let (after, report) = state.report();
            let due = state.address is Some && (state.share_agg.shares_valid > 0
                || state.share_agg.shares_invalid > 0);
            &&& !due ==> report is None && after == state
            &&& due ==> {
                &&& report is Some
                &&& report->0.address == state.address->0
                &&& report->0.worker == state.worker
                &&& report->0.shares == state.share_agg
                &&& after.share_agg.shares_valid == 0
                &&& after.share_agg.shares_invalid == 0
                &&& after.share_agg.shares_stale == 0
                &&& after.share_agg.difficulties.len() == 0
                &&& after.share_agg.peak_share_diff == ShareDifficulty::Finite(0)
                &&& (MinerView { share_agg: state.share_agg, ..after }) == state
            }
        }),
{
}

/// A miner is called by its address, a dot and its worker name, or `(unauthorized)` before it has
/// an address.
pub proof fn labels_name_address_and_worker(state: MinerView)
    ensures
        state.address is None ==> state.label() == "(unauthorized)"@,
        state.address matches Some(address) ==> state.label() == address + seq!['.'] + state.worker,
{
    reveal_strlit(".");
    assert("."@ =~= seq!['.']);
}

/// The target that goes out to miners is 32 bytes long and, read as a big-endian number, the
/// target of the difficulty.
pub proof fn pool_targets_are_32_bytes(difficulty: u64)
    ensures
        pool_target(difficulty).len() == 32,
        be_value(pool_target(difficulty)) == difficulty_target(difficulty as nat),
{
    pool_target_is_that_of_the_difficulty(difficulty, difficulty);
    lemma_target_fits(difficulty as nat);
    lemma_be_bytes_value(difficulty_target(difficulty as nat), 32);
}

} // verus!
