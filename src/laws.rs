//! What holds of every run of the signer, stated over the steps its operations take.
use vstd::prelude::*;

use crate::messages::{attempt_key, completed_key, Batch, CoordinatorMessage};
use crate::sessions::Stage;
use crate::signer::{is_preprocess, is_share, lemma_store_put, one_more, SignerError, SignerState};
use crate::store::lemma_log_extend;

verus! {

/// The batch a message of the coordinator service is about.
pub open spec fn message_batch(msg: CoordinatorMessage) -> Seq<u8> {
    match msg {
        CoordinatorMessage::BatchPreprocesses { id, .. } => id.id@,
        CoordinatorMessage::BatchShares { id, .. } => id.id@,
        CoordinatorMessage::BatchReattempt { id } => id.id@,
    }
}

/// Whether `post` follows `pre` by one call of `sign`, `handle` or `batch_signed`.
pub open spec fn step(pre: SignerState, post: SignerState) -> bool {
    ||| exists|b: Batch| pre.sign_step(post, b)
    ||| exists|m: CoordinatorMessage, r: Result<(), SignerError>| pre.handle_step(post, m, r)
    ||| exists|id: Seq<u8>| pre.batch_signed_step(post, id)
}

/// Whether the step from `pre` to `post` produced a preprocess for attempt `id`.
pub open spec fn produces_preprocess(pre: SignerState, post: SignerState, id: (Seq<u8>, Seq<u8>, u32)) -> bool {
    one_more(pre.events, post.events) && is_preprocess(post.events.last(), id)
}

/// Whether the step from `pre` to `post` produced a share for attempt `id`.
pub open spec fn produces_share(pre: SignerState, post: SignerState, id: (Seq<u8>, Seq<u8>, u32)) -> bool {
    one_more(pre.events, post.events) && is_share(post.events.last(), id)
}

/// Whether the step from `pre` to `post` produced the signed batch `id`.
pub open spec fn produces_signed_batch(pre: SignerState, post: SignerState, id: Seq<u8>) -> bool {
    &&& one_more(pre.events, post.events)
    &&& post.events.last() is SignedBatch
    &&& post.events.last()->SignedBatch_0.batch.block@ == id
}

/// Whether everything the store of `a` holds is held by the store of `b`.
pub open spec fn store_within(a: SignerState, b: SignerState) -> bool {
    forall|k: Seq<u8>| #[trigger] a.store().contains_key(k) ==> b.store().contains_key(k)
}

/// No step removes anything from the store, and a step keeps the group key.
pub proof fn lemma_store_grows(pre: SignerState, post: SignerState)
    requires
        step(pre, post),
    ensures
        store_within(pre, post),
        post.key == pre.key,
        exists|more: Seq<(Seq<u8>, Seq<u8>)>| post.history == pre.history + more,
{
    if exists|b: Batch| pre.sign_step(post, b) {
        let b = choose|b: Batch| pre.sign_step(post, b);
        if !pre.completed(b.block@) && !pre.sessions.contains_key(b.block@) {
            let mid = pre.with_new_session(b);
            assert(mid.history == pre.history);
            if !mid.attempted(b.block@, 0) {
                assert(post.history =~= pre.history + seq![(attempt_key(mid.sign_id(b.block@, 0)), Seq::<u8>::empty())]);
                lemma_log_extend(pre.history, seq![(attempt_key(mid.sign_id(b.block@, 0)), Seq::<u8>::empty())]);
            } else {
                assert(post.history =~= pre.history + Seq::empty());
            }
        } else {
            assert(post.history =~= pre.history + Seq::empty());
        }
    } else if exists|m: CoordinatorMessage, r: Result<(), SignerError>| pre.handle_step(post, m, r) {
        let (m, r) = choose|m: CoordinatorMessage, r: Result<(), SignerError>| pre.handle_step(post, m, r);
        match m {
            CoordinatorMessage::BatchReattempt { id } => {
                if pre.advances(id.id@, id.attempt) && !pre.attempted(id.id@, id.attempt) {
                    let w = (attempt_key(pre.sign_id(id.id@, id.attempt)), Seq::<u8>::empty());
                    assert(post.history =~= pre.history + seq![w]);
                    lemma_log_extend(pre.history, seq![w]);
                } else {
                    assert(post.history =~= pre.history + Seq::empty());
                }
            },
            CoordinatorMessage::BatchShares { id, .. } => {
                if pre.current(id@) && pre.sessions[id.id@].stage == Stage::Signing && r is Ok {
                    let more = post.history.subrange(pre.history.len() as int, post.history.len() as int);
                    assert(post.history =~= pre.history + more);
                    lemma_log_extend(pre.history, more);
                } else {
                    assert(post.history =~= pre.history + Seq::empty());
                }
            },
            CoordinatorMessage::BatchPreprocesses { .. } => {
                assert(post.history =~= pre.history + Seq::empty());
            },
        }
    } else {
        let id = choose|id: Seq<u8>| pre.batch_signed_step(post, id);
        assert(post.history =~= pre.history + seq![(completed_key(id), seq![1u8])]);
        lemma_log_extend(pre.history, seq![(completed_key(id), seq![1u8])]);
    }
}

/// A step produces a preprocess for an attempt only if the store did not record that attempt, and
/// the store records it after the step.
pub proof fn lemma_preprocess_recorded(pre: SignerState, post: SignerState, id: (Seq<u8>, Seq<u8>, u32))
    requires
        step(pre, post),
        produces_preprocess(pre, post, id),
    ensures
        !pre.store().contains_key(attempt_key(id)),
        post.store().contains_key(attempt_key(id)),
{
    if exists|b: Batch| pre.sign_step(post, b) {
        let b = choose|b: Batch| pre.sign_step(post, b);
        let mid = pre.with_new_session(b);
        assert(!pre.completed(b.block@) && !pre.sessions.contains_key(b.block@) && !mid.attempted(b.block@, 0));
        lemma_store_put(pre.history, attempt_key(mid.sign_id(b.block@, 0)), Seq::<u8>::empty());
    } else if exists|m: CoordinatorMessage, r: Result<(), SignerError>| pre.handle_step(post, m, r) {
        let (m, r) = choose|m: CoordinatorMessage, r: Result<(), SignerError>| pre.handle_step(post, m, r);
        match m {
            CoordinatorMessage::BatchReattempt { id: i } => {
                assert(pre.advances(i.id@, i.attempt) && !pre.attempted(i.id@, i.attempt));
                lemma_store_put(pre.history, attempt_key(pre.sign_id(i.id@, i.attempt)), Seq::<u8>::empty());
            },
            _ => {},
        }
    } else {
    }
}

/// A preprocess is produced at most once for an attempt, over every step of every signer that
/// works on the same store: after one step produced it, no step from a state whose store holds
/// what that step left, whether on the same signer or on one rebuilt from its store after a
/// reboot, produces it again.
pub proof fn lemma_nonce_safety(
    pre1: SignerState,
    post1: SignerState,
    pre2: SignerState,
    post2: SignerState,
    id: (Seq<u8>, Seq<u8>, u32),
)
    requires
        step(pre1, post1),
        produces_preprocess(pre1, post1, id),
        store_within(post1, pre2),
        step(pre2, post2),
    ensures
        !produces_preprocess(pre2, post2, id),
{
    lemma_preprocess_recorded(pre1, post1, id);
    assert(pre2.store().contains_key(attempt_key(id)));
    if produces_preprocess(pre2, post2, id) {
        lemma_preprocess_recorded(pre2, post2, id);
    }
}

/// Attempts only go up: a step keeps or raises the attempt of each batch that it keeps a session
/// for, and the attempt whose preprocess a step produces is above any attempt its batch had.
pub proof fn lemma_attempts_monotonic(pre: SignerState, post: SignerState)
    requires
        step(pre, post),
    ensures
        forall|id: Seq<u8>|
            #![trigger pre.sessions[id], post.sessions[id]]
            pre.sessions.contains_key(id) && post.sessions.contains_key(id) ==> pre.sessions[id].attempt
                <= post.sessions[id].attempt,
        forall|sid: (Seq<u8>, Seq<u8>, u32)|
            #[trigger] produces_preprocess(pre, post, sid) ==> post.current(sid) && (pre.sessions.contains_key(sid.1)
                ==> pre.sessions[sid.1].attempt < sid.2),
{
    assert forall|sid: (Seq<u8>, Seq<u8>, u32)|
        #[trigger] produces_preprocess(pre, post, sid) implies post.current(sid) && (pre.sessions.contains_key(sid.1)
            ==> pre.sessions[sid.1].attempt < sid.2) by {
        lemma_preprocess_recorded(pre, post, sid);
    }
}

/// Once a batch is done, signing it, handling any message about it, and learning again that it
/// was signed change nothing but the store's record that it is done, written again.
pub proof fn lemma_completion_absorbs(pre: SignerState, id: Seq<u8>)
    requires
        pre.valid(),
        pre.completed(id),
    ensures
        forall|post: SignerState, b: Batch| b.block@ == id && #[trigger] pre.sign_step(post, b) ==> pre.same(post),
        forall|post: SignerState, m: CoordinatorMessage, r: Result<(), SignerError>|
            message_batch(m) == id && #[trigger] pre.handle_step(post, m, r) ==> pre.same(post) && r is Ok,
        forall|post: SignerState|
            #[trigger] pre.batch_signed_step(post, id) ==> post.sessions == pre.sessions && post.events == pre.events
                && post.store().dom() == pre.store().dom(),
{
    assert(!pre.sessions.contains_key(id));
    assert forall|post: SignerState|
        #[trigger] pre.batch_signed_step(post, id) implies post.sessions == pre.sessions && post.events == pre.events
            && post.store().dom() == pre.store().dom() by {
        assert(post.sessions =~= pre.sessions);
        lemma_store_put(pre.history, completed_key(id), seq![1u8]);
        assert(post.store().dom() =~= pre.store().dom());
    }
}

/// The rounds of an attempt come in order, each once: a share is produced only by the attempt under
/// way, from its round-one machine, which it replaces by the round-two machine; a signed batch
/// only from the round-two machine, ending the session; a preprocess only for a new attempt,
/// which then holds the round-one machine; and at one attempt, no step goes back to an earlier
/// round.
pub proof fn lemma_round_order(pre: SignerState, post: SignerState)
    requires
        pre.valid(),
        step(pre, post),
    ensures
        forall|sid: (Seq<u8>, Seq<u8>, u32)|
            #[trigger] produces_share(pre, post, sid) ==> pre.current(sid) && pre.sessions[sid.1].stage
                == Stage::Preprocessing && post.current(sid) && post.sessions[sid.1].stage == Stage::Signing,
        forall|id: Seq<u8>|
            #[trigger] produces_signed_batch(pre, post, id) ==> pre.sessions.contains_key(id)
                && pre.sessions[id].stage == Stage::Signing && !post.sessions.contains_key(id),
        forall|sid: (Seq<u8>, Seq<u8>, u32)|
            #[trigger] produces_preprocess(pre, post, sid) ==> post.current(sid) && post.sessions[sid.1].stage
                == Stage::Preprocessing,
        forall|id: Seq<u8>|
            #![trigger pre.sessions[id], post.sessions[id]]
            pre.sessions.contains_key(id) && post.sessions.contains_key(id) && pre.sessions[id].attempt
                == post.sessions[id].attempt ==> (post.sessions[id].stage == Stage::Preprocessing
                ==> pre.sessions[id].stage == Stage::Preprocessing) && (post.sessions[id].stage == Stage::Signing
                ==> pre.sessions[id].stage != Stage::Idle),
{
    assert forall|sid: (Seq<u8>, Seq<u8>, u32)|
        #[trigger] produces_preprocess(pre, post, sid) implies post.current(sid) && post.sessions[sid.1].stage
            == Stage::Preprocessing by {
        lemma_preprocess_recorded(pre, post, sid);
    }
}

/// A message for an attempt other than the one under way for its batch changes nothing and
/// queues nothing.
pub proof fn lemma_stale_ids_ignored(pre: SignerState, post: SignerState, m: CoordinatorMessage, r: Result<(), SignerError>)
    requires
        pre.handle_step(post, m, r),
        !(m is BatchReattempt),
        !pre.current(
            match m {
                CoordinatorMessage::BatchPreprocesses { id, .. } => id@,
                CoordinatorMessage::BatchShares { id, .. } => id@,
                CoordinatorMessage::BatchReattempt { id } => id@,
            },
        ),
    ensures
        pre.same(post),
        r is Ok,
{
}

/// Starting an attempt whose preprocess was ever produced, as after a reboot, queues nothing and
/// writes nothing: the attempt is taken up holding no round machine.
pub proof fn lemma_replayed_attempt_is_silent(pre: SignerState, post: SignerState, id: Seq<u8>, a: u32)
    requires
        pre.attempt_step(post, id, a),
        pre.attempted(id, a),
    ensures
        post.events == pre.events,
        post.history == pre.history,
        pre.advances(id, a) ==> post.current(pre.sign_id(id, a)) && post.sessions[id].stage == Stage::Idle,
{
}

/// An order to start an attempt at or below the one under way, or of a batch that is done, changes
/// nothing: attempts are never lowered nor restarted.
pub proof fn lemma_no_demotion(pre: SignerState, post: SignerState, id: Seq<u8>, a: u32)
    requires
        pre.attempt_step(post, id, a),
        pre.completed(id) || (pre.sessions.contains_key(id) && a <= pre.sessions[id].attempt),
    ensures
        pre.same(post),
{
}

} // verus!
