//! The signing state machine: it starts, checks and advances attempts, and finishes batches.
use vstd::prelude::*;

use crate::messages::{
    attempt_key, batch_key, completed_key, make_attempt_key, make_batch_key, make_completed_key,
    signed_batch_bytes, lemma_db_key_injective, attempt_tag, batch_tag, completed_tag, Batch,
    CoordinatorMessage, ProcessorMessage, SignId, SignedBatch, SubstrateSignerEvent,
};
use crate::sessions::{
    ids_unique, lemma_session_map, lemma_session_push, lemma_session_swap_remove, session_id,
    session_map, Session, Stage,
};
use crate::store::{copy_bytes, log_view, MemDb, Write};

verus! {

/// Why a signing attempt failed on what the peers sent.
#[derive(Clone, Copy, Debug, PartialEq, Eq, Structural)]
pub enum SignerFault {
    /// The message of this participant could not be read.
    Malformed(u16),
    /// The round itself failed on what was read.
    Rejected,
}

/// Why a message could not be handled.
#[derive(Clone, Copy, Debug, PartialEq, Eq, Structural)]
pub enum SignerError {
    /// A peer misbehaved: the attempt is abandoned until a reattempt.
    Fault(SignerFault),
    /// Shares arrived for an attempt that never sent its own share.
    NeverShared,
}

/// The two signing rounds over the threshold keys, kept by the host. Implementations keep the
/// round machines, and with them the nonces, by batch id.
pub trait SigningRounds {
    /// Drops any round machine held for `batch`.
    fn discard(&mut self, batch: &[u8; 32]);

    /// Makes a fresh round-one machine for attempt `id`, replacing any held for its batch, and
    /// returns its serialized preprocess.
    fn preprocess(&mut self, id: &SignId) -> Vec<u8>;

    /// Consumes the round-one machine of `id`'s batch with the peers' preprocesses and the message,
    /// keeps the round-two machine, and returns this signer's share.
    fn sign(&mut self, id: &SignId, preprocesses: Vec<(u16, Vec<u8>)>, message: &[u8]) -> Result<
        [u8; 32],
        SignerFault,
    >;

    /// Consumes the round-two machine of `id`'s batch with the peers' shares and returns the
    /// signature.
    fn complete(&mut self, id: &SignId, shares: Vec<(u16, Vec<u8>)>) -> Result<[u8; 64], SignerFault>;
}

/// The state of a signer as its contracts see it.
pub struct SignerState {
    /// The group key of the threshold keys.
    pub key: Seq<u8>,
    /// Every write committed to the store, oldest first.
    pub history: Seq<Write>,
    /// The session of each batch being signed.
    pub sessions: Map<Seq<u8>, Session>,
    /// The events queued for the host, oldest first.
    pub events: Seq<SubstrateSignerEvent>,
    /// The calls made into the signing rounds, oldest first.
    pub calls: Seq<RoundCall>,
}

/// A call the signer made into its signing rounds: what it handed over, and what came back.
pub enum RoundCall {
    /// Any round machine of `batch` was dropped.
    Discard { batch: Seq<u8> },
    /// A round-one machine was made for attempt `id`; `result` is its preprocess.
    Preprocess { id: (Seq<u8>, Seq<u8>, u32), result: Seq<u8> },
    /// The round-one machine of attempt `id` was fed the peers' preprocesses and the message.
    Sign {
        id: (Seq<u8>, Seq<u8>, u32),
        preprocesses: Seq<(u16, Seq<u8>)>,
        message: Seq<u8>,
        result: Result<[u8; 32], SignerFault>,
    },
    /// The round-two machine of attempt `id` was fed the peers' shares.
    Complete { id: (Seq<u8>, Seq<u8>, u32), shares: Seq<(u16, Seq<u8>)>, result: Result<[u8; 64], SignerFault> },
}

/// Participants' messages as byte sequences.
pub open spec fn pairs_view(v: Seq<(u16, Vec<u8>)>) -> Seq<(u16, Seq<u8>)> {
    v.map_values(|p: (u16, Vec<u8>)| (p.0, p.1@))
}

/// The preprocess carried by `e`, if it is a preprocess message.
pub open spec fn preprocess_bytes(e: SubstrateSignerEvent) -> Seq<u8> {
    match e {
        SubstrateSignerEvent::ProcessorMessage(ProcessorMessage::BatchPreprocess { preprocess, .. }) => preprocess@,
        _ => Seq::empty(),
    }
}

/// Whether `e` is this signer's preprocess for attempt `id`.
pub open spec fn is_preprocess(e: SubstrateSignerEvent, id: (Seq<u8>, Seq<u8>, u32)) -> bool {
    match e {
        SubstrateSignerEvent::ProcessorMessage(ProcessorMessage::BatchPreprocess { id: i, .. }) => i@ == id,
        _ => false,
    }
}

/// Whether `e` is this signer's share for attempt `id`.
pub open spec fn is_share(e: SubstrateSignerEvent, id: (Seq<u8>, Seq<u8>, u32)) -> bool {
    match e {
        SubstrateSignerEvent::ProcessorMessage(ProcessorMessage::BatchShare { id: i, .. }) => i@ == id,
        _ => false,
    }
}

/// Whether `post` is `pre` with one event added at the end.
pub open spec fn one_more<T>(pre: Seq<T>, post: Seq<T>) -> bool {
    post.len() == pre.len() + 1 && post.drop_last() == pre
}

impl SignerState {
    /// What the store holds.
    pub open spec fn store(self) -> Map<Seq<u8>, Seq<u8>> {
        log_view(self.history)
    }

    /// Whether batch `id` is done: signed here, or seen signed elsewhere.
    pub open spec fn completed(self, id: Seq<u8>) -> bool {
        self.store().contains_key(completed_key(id))
    }

    /// The sign id of attempt `a` of batch `id`.
    pub open spec fn sign_id(self, id: Seq<u8>, a: u32) -> (Seq<u8>, Seq<u8>, u32) {
        (self.key, id, a)
    }

    /// Whether a preprocess for attempt `a` of batch `id` was ever produced.
    pub open spec fn attempted(self, id: Seq<u8>, a: u32) -> bool {
        self.store().contains_key(attempt_key(self.sign_id(id, a)))
    }

    /// Whether a signed-batch event, wherever it stands in the queue, has its batch and its
    /// completion in the store.
    pub open spec fn signed_batches_stored(self) -> bool {
        forall|i: int|
            0 <= i < self.events.len() ==> match #[trigger] self.events[i] {
                SubstrateSignerEvent::SignedBatch(b) => self.store().contains_key(batch_key(b.batch.block@))
                    && self.store()[batch_key(b.batch.block@)] == signed_batch_bytes(b)
                    && self.completed(b.batch.block@),
                _ => true,
            }
    }

    /// Whether no batch that is done still has a session.
    pub open spec fn completed_have_no_session(self) -> bool {
        forall|id: Seq<u8>| #[trigger] self.sessions.contains_key(id) ==> !self.completed(id)
    }

    /// Whether each session is filed under the id of its batch.
    pub open spec fn sessions_keyed(self) -> bool {
        forall|id: Seq<u8>| #[trigger] self.sessions.contains_key(id) ==> self.sessions[id].batch.block@ == id
    }

    /// Whether this is a state a signer can be in.
    pub open spec fn valid(self) -> bool {
        &&& self.sessions_keyed()
        &&& self.completed_have_no_session()
        &&& self.signed_batches_stored()
    }

    /// Whether `post` differs from `self` in nothing.
    pub open spec fn same(self, post: SignerState) -> bool {
        post.key == self.key && post.history == self.history && post.sessions == self.sessions
            && post.events == self.events && post.calls == self.calls
    }

    /// `self` with the session of batch `id` at attempt `a` in `stage`.
    pub open spec fn with_stage(self, id: Seq<u8>, a: u32, stage: Stage) -> Map<Seq<u8>, Session> {
        self.sessions.insert(id, Session { batch: self.sessions[id].batch, attempt: a, stage: stage })
    }

    /// Whether attempt `a` of batch `id` is one to start: the batch is not done, is being signed,
    /// and `a` is above its current attempt.
    pub open spec fn advances(self, id: Seq<u8>, a: u32) -> bool {
        !self.completed(id) && self.sessions.contains_key(id) && self.sessions[id].attempt < a
    }

    /// Taking up attempt `a` of the session of batch `id`: the machines of the batch are dropped,
    /// the attempt is recorded and, unless a preprocess for it was ever produced, a fresh round-one
    /// machine is made after the store records the attempt, and its preprocess is queued.
    pub open spec fn begin_step(self, post: SignerState, id: Seq<u8>, a: u32) -> bool {
        let calls = self.calls.push(RoundCall::Discard { batch: id });
        &&& post.key == self.key
        &&& if self.attempted(id, a) {
            &&& post.history == self.history
            &&& post.events == self.events
            &&& post.sessions == self.with_stage(id, a, Stage::Idle)
            &&& post.calls == calls
        } else {
            &&& post.history == self.history.push((attempt_key(self.sign_id(id, a)), Seq::<u8>::empty()))
            &&& post.sessions == self.with_stage(id, a, Stage::Preprocessing)
            &&& one_more(self.events, post.events)
            &&& is_preprocess(post.events.last(), self.sign_id(id, a))
            &&& post.calls == calls.push(
                RoundCall::Preprocess { id: self.sign_id(id, a), result: preprocess_bytes(post.events.last()) },
            )
        }
    }

    /// Starting attempt `a` of batch `id`, as a reattempt order asks.
    pub open spec fn attempt_step(self, post: SignerState, id: Seq<u8>, a: u32) -> bool {
        if self.advances(id, a) {
            self.begin_step(post, id, a)
        } else {
            self.same(post)
        }
    }

    /// The state with a new session for `batch`, at attempt 0 and holding no machine.
    pub open spec fn with_new_session(self, batch: Batch) -> SignerState {
        SignerState {
            sessions: self.sessions.insert(batch.block@, Session { batch: batch, attempt: 0, stage: Stage::Idle }),
            ..self
        }
    }

    /// Ordering `batch` signed.
    pub open spec fn sign_step(self, post: SignerState, batch: Batch) -> bool {
        let id = batch.block@;
        if self.completed(id) {
            self.same(post)
        } else if self.sessions.contains_key(id) {
            &&& post.key == self.key
            &&& post.history == self.history
            &&& post.events == self.events
            &&& post.calls == self.calls
            &&& post.sessions == self.sessions.insert(id, Session { batch: batch, ..self.sessions[id] })
        } else {
            self.with_new_session(batch).begin_step(post, id, 0)
        }
    }

    /// Whether a message for attempt `id` matches the attempt under way for its batch.
    pub open spec fn current(self, id: (Seq<u8>, Seq<u8>, u32)) -> bool {
        self.sessions.contains_key(id.1) && self.sessions[id.1].attempt == id.2
    }

    /// Receiving the peers' preprocesses `pp` for attempt `id`; `r` is what the call returns. On
    /// the attempt under way, in round one, the round-one machine is fed `pp` and the batch's
    /// encoding; the share it returns is queued, and a fault it reports ends the attempt.
    pub open spec fn preprocesses_step(
        self,
        post: SignerState,
        id: SignId,
        pp: Seq<(u16, Seq<u8>)>,
        r: Result<(), SignerError>,
    ) -> bool {
        if self.current(id@) && self.sessions[id.id@].stage == Stage::Preprocessing {
            &&& post.key == self.key
            &&& post.history == self.history
            &&& one_more(self.calls, post.calls)
            &&& match post.calls.last() {
                RoundCall::Sign { id: cid, preprocesses, message, result } => {
                    &&& cid == id@
                    &&& preprocesses == pp
                    &&& message == self.sessions[id.id@].batch.encoding@
                    &&& match result {
                        Ok(share) => {
                            &&& r is Ok
                            &&& post.sessions == self.with_stage(id.id@, id.attempt, Stage::Signing)
                            &&& post.events == self.events.push(
                                SubstrateSignerEvent::ProcessorMessage(ProcessorMessage::BatchShare { id: id, share: share }),
                            )
                        },
                        Err(f) => {
                            &&& r == Err::<(), SignerError>(SignerError::Fault(f))
                            &&& post.sessions == self.with_stage(id.id@, id.attempt, Stage::Idle)
                            &&& post.events == self.events
                        },
                    }
                },
                _ => false,
            }
        } else {
            self.same(post) && r is Ok
        }
    }

    /// Receiving the peers' shares `sh` for attempt `id`; `r` is what the call returns. On the
    /// attempt under way, in round two, the round-two machine is fed `sh`; with the signature it
    /// returns, the signed batch and the record that the batch is done are committed together,
    /// the session ends and the signed batch is queued; a fault it reports ends the attempt.
    /// Shares for an attempt still in round one break the protocol: that is an error, with nothing
    /// changed.
    pub open spec fn shares_step(
        self,
        post: SignerState,
        id: SignId,
        sh: Seq<(u16, Seq<u8>)>,
        r: Result<(), SignerError>,
    ) -> bool {
        if self.current(id@) && self.sessions[id.id@].stage == Stage::Signing {
            &&& post.key == self.key
            &&& one_more(self.calls, post.calls)
            &&& match post.calls.last() {
                RoundCall::Complete { id: cid, shares, result } => {
                    &&& cid == id@
                    &&& shares == sh
                    &&& match result {
                        Ok(signature) => {
                            let signed = SignedBatch { batch: self.sessions[id.id@].batch, signature: signature };
                            &&& r is Ok
                            &&& post.events == self.events.push(SubstrateSignerEvent::SignedBatch(signed))
                            &&& post.history == self.history + seq![
                                (batch_key(id.id@), signed_batch_bytes(signed)),
                                (completed_key(id.id@), seq![1u8]),
                            ]
                            &&& post.sessions == self.sessions.remove(id.id@)
                        },
                        Err(f) => {
                            &&& r == Err::<(), SignerError>(SignerError::Fault(f))
                            &&& post.history == self.history
                            &&& post.sessions == self.with_stage(id.id@, id.attempt, Stage::Idle)
                            &&& post.events == self.events
                        },
                    }
                },
                _ => false,
            }
        } else if self.current(id@) && self.sessions[id.id@].stage == Stage::Preprocessing {
            self.same(post) && r == Err::<(), SignerError>(SignerError::NeverShared)
        } else {
            self.same(post) && r is Ok
        }
    }

    /// Handling `msg`; `r` is what the call returns.
    pub open spec fn handle_step(self, post: SignerState, msg: CoordinatorMessage, r: Result<(), SignerError>) -> bool {
        match msg {
            CoordinatorMessage::BatchPreprocesses { id, preprocesses } => self.preprocesses_step(
                post,
                id,
                pairs_view(preprocesses@),
                r,
            ),
            CoordinatorMessage::BatchShares { id, shares } => self.shares_step(post, id, pairs_view(shares@), r),
            CoordinatorMessage::BatchReattempt { id } => self.attempt_step(post, id.id@, id.attempt) && r is Ok,
        }
    }

    /// Learning that batch `id` was signed elsewhere.
    pub open spec fn batch_signed_step(self, post: SignerState, id: Seq<u8>) -> bool {
        &&& post.key == self.key
        &&& post.history == self.history.push((completed_key(id), seq![1u8]))
        &&& post.sessions == self.sessions.remove(id)
        &&& post.events == self.events
        &&& post.calls == self.calls.push(RoundCall::Discard { batch: id })
    }
}

/// A write adds its key to what the store holds.
pub proof fn lemma_store_put(h: Seq<Write>, k: Seq<u8>, v: Seq<u8>)
    ensures
        log_view(h.push((k, v))) == log_view(h).insert(k, v),
{
    assert(h.push((k, v)).drop_last() =~= h);
}

/// The keys of different kinds of record never meet, and each kind tells its items apart.
pub proof fn lemma_key_kinds()
    ensures
        forall|x: (Seq<u8>, Seq<u8>, u32), y: Seq<u8>| #![trigger attempt_key(x), completed_key(y)] attempt_key(x) != completed_key(y),
        forall|x: (Seq<u8>, Seq<u8>, u32), y: Seq<u8>| #![trigger attempt_key(x), batch_key(y)] attempt_key(x) != batch_key(y),
        forall|x: Seq<u8>, y: Seq<u8>| #![trigger batch_key(x), completed_key(y)] batch_key(x) != completed_key(y),
        forall|x: Seq<u8>, y: Seq<u8>| #![trigger batch_key(x), batch_key(y)] batch_key(x) == batch_key(y) ==> x == y,
        forall|x: Seq<u8>, y: Seq<u8>| #![trigger completed_key(x), completed_key(y)] completed_key(x) == completed_key(y) ==> x == y,
{
    assert(attempt_tag().len() == 7 && completed_tag().len() == 9 && batch_tag().len() == 5);
    assert forall|x: (Seq<u8>, Seq<u8>, u32), y: Seq<u8>| #![trigger attempt_key(x), completed_key(y)] attempt_key(x) != completed_key(y) by {
        if attempt_key(x) == completed_key(y) {
            lemma_db_key_injective(attempt_tag(), crate::messages::sign_id_bytes(x), completed_tag(), y);
        }
    }
    assert forall|x: (Seq<u8>, Seq<u8>, u32), y: Seq<u8>| #![trigger attempt_key(x), batch_key(y)] attempt_key(x) != batch_key(y) by {
        if attempt_key(x) == batch_key(y) {
            lemma_db_key_injective(attempt_tag(), crate::messages::sign_id_bytes(x), batch_tag(), y);
        }
    }
    assert forall|x: Seq<u8>, y: Seq<u8>| #![trigger batch_key(x), completed_key(y)] batch_key(x) != completed_key(y) by {
        if batch_key(x) == completed_key(y) {
            lemma_db_key_injective(batch_tag(), x, completed_tag(), y);
        }
    }
    assert forall|x: Seq<u8>, y: Seq<u8>| #![trigger batch_key(x), batch_key(y)] batch_key(x) == batch_key(y) implies x == y by {
        lemma_db_key_injective(batch_tag(), x, batch_tag(), y);
    }
    assert forall|x: Seq<u8>, y: Seq<u8>| #![trigger completed_key(x), completed_key(y)] completed_key(x) == completed_key(y) implies x == y by {
        lemma_db_key_injective(completed_tag(), x, completed_tag(), y);
    }
}

/// The coordinator of one threshold keyset.
pub struct SubstrateSigner<R: SigningRounds> {
    db: MemDb,
    group_key: Vec<u8>,
    rounds: R,
    sessions: Vec<Session>,
    events: Vec<SubstrateSignerEvent>,
    calls: Ghost<Seq<RoundCall>>,
}

impl<R: SigningRounds> View for SubstrateSigner<R> {
    type V = SignerState;

    closed spec fn view(&self) -> SignerState {
        SignerState {
            key: self.group_key@,
            history: self.db.history(),
            sessions: session_map(self.sessions@),
            events: self.events@,
            calls: self.calls@,
        }
    }
}

impl<R: SigningRounds> SubstrateSigner<R> {
    /// The signer's own invariant.
    pub closed spec fn wf(&self) -> bool {
        &&& ids_unique(self.sessions@)
        &&& self@.valid()
    }

    /// A signer is always in a state a signer can be in: in particular, each signed batch that it
    /// queued is in the store, with the record that the batch is done.
    pub proof fn lemma_valid(&self)
        requires
            self.wf(),
        ensures
            self@.valid(),
    {
    }

    /// A signer over the store `db`, with no batch being signed. A signer rebuilt from the store of
    /// an earlier one after a reboot resumes no attempt.
    pub fn new(db: MemDb, group_key: Vec<u8>, rounds: R) -> (r: Self)
        ensures
            r.wf(),
            r@.key == group_key@,
            r@.history == db.history(),
            r@.sessions == Map::<Seq<u8>, Session>::empty(),
            r@.events == Seq::<SubstrateSignerEvent>::empty(),
            r@.calls == Seq::<RoundCall>::empty(),
    {
        let r = SubstrateSigner {
            db,
            group_key,
            rounds,
            sessions: Vec::new(),
            events: Vec::new(),
            calls: Ghost(Seq::empty()),
        };
        assert(r.sessions@ =~= Seq::<Session>::empty());
        r
    }

    /// The store, given up when the signer goes away.
    pub fn into_db(self) -> (r: MemDb)
        ensures
            r.history() == self@.history,
    {
        self.db
    }

    /// The store, for the host to persist what was committed.
    pub fn db(&self) -> (r: &MemDb)
        ensures
            r.history() == self@.history,
    {
        &self.db
    }

    /// The events queued for the host.
    pub fn events(&self) -> (r: &Vec<SubstrateSignerEvent>)
        ensures
            r@ == self@.events,
    {
        &self.events
    }

    /// Hands the queued events to the host, oldest first, and empties the queue.
    pub fn drain_events(&mut self) -> (r: Vec<SubstrateSignerEvent>)
        requires
            old(self).wf(),
        ensures
            final(self).wf(),
            r@ == old(self)@.events,
            final(self)@ == (SignerState { events: Seq::empty(), ..old(self)@ }),
    {
        let mut r: Vec<SubstrateSignerEvent> = Vec::new();
        std::mem::swap(&mut r, &mut self.events);
        assert(self@ =~= (SignerState { events: Seq::empty(), ..old(self)@ }));
        r
    }

    /// Whether batch `id` is done.
    fn is_completed(&self, id: &[u8; 32]) -> (r: bool)
        ensures
            r == self@.completed(id@),
    {
        let key = make_completed_key(id);
        self.db.get(key.as_slice()).is_some()
    }

    /// The slot of the session of batch `id`.
    fn find(&self, id: &[u8; 32]) -> (r: Option<usize>)
        requires
            self.wf(),
        ensures
            match r {
                Some(i) => i < self.sessions@.len() && session_id(self.sessions@[i as int]) == id@
                    && self@.sessions.contains_key(id@) && self@.sessions[id@] == self.sessions@[i as int],
                None => !self@.sessions.contains_key(id@),
            },
    {
        proof {
            lemma_session_map(self.sessions@);
        }
        let mut i: usize = 0;
        while i < self.sessions.len()
            invariant
                self.wf(),
                i <= self.sessions@.len(),
                forall|j: int| 0 <= j < i ==> session_id(self.sessions@[j]) != id@,
            decreases self.sessions@.len() - i,
        {
            if crate::store::same_bytes(self.sessions[i].batch.block.as_slice(), id.as_slice()) {
                proof {
                    lemma_session_map(self.sessions@);
                    assert(session_id(self.sessions@[i as int]) == id@);
                    assert(self@.sessions == session_map(self.sessions@));
                    assert(session_map(self.sessions@).contains_key(id@));
                }
                return Some(i);
            }
            i += 1;
        }
        proof {
            lemma_session_map(self.sessions@);
        }
        None
    }


    /// Puts `s` in slot `i`, in place of the session of the same batch.
    fn replace_session(&mut self, i: usize, s: Session)
        requires
            ids_unique(old(self).sessions@),
            i < old(self).sessions@.len(),
            session_id(s) == session_id(old(self).sessions@[i as int]),
        ensures
            ids_unique(final(self).sessions@),
            final(self)@ == (SignerState { sessions: old(self)@.sessions.insert(session_id(s), s), ..old(self)@ }),
            final(self).sessions@.len() == old(self).sessions@.len(),
            final(self).sessions@.last() == s,
    {
        proof {
            lemma_session_swap_remove(self.sessions@, i as int);
        }
        self.sessions.swap_remove(i);
        proof {
            lemma_session_map(old(self).sessions@);
            lemma_session_push(self.sessions@, s);
        }
        self.sessions.push(s);
        assert(self@.sessions =~= old(self)@.sessions.insert(session_id(s), s));
        assert(self@ =~= (SignerState { sessions: old(self)@.sessions.insert(session_id(s), s), ..old(self)@ }));
    }

    /// Takes the session of slot `i` out.
    fn remove_session(&mut self, i: usize) -> (r: Session)
        requires
            ids_unique(old(self).sessions@),
            i < old(self).sessions@.len(),
        ensures
            ids_unique(final(self).sessions@),
            r == old(self).sessions@[i as int],
            final(self)@ == (SignerState { sessions: old(self)@.sessions.remove(session_id(r)), ..old(self)@ }),
    {
        proof {
            lemma_session_swap_remove(self.sessions@, i as int);
        }
        let r = self.sessions.swap_remove(i);
        assert(self@ =~= (SignerState { sessions: old(self)@.sessions.remove(session_id(r)), ..old(self)@ }));
        r
    }

    /// Takes up attempt `attempt` for the session of slot `i`, and produces its preprocess unless
    /// one was ever produced for it.
    fn begin(&mut self, i: usize, attempt: u32)
        requires
            old(self).wf(),
            i < old(self).sessions@.len(),
            !old(self)@.completed(session_id(old(self).sessions@[i as int])),
        ensures
            final(self).wf(),
            old(self)@.begin_step(final(self)@, session_id(old(self).sessions@[i as int]), attempt),
    {
        let ghost pre = self@;
        let id: [u8; 32] = self.sessions[i].batch.block;
        proof {
            lemma_session_map(self.sessions@);
        }
        self.rounds.discard(&id);
        self.calls = Ghost(self.calls@.push(RoundCall::Discard { batch: id@ }));
        let ghost calls = self.calls@;
        let batch = self.remove_session(i);
        let s = Session { batch: batch.batch, attempt, stage: Stage::Idle };
        proof {
            lemma_session_push(self.sessions@, s);
        }
        self.sessions.push(s);
        assert(self@.sessions =~= pre.with_stage(id@, attempt, Stage::Idle));
        let sign_id = SignId { key: copy_bytes(self.group_key.as_slice()), id, attempt };
        let key = make_attempt_key(&sign_id);
        if self.db.get(key.as_slice()).is_some() {
            assert(self@.history == pre.history);
            return;
        }
        let mut txn = self.db.txn();
        txn.put(key, Vec::new());
        self.db.commit(txn);
        assert(self.db.history() =~= pre.history.push((attempt_key(pre.sign_id(id@, attempt)), Seq::<u8>::empty())));
        proof {
            lemma_store_put(pre.history, attempt_key(pre.sign_id(id@, attempt)), Seq::<u8>::empty());
            lemma_key_kinds();
        }
        let preprocess = self.rounds.preprocess(&sign_id);
        self.calls = Ghost(calls.push(RoundCall::Preprocess { id: sign_id@, result: preprocess@ }));
        let last = self.sessions.len() - 1;
        let batch = self.remove_session(last);
        let s = Session { batch: batch.batch, attempt, stage: Stage::Preprocessing };
        proof {
            lemma_session_push(self.sessions@, s);
        }
        self.sessions.push(s);
        assert(self@.sessions =~= pre.with_stage(id@, attempt, Stage::Preprocessing));
        self.events.push(SubstrateSignerEvent::ProcessorMessage(
            ProcessorMessage::BatchPreprocess { id: sign_id, preprocess },
        ));
        assert(self@.events.drop_last() =~= pre.events);
    }

    /// Starts attempt `attempt` of batch `id`, if the batch is not done, is being signed, and
    /// the attempt is above the current one.
    fn attempt(&mut self, id: [u8; 32], attempt: u32)
        requires
            old(self).wf(),
        ensures
            final(self).wf(),
            old(self)@.attempt_step(final(self)@, id@, attempt),
    {
        if self.is_completed(&id) {
            return;
        }
        match self.find(&id) {
            None => {},
            Some(i) => {
                if self.sessions[i].attempt < attempt {
                    self.begin(i, attempt);
                }
            },
        }
    }

    /// Orders `batch` signed. A batch that is done is left alone; one already being signed keeps
    /// its attempt and takes the new payload; a new one starts at attempt 0.
    pub fn sign(&mut self, batch: Batch)
        requires
            old(self).wf(),
        ensures
            final(self).wf(),
            old(self)@.sign_step(final(self)@, batch),
    {
        let ghost pre = self@;
        let id: [u8; 32] = batch.block;
        if self.is_completed(&id) {
            return;
        }
        match self.find(&id) {
            Some(i) => {
                let attempt = self.sessions[i].attempt;
                let stage = self.sessions[i].stage;
                self.replace_session(i, Session { batch, attempt, stage });
            },
            None => {
                let s = Session { batch, attempt: 0, stage: Stage::Idle };
                proof {
                    lemma_session_push(self.sessions@, s);
                }
                self.sessions.push(s);
                assert(self@ =~= pre.with_new_session(batch));
                let last = self.sessions.len() - 1;
                self.begin(last, 0);
            },
        }
    }

    /// The slot of the session that attempt `id` is for, if that attempt is the one under way.
    fn verify_id(&self, id: &SignId) -> (r: Option<usize>)
        requires
            self.wf(),
        ensures
            r.is_some() == self@.current(id@),
            r.is_some() ==> r.unwrap() < self.sessions@.len() && self@.sessions[id.id@] == self.sessions@[r.unwrap() as int]
                && session_id(self.sessions@[r.unwrap() as int]) == id.id@,
    {
        match self.find(&id.id) {
            None => None,
            Some(i) => {
                if self.sessions[i].attempt == id.attempt {
                    Some(i)
                } else {
                    None
                }
            },
        }
    }

    /// Handles a message of the coordinator service. A message for an attempt other than the one
    /// under way changes nothing. A malformed or failing peer message ends the attempt with
    /// `SignerError::Fault`, until a reattempt. Shares for an attempt that is still in round one
    /// mean the coordinator service broke the protocol, an invariant breach: since the message
    /// comes from outside, the breach is surfaced as `SignerError::NeverShared`, with nothing
    /// changed, for the host to treat as fatal.
    pub fn handle(&mut self, msg: CoordinatorMessage) -> (r: Result<(), SignerError>)
        requires
            old(self).wf(),
        ensures
            final(self).wf(),
            old(self)@.handle_step(final(self)@, msg, r),
    {
        let ghost pre = self@;
        match msg {
            CoordinatorMessage::BatchPreprocesses { id, preprocesses } => {
                let i = match self.verify_id(&id) {
                    None => return Ok(()),
                    Some(i) => i,
                };
                if self.sessions[i].stage != Stage::Preprocessing {
                    return Ok(());
                }
                let attempt = self.sessions[i].attempt;
                let session = self.remove_session(i);
                let ghost pp = pairs_view(preprocesses@);
                let result = self.rounds.sign(&id, preprocesses, session.batch.encoding.as_slice());
                self.calls = Ghost(
                    pre.calls.push(
                        RoundCall::Sign { id: id@, preprocesses: pp, message: session.batch.encoding@, result },
                    ),
                );
                assert(self@.calls.drop_last() =~= pre.calls);
                match result {
                    Err(fault) => {
                        let s = Session { batch: session.batch, attempt, stage: Stage::Idle };
                        proof {
                            lemma_session_push(self.sessions@, s);
                        }
                        self.sessions.push(s);
                        assert(self@.sessions =~= pre.with_stage(id.id@, id.attempt, Stage::Idle));
                        Err(SignerError::Fault(fault))
                    },
                    Ok(share) => {
                        let s = Session { batch: session.batch, attempt, stage: Stage::Signing };
                        proof {
                            lemma_session_push(self.sessions@, s);
                        }
                        self.sessions.push(s);
                        assert(self@.sessions =~= pre.with_stage(id.id@, id.attempt, Stage::Signing));
                        self.events.push(SubstrateSignerEvent::ProcessorMessage(
                            ProcessorMessage::BatchShare { id, share },
                        ));
                        assert(self@.events.drop_last() =~= pre.events);
                        Ok(())
                    },
                }
            },
            CoordinatorMessage::BatchShares { id, shares } => {
                let i = match self.verify_id(&id) {
                    None => return Ok(()),
                    Some(i) => i,
                };
                if self.sessions[i].stage == Stage::Preprocessing {
                    return Err(SignerError::NeverShared);
                }
                if self.sessions[i].stage == Stage::Idle {
                    return Ok(());
                }
                let attempt = self.sessions[i].attempt;
                let session = self.remove_session(i);
                let ghost sh = pairs_view(shares@);
                let result = self.rounds.complete(&id, shares);
                self.calls = Ghost(pre.calls.push(RoundCall::Complete { id: id@, shares: sh, result }));
                assert(self@.calls.drop_last() =~= pre.calls);
                match result {
                    Err(fault) => {
                        let s = Session { batch: session.batch, attempt, stage: Stage::Idle };
                        proof {
                            lemma_session_push(self.sessions@, s);
                        }
                        self.sessions.push(s);
                        assert(self@.sessions =~= pre.with_stage(id.id@, id.attempt, Stage::Idle));
                        Err(SignerError::Fault(fault))
                    },
                    Ok(signature) => {
                        let signed = SignedBatch { batch: session.batch, signature };
                        let mut txn = self.db.txn();
                        txn.put(make_batch_key(&id.id), signed.encode());
                        let one: Vec<u8> = vec![1u8];
                        assert(one@ =~= seq![1u8]);
                        txn.put(make_completed_key(&id.id), one);
                        self.db.commit(txn);
                        let ghost w1 = (batch_key(id.id@), signed_batch_bytes(signed));
                        let ghost w2 = (completed_key(id.id@), seq![1u8]);
                        assert(self@.history =~= pre.history + seq![w1, w2]);
                        assert(self@.history =~= pre.history.push(w1).push(w2));
                        proof {
                            lemma_store_put(pre.history, w1.0, w1.1);
                            lemma_store_put(pre.history.push(w1), w2.0, w2.1);
                            lemma_key_kinds();
                        }
                        self.events.push(SubstrateSignerEvent::SignedBatch(signed));
                        assert(self@.events.drop_last() =~= pre.events);
                        proof {
                            assert forall|j: int| 0 <= j < self@.events.len() implies match #[trigger] self@.events[j] {
                                SubstrateSignerEvent::SignedBatch(b) => self@.store().contains_key(batch_key(b.batch.block@))
                                    && self@.store()[batch_key(b.batch.block@)] == signed_batch_bytes(b)
                                    && self@.completed(b.batch.block@),
                                _ => true,
                            } by {
                                if j < pre.events.len() {
                                    assert(self@.events[j] == pre.events[j]);
                                    match pre.events[j] {
                                        SubstrateSignerEvent::SignedBatch(b) => {
                                            assert(pre.completed(b.batch.block@));
                                            assert(b.batch.block@ != id.id@);
                                        },
                                        _ => {},
                                    }
                                }
                            }
                        }
                        Ok(())
                    },
                }
            },
            CoordinatorMessage::BatchReattempt { id } => {
                self.attempt(id.id, id.attempt);
                Ok(())
            },
        }
    }

    /// Records that batch `block` was signed elsewhere, and stops signing it. Nothing is queued:
    /// the host already knows.
    pub fn batch_signed(&mut self, block: [u8; 32])
        requires
            old(self).wf(),
        ensures
            final(self).wf(),
            old(self)@.batch_signed_step(final(self)@, block@),
    {
        let ghost pre = self@;
        match self.find(&block) {
            None => {
                assert(self@.sessions =~= pre.sessions.remove(block@));
            },
            Some(i) => {
                self.remove_session(i);
            },
        }
        let one: Vec<u8> = vec![1u8];
        assert(one@ =~= seq![1u8]);
        let mut txn = self.db.txn();
        txn.put(make_completed_key(&block), one);
        self.db.commit(txn);
        let ghost w = (completed_key(block@), seq![1u8]);
        assert(self@.history =~= pre.history.push(w));
        proof {
            lemma_store_put(pre.history, w.0, w.1);
            lemma_key_kinds();
        }
        self.rounds.discard(&block);
        self.calls = Ghost(pre.calls.push(RoundCall::Discard { batch: block@ }));
    }
} // impl

} // verus!
