use substrate_signer::messages::{make_attempt_key, make_batch_key, make_completed_key};
use substrate_signer::{
    Batch, CoordinatorMessage, MemDb, ProcessorMessage, SignId, SignedBatch, SignerError, SignerFault,
    SigningRounds, SubstrateSigner, SubstrateSignerEvent,
};

const BID: [u8; 32] = [0x11; 32];
const GK: [u8; 32] = [0x22; 32];

/// Stand-in rounds: a preprocess names its attempt, an empty peer message is malformed.
#[derive(Default)]
struct FakeRounds {
    preprocessed: Vec<u32>,
    discarded: usize,
}

impl SigningRounds for FakeRounds {
    fn discard(&mut self, _batch: &[u8; 32]) {
        self.discarded += 1;
    }

    fn preprocess(&mut self, id: &SignId) -> Vec<u8> {
        self.preprocessed.push(id.attempt);
        vec![0xAA, id.attempt as u8]
    }

    fn sign(&mut self, _id: &SignId, preprocesses: Vec<(u16, Vec<u8>)>, message: &[u8]) -> Result<[u8; 32], SignerFault> {
        for (l, p) in preprocesses {
            if p.is_empty() {
                return Err(SignerFault::Malformed(l));
            }
        }
        Ok([message.len() as u8; 32])
    }

    fn complete(&mut self, _id: &SignId, shares: Vec<(u16, Vec<u8>)>) -> Result<[u8; 64], SignerFault> {
        for (l, s) in shares {
            if s.len() != 32 {
                return Err(SignerFault::Malformed(l));
            }
        }
        Ok([0x5A; 64])
    }
}

fn batch() -> Batch {
    Batch { block: BID, encoding: vec![1, 2, 3] }
}

fn sid(attempt: u32) -> SignId {
    SignId { key: GK.to_vec(), id: BID, attempt }
}

fn signer_on(db: MemDb) -> SubstrateSigner<FakeRounds> {
    SubstrateSigner::new(db, GK.to_vec(), FakeRounds::default())
}

fn preprocesses(attempt: u32) -> CoordinatorMessage {
    CoordinatorMessage::BatchPreprocesses { id: sid(attempt), preprocesses: vec![(2, vec![2]), (3, vec![3])] }
}

fn shares(attempt: u32) -> CoordinatorMessage {
    CoordinatorMessage::BatchShares { id: sid(attempt), shares: vec![(2, vec![2; 32]), (3, vec![3; 32])] }
}

fn reattempt(attempt: u32) -> CoordinatorMessage {
    CoordinatorMessage::BatchReattempt { id: sid(attempt) }
}

fn preprocess_attempt(e: &SubstrateSignerEvent) -> Option<u32> {
    match e {
        SubstrateSignerEvent::ProcessorMessage(ProcessorMessage::BatchPreprocess { id, .. }) => Some(id.attempt),
        _ => None,
    }
}

fn has(db: &MemDb, key: Vec<u8>) -> bool {
    db.get(&key).is_some()
}

#[test]
fn happy_path() {
    let mut signer = signer_on(MemDb::new());
    signer.sign(batch());
    let events = signer.drain_events();
    assert_eq!(events.len(), 1);
    match &events[0] {
        SubstrateSignerEvent::ProcessorMessage(ProcessorMessage::BatchPreprocess { id, preprocess }) => {
            assert_eq!(id.key, GK.to_vec());
            assert_eq!(id.id, BID);
            assert_eq!(id.attempt, 0);
            assert_eq!(preprocess, &vec![0xAA, 0]);
        }
        other => panic!("unexpected {:?}", other),
    }

    assert_eq!(signer.handle(preprocesses(0)), Ok(()));
    let events = signer.drain_events();
    assert_eq!(events.len(), 1);
    match &events[0] {
        SubstrateSignerEvent::ProcessorMessage(ProcessorMessage::BatchShare { id, share }) => {
            assert_eq!(id.attempt, 0);
            assert_eq!(share, &[3u8; 32]);
        }
        other => panic!("unexpected {:?}", other),
    }

    assert_eq!(signer.handle(shares(0)), Ok(()));
    let events = signer.drain_events();
    assert_eq!(events.len(), 1);
    let signed = match &events[0] {
        SubstrateSignerEvent::SignedBatch(b) => b.clone(),
        other => panic!("unexpected {:?}", other),
    };
    assert_eq!(signed.batch.block, BID);
    assert_eq!(signed.signature, [0x5A; 64]);

    let db = signer.into_db();
    assert!(has(&db, make_attempt_key(&sid(0))));
    assert!(has(&db, make_completed_key(&BID)));
    assert_eq!(db.get(&make_batch_key(&BID)), Some(signed.encode()));
    assert_eq!(db.get(&make_completed_key(&BID)), Some(vec![1]));
}

#[test]
fn reattempt_replaces_attempt() {
    let mut signer = signer_on(MemDb::new());
    signer.sign(batch());
    signer.drain_events();
    assert_eq!(signer.handle(reattempt(1)), Ok(()));
    let events = signer.drain_events();
    assert_eq!(events.len(), 1);
    assert_eq!(preprocess_attempt(&events[0]), Some(1));
    // the stale attempt's preprocesses are dropped
    assert_eq!(signer.handle(preprocesses(0)), Ok(()));
    assert!(signer.events().is_empty());
    // the current attempt goes on
    assert_eq!(signer.handle(preprocesses(1)), Ok(()));
    assert_eq!(signer.events().len(), 1);
    let db = signer.into_db();
    assert!(has(&db, make_attempt_key(&sid(1))));
}

#[test]
fn reboot_refuses_replayed_attempt() {
    let mut signer = signer_on(MemDb::new());
    signer.sign(batch());
    assert_eq!(signer.drain_events().len(), 1);
    // only what was committed survives the crash
    let saved = signer.db().writes().clone();
    drop(signer);

    let mut rebooted = signer_on(MemDb::from_writes(saved));
    // after a reboot nothing is resumed
    assert_eq!(rebooted.handle(preprocesses(0)), Ok(()));
    assert!(rebooted.events().is_empty());
    // the host orders the batch again: attempt 0 was preprocessed before, so no preprocess
    rebooted.sign(batch());
    assert!(rebooted.events().is_empty());
    assert_eq!(rebooted.handle(reattempt(0)), Ok(()));
    assert!(rebooted.events().is_empty());
    assert_eq!(rebooted.handle(reattempt(1)), Ok(()));
    let events = rebooted.drain_events();
    assert_eq!(events.len(), 1);
    assert_eq!(preprocess_attempt(&events[0]), Some(1));
}

#[test]
fn external_completion() {
    let mut signer = signer_on(MemDb::new());
    signer.sign(batch());
    signer.drain_events();
    signer.batch_signed(BID);
    assert!(signer.events().is_empty());
    signer.sign(batch());
    assert!(signer.events().is_empty());
    assert_eq!(signer.handle(reattempt(1)), Ok(()));
    assert_eq!(signer.handle(preprocesses(0)), Ok(()));
    assert_eq!(signer.handle(shares(0)), Ok(()));
    assert!(signer.events().is_empty());
    let db = signer.into_db();
    assert!(has(&db, make_completed_key(&BID)));
    assert!(!has(&db, make_attempt_key(&sid(1))));
    assert!(!has(&db, make_batch_key(&BID)));
}

#[test]
fn malicious_share_faults_attempt() {
    let mut signer = signer_on(MemDb::new());
    signer.sign(batch());
    signer.handle(preprocesses(0)).unwrap();
    signer.drain_events();
    let bad = CoordinatorMessage::BatchShares { id: sid(0), shares: vec![(2, vec![2; 32]), (3, vec![])] };
    assert_eq!(signer.handle(bad), Err(SignerError::Fault(SignerFault::Malformed(3))));
    assert!(signer.events().is_empty());
    // the attempt holds no machine any more
    assert_eq!(signer.handle(shares(0)), Ok(()));
    assert!(signer.events().is_empty());
    assert_eq!(signer.handle(reattempt(1)), Ok(()));
    let events = signer.drain_events();
    assert_eq!(events.len(), 1);
    assert_eq!(preprocess_attempt(&events[0]), Some(1));
    let db = signer.into_db();
    assert!(!has(&db, make_completed_key(&BID)));
}

#[test]
fn malformed_preprocess_faults_attempt() {
    let mut signer = signer_on(MemDb::new());
    signer.sign(batch());
    signer.drain_events();
    let bad = CoordinatorMessage::BatchPreprocesses { id: sid(0), preprocesses: vec![(2, vec![]), (3, vec![3])] };
    assert_eq!(signer.handle(bad), Err(SignerError::Fault(SignerFault::Malformed(2))));
    assert!(signer.events().is_empty());
    assert_eq!(signer.handle(preprocesses(0)), Ok(()));
    assert!(signer.events().is_empty());
}

#[test]
fn duplicate_sign_is_noop() {
    let mut signer = signer_on(MemDb::new());
    signer.sign(batch());
    signer.sign(batch());
    let events = signer.drain_events();
    assert_eq!(events.len(), 1);
    assert_eq!(preprocess_attempt(&events[0]), Some(0));
    let db = signer.into_db();
    assert!(!has(&db, make_attempt_key(&sid(1))));
}

#[test]
fn shares_without_own_share_are_refused() {
    let mut signer = signer_on(MemDb::new());
    signer.sign(batch());
    signer.drain_events();
    assert_eq!(signer.handle(shares(0)), Err(SignerError::NeverShared));
    assert!(signer.events().is_empty());
    // the round-one machine is still there
    assert_eq!(signer.handle(preprocesses(0)), Ok(()));
    assert_eq!(signer.events().len(), 1);
}

#[test]
fn reattempt_never_goes_down() {
    let mut signer = signer_on(MemDb::new());
    signer.sign(batch());
    signer.handle(reattempt(3)).unwrap();
    signer.handle(reattempt(2)).unwrap();
    signer.handle(reattempt(3)).unwrap();
    let attempts: Vec<Option<u32>> = signer.drain_events().iter().map(preprocess_attempt).collect();
    assert_eq!(attempts, vec![Some(0), Some(3)]);
    assert_eq!(signer.handle(preprocesses(2)), Ok(()));
    assert!(signer.events().is_empty());
}

#[test]
fn each_round_emitted_once() {
    let mut signer = signer_on(MemDb::new());
    signer.sign(batch());
    signer.handle(preprocesses(0)).unwrap();
    signer.handle(preprocesses(0)).unwrap();
    signer.handle(shares(0)).unwrap();
    signer.handle(shares(0)).unwrap();
    let events = signer.drain_events();
    assert_eq!(events.len(), 3);
    assert!(matches!(events[0], SubstrateSignerEvent::ProcessorMessage(ProcessorMessage::BatchPreprocess { .. })));
    assert!(matches!(events[1], SubstrateSignerEvent::ProcessorMessage(ProcessorMessage::BatchShare { .. })));
    assert!(matches!(events[2], SubstrateSignerEvent::SignedBatch(_)));
}

#[test]
fn reattempt_for_unknown_batch_is_dropped() {
    let mut signer = signer_on(MemDb::new());
    assert_eq!(signer.handle(reattempt(1)), Ok(()));
    assert!(signer.events().is_empty());
    let db = signer.into_db();
    assert!(!has(&db, make_attempt_key(&sid(1))));
}

#[test]
fn signed_batch_encoding() {
    let b = SignedBatch { batch: Batch { block: BID, encoding: vec![7, 8] }, signature: [4; 64] };
    let mut expected = vec![7, 8];
    expected.extend_from_slice(&[4; 64]);
    assert_eq!(b.encode(), expected);
}
