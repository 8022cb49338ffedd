//! The values the coordinator exchanges with its host, and how they are laid out as bytes.
use vstd::prelude::*;

verus! {

/// Identifies one attempt at signing one batch: the group key, the batch id and the attempt index.
#[derive(Clone, Debug)]
pub struct SignId {
    pub key: Vec<u8>,
    pub id: [u8; 32],
    pub attempt: u32,
}

impl View for SignId {
    type V = (Seq<u8>, Seq<u8>, u32);

    open spec fn view(&self) -> (Seq<u8>, Seq<u8>, u32) {
        (self.key@, self.id@, self.attempt)
    }
}

/// A batch to be signed: its id (the hash of the block it came from) and its canonical encoding,
/// which is the message that gets signed.
#[derive(Clone, Debug)]
pub struct Batch {
    pub block: [u8; 32],
    pub encoding: Vec<u8>,
}

/// A batch with the group's Schnorr signature over its encoding.
#[derive(Clone, Debug)]
pub struct SignedBatch {
    pub batch: Batch,
    pub signature: [u8; 64],
}

/// A message from the coordinator service, which fans messages out between the cosigners.
#[derive(Debug)]
pub enum CoordinatorMessage {
    BatchPreprocesses { id: SignId, preprocesses: Vec<(u16, Vec<u8>)> },
    BatchShares { id: SignId, shares: Vec<(u16, Vec<u8>)> },
    BatchReattempt { id: SignId },
}

/// A message for the coordinator service.
#[derive(Debug)]
pub enum ProcessorMessage {
    BatchPreprocess { id: SignId, preprocess: Vec<u8> },
    BatchShare { id: SignId, share: [u8; 32] },
}

/// What the signer queues for its host.
#[derive(Debug)]
pub enum SubstrateSignerEvent {
    ProcessorMessage(ProcessorMessage),
    SignedBatch(SignedBatch),
}

/// The namespace under which the signer keeps its records.
pub open spec fn namespace() -> Seq<u8> {
    seq![83u8, 85, 66, 83, 84, 82, 65, 84, 69, 95, 83, 73, 71, 78, 69, 82]
}

/// The discriminant of the records marking an attempt as made.
pub open spec fn attempt_tag() -> Seq<u8> {
    seq![97u8, 116, 116, 101, 109, 112, 116]
}

/// The discriminant of the records marking a batch as done.
pub open spec fn completed_tag() -> Seq<u8> {
    seq![99u8, 111, 109, 112, 108, 101, 116, 101, 100]
}

/// The discriminant of the records holding a signed batch.
pub open spec fn batch_tag() -> Seq<u8> {
    seq![98u8, 97, 116, 99, 104]
}

/// A store key: the namespace and the discriminant, each after its length, then the item.
pub open spec fn db_key(dst: Seq<u8>, item: Seq<u8>) -> Seq<u8> {
    seq![namespace().len() as u8] + namespace() + seq![dst.len() as u8] + dst + item
}

/// The big-endian bytes of a 32-bit integer.
pub open spec fn be32(x: u32) -> Seq<u8> {
    seq![(x / 0x1000000) as u8, ((x / 0x10000) % 0x100) as u8, ((x / 0x100) % 0x100) as u8, (x % 0x100) as u8]
}

/// The big-endian bytes of a 64-bit integer.
pub open spec fn be64(x: u64) -> Seq<u8> {
    be32((x / 0x100000000) as u32) + be32((x % 0x100000000) as u32)
}

/// The bytes of a sign id: the group key after its length, the batch id, the attempt index.
pub open spec fn sign_id_bytes(id: (Seq<u8>, Seq<u8>, u32)) -> Seq<u8> {
    be64(id.0.len() as u64) + id.0 + id.1 + be32(id.2)
}

/// The key of the record marking that a preprocess was produced for this attempt.
pub open spec fn attempt_key(id: (Seq<u8>, Seq<u8>, u32)) -> Seq<u8> {
    db_key(attempt_tag(), sign_id_bytes(id))
}

/// The key of the record marking a batch as done.
pub open spec fn completed_key(batch: Seq<u8>) -> Seq<u8> {
    db_key(completed_tag(), batch)
}

/// The key of the record holding a signed batch.
pub open spec fn batch_key(batch: Seq<u8>) -> Seq<u8> {
    db_key(batch_tag(), batch)
}

/// The canonical encoding of a signed batch: the batch's encoding, then the signature.
pub open spec fn signed_batch_bytes(b: SignedBatch) -> Seq<u8> {
    b.batch.encoding@ + b.signature@
}

/// Keys under different discriminants differ, and under one discriminant they differ with the
/// item.
pub proof fn lemma_db_key_injective(d1: Seq<u8>, x1: Seq<u8>, d2: Seq<u8>, x2: Seq<u8>)
    requires
        d1.len() < 256,
        d2.len() < 256,
        db_key(d1, x1) == db_key(d2, x2),
    ensures
        d1 == d2,
        x1 == x2,
{
    assert(db_key(d1, x1)[17] == d1.len() as u8);
    assert(db_key(d2, x2)[17] == d2.len() as u8);
    assert(d1.len() == d2.len());
    assert(db_key(d1, x1).subrange(18, 18 + d1.len() as int) =~= d1);
    assert(db_key(d2, x2).subrange(18, 18 + d2.len() as int) =~= d2);
    let n = 18 + d1.len() as int;
    assert(db_key(d1, x1).subrange(n, db_key(d1, x1).len() as int) =~= x1);
    assert(db_key(d2, x2).subrange(n, db_key(d2, x2).len() as int) =~= x2);
}

/// The bytes of a 32-bit integer tell it apart.
pub proof fn lemma_be32_injective(x: u32, y: u32)
    requires
        be32(x) == be32(y),
    ensures
        x == y,
{
    assert(be32(x)[0] == be32(y)[0] && be32(x)[1] == be32(y)[1] && be32(x)[2] == be32(y)[2] && be32(x)[3] == be32(y)[3]);
    assert(((x / 0x1000000) as u8 == (y / 0x1000000) as u8 && ((x / 0x10000) % 0x100) as u8 == ((y / 0x10000) % 0x100) as u8
        && ((x / 0x100) % 0x100) as u8 == ((y / 0x100) % 0x100) as u8 && (x % 0x100) as u8 == (y % 0x100) as u8) ==> x == y)
        by (bit_vector);
}

/// Different sign ids have different bytes.
pub proof fn lemma_sign_id_bytes_injective(a: (Seq<u8>, Seq<u8>, u32), b: (Seq<u8>, Seq<u8>, u32))
    requires
        a.0.len() <= u64::MAX,
        b.0.len() <= u64::MAX,
        a.1.len() == 32,
        b.1.len() == 32,
        sign_id_bytes(a) == sign_id_bytes(b),
    ensures
        a == b,
{
    let (sa, sb) = (sign_id_bytes(a), sign_id_bytes(b));
    let (la, lb) = (a.0.len() as u64, b.0.len() as u64);
    assert(be64(la) =~= sa.subrange(0, 8));
    assert(be64(lb) =~= sb.subrange(0, 8));
    assert(be32((la / 0x100000000) as u32) =~= be64(la).subrange(0, 4));
    assert(be32((lb / 0x100000000) as u32) =~= be64(lb).subrange(0, 4));
    assert(be32((la % 0x100000000) as u32) =~= be64(la).subrange(4, 8));
    assert(be32((lb % 0x100000000) as u32) =~= be64(lb).subrange(4, 8));
    lemma_be32_injective((la / 0x100000000) as u32, (lb / 0x100000000) as u32);
    lemma_be32_injective((la % 0x100000000) as u32, (lb % 0x100000000) as u32);
    assert(la == lb);
    let n = 8 + a.0.len() as int;
    assert(sa.subrange(8, n) =~= a.0);
    assert(sb.subrange(8, n) =~= b.0);
    assert(sa.subrange(n, n + 32) =~= a.1);
    assert(sb.subrange(n, n + 32) =~= b.1);
    assert(sa.subrange(n + 32, n + 36) =~= be32(a.2));
    assert(sb.subrange(n + 32, n + 36) =~= be32(b.2));
    lemma_be32_injective(a.2, b.2);
}

/// Appends `s` to `v`.
fn push_all(v: &mut Vec<u8>, s: &[u8])
    ensures
        final(v)@ == old(v)@ + s@,
{
    let mut i: usize = 0;
    while i < s.len()
        invariant
            0 <= i <= s@.len(),
            v@ == old(v)@ + s@.take(i as int),
        decreases s@.len() - i,
    {
        v.push(s[i]);
        i += 1;
        assert(v@ =~= old(v)@ + s@.take(i as int));
    }
    assert(s@.take(s@.len() as int) =~= s@);
}

/// Appends the big-endian bytes of `x`.
fn push_be32(v: &mut Vec<u8>, x: u32)
    ensures
        final(v)@ == old(v)@ + be32(x),
{
    v.push((x / 0x1000000) as u8);
    v.push(((x / 0x10000) % 0x100) as u8);
    v.push(((x / 0x100) % 0x100) as u8);
    v.push((x % 0x100) as u8);
    assert(v@ =~= old(v)@ + be32(x));
}

/// Builds the store key for `item` under the discriminant `dst`.
fn make_db_key(dst: &[u8], item: &[u8]) -> (r: Vec<u8>)
    requires
        dst@.len() < 256,
    ensures
        r@ == db_key(dst@, item@),
{
    let mut r: Vec<u8> = vec![16u8, 83, 85, 66, 83, 84, 82, 65, 84, 69, 95, 83, 73, 71, 78, 69, 82];
    r.push(dst.len() as u8);
    push_all(&mut r, dst);
    push_all(&mut r, item);
    assert(r@ =~= db_key(dst@, item@));
    r
}

/// The bytes of a sign id, as `sign_id_bytes` lays them out.
pub fn encode_sign_id(id: &SignId) -> (r: Vec<u8>)
    ensures
        r@ == sign_id_bytes(id@),
{
    let mut r: Vec<u8> = Vec::new();
    let n = id.key.len() as u64;
    push_be32(&mut r, (n / 0x100000000) as u32);
    push_be32(&mut r, (n % 0x100000000) as u32);
    push_all(&mut r, id.key.as_slice());
    push_all(&mut r, id.id.as_slice());
    push_be32(&mut r, id.attempt);
    assert(r@ =~= sign_id_bytes(id@));
    r
}

/// The key of the record marking attempt `id` as made.
pub fn make_attempt_key(id: &SignId) -> (r: Vec<u8>)
    ensures
        r@ == attempt_key(id@),
{
    let tag: Vec<u8> = vec![97u8, 116, 116, 101, 109, 112, 116];
    assert(tag@ =~= attempt_tag());
    make_db_key(tag.as_slice(), encode_sign_id(id).as_slice())
}

/// The key of the record marking batch `id` as done.
pub fn make_completed_key(id: &[u8; 32]) -> (r: Vec<u8>)
    ensures
        r@ == completed_key(id@),
{
    let tag: Vec<u8> = vec![99u8, 111, 109, 112, 108, 101, 116, 101, 100];
    assert(tag@ =~= completed_tag());
    make_db_key(tag.as_slice(), id.as_slice())
}

/// The key of the record holding the signed batch `id`.
pub fn make_batch_key(id: &[u8; 32]) -> (r: Vec<u8>)
    ensures
        r@ == batch_key(id@),
{
    let tag: Vec<u8> = vec![98u8, 97, 116, 99, 104];
    assert(tag@ =~= batch_tag());
    make_db_key(tag.as_slice(), id.as_slice())
}

impl SignedBatch {
    /// The canonical encoding of this signed batch.
    pub fn encode(&self) -> (r: Vec<u8>)
        ensures
            r@ == signed_batch_bytes(*self),
    {
        let mut r: Vec<u8> = Vec::new();
        push_all(&mut r, self.batch.encoding.as_slice());
        push_all(&mut r, self.signature.as_slice());
        assert(r@ =~= signed_batch_bytes(*self));
        r
    }
}

} // verus!
