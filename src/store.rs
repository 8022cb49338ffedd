//! A durable key-value store, kept as the log of the writes committed to it.
use vstd::prelude::*;

verus! {

/// A key and value as plain byte sequences.
pub type Write = (Seq<u8>, Seq<u8>);

/// What a log of writes holds: each key maps to the value of its latest write.
pub open spec fn log_view(log: Seq<Write>) -> Map<Seq<u8>, Seq<u8>>
    decreases log.len(),
{
    if log.len() == 0 {
        Map::empty()
    } else {
        log_view(log.drop_last()).insert(log.last().0, log.last().1)
    }
}

/// The writes of a vector of owned key/value pairs, as byte sequences.
pub open spec fn writes_of(v: Seq<(Vec<u8>, Vec<u8>)>) -> Seq<Write> {
    v.map_values(|e: (Vec<u8>, Vec<u8>)| (e.0@, e.1@))
}

/// Appending writes keeps every key that was there, and the keys written are then present.
pub proof fn lemma_log_extend(log: Seq<Write>, more: Seq<Write>)
    ensures
        forall|k: Seq<u8>| log_view(log).contains_key(k) ==> #[trigger] log_view(log + more).contains_key(k),
        forall|i: int| 0 <= i < more.len() ==> log_view(log + more).contains_key(#[trigger] more[i].0),
        forall|k: Seq<u8>|
            (forall|i: int| 0 <= i < more.len() ==> more[i].0 != k) ==> (#[trigger] log_view(log + more).contains_key(k)
                == log_view(log).contains_key(k) && (log_view(log).contains_key(k) ==> log_view(log + more)[k]
                == log_view(log)[k])),
    decreases more.len(),
{
    if more.len() == 0 {
        assert(log + more =~= log);
    } else {
        let front = more.drop_last();
        lemma_log_extend(log, front);
        assert((log + more).drop_last() =~= log + front);
        assert forall|i: int| 0 <= i < more.len() implies log_view(log + more).contains_key(#[trigger] more[i].0) by {
            if i < more.len() - 1 {
                assert(front[i] == more[i]);
            }
        }
        assert forall|k: Seq<u8>|
            (forall|i: int| 0 <= i < more.len() ==> more[i].0 != k) implies (#[trigger] log_view(log + more).contains_key(k)
                == log_view(log).contains_key(k) && (log_view(log).contains_key(k) ==> log_view(log + more)[k]
                == log_view(log)[k])) by {
            assert forall|i: int| 0 <= i < front.len() implies front[i].0 != k by {
                assert(front[i] == more[i]);
            }
            assert(more[more.len() - 1].0 != k);
            assert(log_view(log + front).contains_key(k) == log_view(log).contains_key(k));
        }
    }
}

/// Later writes that all miss a key leave what the log says of it unchanged.
proof fn lemma_log_misses(log: Seq<Write>, n: int, k: Seq<u8>)
    requires
        0 <= n <= log.len(),
        forall|i: int| n <= i < log.len() ==> log[i].0 != k,
    ensures
        log_view(log).contains_key(k) == log_view(log.take(n)).contains_key(k),
        log_view(log).contains_key(k) ==> log_view(log)[k] == log_view(log.take(n))[k],
    decreases log.len() - n,
{
    if n < log.len() {
        lemma_log_misses(log.drop_last(), n, k);
        assert(log.drop_last().take(n) =~= log.take(n));
    } else {
        assert(log.take(n) =~= log);
    }
}

/// Whether two byte strings are equal.
pub fn same_bytes(a: &[u8], b: &[u8]) -> (r: bool)
    ensures
        r == (a@ == b@),
{
    if a.len() != b.len() {
        return false;
    }
    let mut i: usize = 0;
    while i < a.len()
        invariant
            a@.len() == b@.len(),
            0 <= i <= a@.len(),
            forall|j: int| 0 <= j < i ==> a@[j] == b@[j],
        decreases a@.len() - i,
    {
        if a[i] != b[i] {
            return false;
        }
        i += 1;
    }
    assert(a@ =~= b@);
    true
}

/// An owned copy of a byte string.
pub fn copy_bytes(a: &[u8]) -> (r: Vec<u8>)
    ensures
        r@ == a@,
{
    let mut r: Vec<u8> = Vec::new();
    let mut i: usize = 0;
    while i < a.len()
        invariant
            0 <= i <= a@.len(),
            r@ == a@.take(i as int),
        decreases a@.len() - i,
    {
        r.push(a[i]);
        i += 1;
        assert(r@ =~= a@.take(i as int));
    }
    assert(a@.take(a@.len() as int) =~= a@);
    r
}

/// A write transaction: the writes it stages reach the store together, on commit.
#[derive(Debug)]
pub struct Txn {
    writes: Vec<(Vec<u8>, Vec<u8>)>,
}

impl View for Txn {
    type V = Seq<Write>;

    closed spec fn view(&self) -> Seq<Write> {
        writes_of(self.writes@)
    }
}

impl Txn {
    /// Stages a write of `value` under `key`.
    pub fn put(&mut self, key: Vec<u8>, value: Vec<u8>)
        ensures
            final(self)@ == old(self)@.push((key@, value@)),
    {
        self.writes.push((key, value));
        assert(writes_of(self.writes@) =~= writes_of(old(self).writes@).push((key@, value@)));
    }
}

/// A key-value store whose contents are the log of its committed writes.
#[derive(Debug)]
pub struct MemDb {
    log: Vec<(Vec<u8>, Vec<u8>)>,
}

impl View for MemDb {
    type V = Map<Seq<u8>, Seq<u8>>;

    open spec fn view(&self) -> Map<Seq<u8>, Seq<u8>> {
        log_view(self.history())
    }
}

impl MemDb {
    /// Every write committed so far, oldest first.
    pub closed spec fn history(&self) -> Seq<Write> {
        writes_of(self.log@)
    }

    /// An empty store.
    pub fn new() -> (r: MemDb)
        ensures
            r.history() == Seq::<Write>::empty(),
            r@ == Map::<Seq<u8>, Seq<u8>>::empty(),
    {
        let r = MemDb { log: Vec::new() };
        assert(r.history() =~= Seq::<Write>::empty());
        r
    }

    /// The value last committed under `key`, if any.
    pub fn get(&self, key: &[u8]) -> (r: Option<Vec<u8>>)
        ensures
            r.is_some() == self@.contains_key(key@),
            r.is_some() ==> r.unwrap()@ == self@[key@],
    {
        let ghost log = writes_of(self.log@);
        let mut n: usize = self.log.len();
        while n > 0
            invariant
                log == writes_of(self.log@),
                n <= self.log@.len(),
                forall|i: int| n <= i < log.len() ==> log[i].0 != key@,
            decreases n,
        {
            let e = &self.log[n - 1];
            if same_bytes(e.0.as_slice(), key) {
                proof {
                    lemma_log_misses(log, n as int, key@);
                    assert(log.take(n as int).drop_last() =~= log.take(n - 1));
                }
                return Some(copy_bytes(e.1.as_slice()));
            }
            n -= 1;
        }
        proof {
            lemma_log_misses(log, 0, key@);
            assert(log.take(0) =~= Seq::<Write>::empty());
        }
        None
    }

    /// A store holding the writes `log`, oldest first: what `writes` gave out before a crash.
    pub fn from_writes(log: Vec<(Vec<u8>, Vec<u8>)>) -> (r: MemDb)
        ensures
            r.history() == writes_of(log@),
    {
        MemDb { log }
    }

    /// Every write committed so far, oldest first, for the host to persist.
    pub fn writes(&self) -> (r: &Vec<(Vec<u8>, Vec<u8>)>)
        ensures
            writes_of(r@) == self.history(),
    {
        &self.log
    }

    /// A new write transaction on this store.
    pub fn txn(&self) -> (r: Txn)
        ensures
            r@ == Seq::<Write>::empty(),
    {
        let r = Txn { writes: Vec::new() };
        assert(r@ =~= Seq::<Write>::empty());
        r
    }

    /// Applies every write of `txn`, in order.
    pub fn commit(&mut self, txn: Txn)
        ensures
            final(self).history() == old(self).history() + txn@,
    {
        let mut writes = txn.writes;
        self.log.append(&mut writes);
        assert(writes_of(self.log@) =~= writes_of(old(self).log@) + txn@);
    }
}

} // verus!
