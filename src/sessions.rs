//! The in-memory record of each batch being signed, and the table that holds one per batch.
use vstd::prelude::*;

use crate::messages::Batch;

verus! {

/// Which round machine a session holds: none, the round-one machine whose preprocess went out, or
/// the round-two machine whose share went out. It never holds both.
#[derive(Clone, Copy, Debug, PartialEq, Eq, Structural)]
pub enum Stage {
    Idle,
    Preprocessing,
    Signing,
}

/// A batch being signed, the attempt under way and the round that attempt is in.
#[derive(Debug)]
pub struct Session {
    pub batch: Batch,
    pub attempt: u32,
    pub stage: Stage,
}

/// The batch id a session is for.
pub open spec fn session_id(s: Session) -> Seq<u8> {
    s.batch.block@
}

/// No two sessions are for the same batch.
pub open spec fn ids_unique(s: Seq<Session>) -> bool {
    forall|i: int, j: int| 0 <= i < j < s.len() ==> session_id(s[i]) != session_id(s[j])
}

/// The sessions of a sequence, by batch id.
pub open spec fn session_map(s: Seq<Session>) -> Map<Seq<u8>, Session>
    decreases s.len(),
{
    if s.len() == 0 {
        Map::empty()
    } else {
        session_map(s.drop_last()).insert(session_id(s.last()), s.last())
    }
}

/// With unique ids, the map holds exactly the ids of the sequence, each with its session.
pub proof fn lemma_session_map(s: Seq<Session>)
    requires
        ids_unique(s),
    ensures
        forall|k: Seq<u8>|
            #[trigger] session_map(s).contains_key(k) <==> exists|j: int| 0 <= j < s.len() && session_id(s[j]) == k,
        forall|j: int| 0 <= j < s.len() ==> #[trigger] session_map(s)[session_id(s[j])] == s[j],
        forall|j: int| 0 <= j < s.len() ==> #[trigger] session_map(s).contains_key(session_id(s[j])),
    decreases s.len(),
{
    if s.len() > 0 {
        let f = s.drop_last();
        lemma_session_map(f);
        assert forall|k: Seq<u8>|
            #[trigger] session_map(s).contains_key(k) <==> exists|j: int| 0 <= j < s.len() && session_id(s[j]) == k by {
            if session_map(s).contains_key(k) && k != session_id(s.last()) {
                assert(session_map(f).contains_key(k));
                let j = choose|j: int| 0 <= j < f.len() && session_id(f[j]) == k;
                assert(session_id(s[j]) == k);
            }
            if exists|j: int| 0 <= j < s.len() && session_id(s[j]) == k {
                let j = choose|j: int| 0 <= j < s.len() && session_id(s[j]) == k;
                if j < s.len() - 1 {
                    assert(session_id(f[j]) == k);
                    assert(session_map(f).contains_key(k));
                }
            }
        }
        assert forall|j: int| 0 <= j < s.len() implies #[trigger] session_map(s)[session_id(s[j])] == s[j] by {
            if j < s.len() - 1 {
                assert(f[j] == s[j]);
                assert(session_id(s[j]) != session_id(s.last()));
                assert(session_map(f)[session_id(f[j])] == f[j]);
                assert(session_map(f).contains_key(session_id(f[j])));
            }
        }
        assert forall|j: int| 0 <= j < s.len() implies #[trigger] session_map(s).contains_key(session_id(s[j])) by {
            if j < s.len() - 1 {
                assert(f[j] == s[j]);
                assert(session_map(f).contains_key(session_id(f[j])));
            }
        }
    }
}

/// Adding a session for a new id keeps the ids unique and adds it to the map.
pub proof fn lemma_session_push(s: Seq<Session>, x: Session)
    requires
        ids_unique(s),
        !session_map(s).contains_key(session_id(x)),
    ensures
        ids_unique(s.push(x)),
        session_map(s.push(x)) == session_map(s).insert(session_id(x), x),
{
    lemma_session_map(s);
    assert(s.push(x).drop_last() =~= s);
    assert forall|i: int, j: int| 0 <= i < j < s.push(x).len() implies session_id(s.push(x)[i]) != session_id(
        s.push(x)[j],
    ) by {
        if j == s.len() {
            assert(session_id(s[i]) == session_id(s.push(x)[i]));
        } else {
            assert(s.push(x)[i] == s[i] && s.push(x)[j] == s[j]);
        }
    }
}

/// Moving the last session into slot `i` and dropping the last slot removes the session of slot
/// `i` from the map.
pub proof fn lemma_session_swap_remove(s: Seq<Session>, i: int)
    requires
        ids_unique(s),
        0 <= i < s.len(),
    ensures
        ids_unique(s.update(i, s.last()).drop_last()),
        session_map(s.update(i, s.last()).drop_last()) == session_map(s).remove(session_id(s[i])),
{
    let t = s.update(i, s.last()).drop_last();
    let n = s.len() - 1;
    lemma_session_map(s);
    assert forall|a: int, b: int| 0 <= a < b < t.len() implies session_id(t[a]) != session_id(t[b]) by {
        let a2 = if a == i { n } else { a };
        let b2 = if b == i { n } else { b };
        assert(t[a] == s[a2] && t[b] == s[b2]);
    }
    lemma_session_map(t);
    let m = session_map(s).remove(session_id(s[i]));
    assert forall|k: Seq<u8>| #[trigger] session_map(t).contains_key(k) <==> m.contains_key(k) by {
        if session_map(t).contains_key(k) {
            let j = choose|j: int| 0 <= j < t.len() && session_id(t[j]) == k;
            let j2 = if j == i { n } else { j };
            assert(t[j] == s[j2]);
        }
        if m.contains_key(k) {
            let j = choose|j: int| 0 <= j < s.len() && session_id(s[j]) == k;
            let j2 = if j == n { i } else { j };
            assert(t[j2] == s[j]);
        }
    }
    assert forall|k: Seq<u8>| #[trigger] session_map(t).contains_key(k) implies session_map(t)[k] == m[k] by {
        let j = choose|j: int| 0 <= j < t.len() && session_id(t[j]) == k;
        let j2 = if j == i { n } else { j };
        assert(t[j] == s[j2]);
        assert(session_map(t)[session_id(t[j])] == t[j]);
        assert(session_map(s)[session_id(s[j2])] == s[j2]);
    }
    assert(session_map(t) =~= m);
}

} // verus!
