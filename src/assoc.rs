//! Association lists keyed by byte strings, and the maps they denote.
use vstd::prelude::*;

verus! {

/// The map that an association list denotes; a later entry wins over an
/// earlier one with the same key.
pub open spec fn assoc_map<V>(p: Seq<(Seq<u8>, V)>) -> Map<Seq<u8>, V>
    decreases p.len(),
{
    if p.len() == 0 {
        Map::empty()
    } else {
        assoc_map(p.drop_last()).insert(p.last().0, p.last().1)
    }
}

/// No key occurs twice in the list.
pub open spec fn unique_keys<V>(p: Seq<(Seq<u8>, V)>) -> bool {
    forall|i: int, j: int|
        0 <= i < p.len() && 0 <= j < p.len() && i != j ==> #[trigger] p[i].0 != #[trigger] p[j].0
}

pub proof fn lemma_assoc_push<V>(p: Seq<(Seq<u8>, V)>, e: (Seq<u8>, V))
    ensures
        assoc_map(p.push(e)) == assoc_map(p).insert(e.0, e.1),
{
    assert(p.push(e).drop_last() =~= p);
}

pub proof fn lemma_unique_push<V>(p: Seq<(Seq<u8>, V)>, e: (Seq<u8>, V))
    requires
        unique_keys(p),
        !assoc_map(p).contains_key(e.0),
    ensures
        unique_keys(p.push(e)),
{
    let q = p.push(e);
    assert forall|i: int| 0 <= i < p.len() implies #[trigger] p[i].0 != e.0 by {
        lemma_assoc_get(p, i);
    }
    assert forall|a: int, b: int|
        0 <= a < q.len() && 0 <= b < q.len() && a != b implies #[trigger] q[a].0
        != #[trigger] q[b].0 by {
        if a < p.len() {
            assert(q[a] == p[a]);
        }
        if b < p.len() {
            assert(q[b] == p[b]);
        }
    }
}

pub proof fn lemma_assoc_absent<V>(p: Seq<(Seq<u8>, V)>, k: Seq<u8>)
    requires
        forall|i: int| 0 <= i < p.len() ==> #[trigger] p[i].0 != k,
    ensures
        !assoc_map(p).contains_key(k),
    decreases p.len(),
{
    if p.len() > 0 {
        let q = p.drop_last();
        assert forall|i: int| 0 <= i < q.len() implies #[trigger] q[i].0 != k by {
            assert(q[i] == p[i]);
        }
        lemma_assoc_absent(q, k);
        assert(p[p.len() - 1].0 != k);
    }
}

pub proof fn lemma_assoc_get<V>(p: Seq<(Seq<u8>, V)>, i: int)
    requires
        unique_keys(p),
        0 <= i < p.len(),
    ensures
        assoc_map(p).contains_key(p[i].0),
        assoc_map(p)[p[i].0] == p[i].1,
    decreases p.len(),
{
    if i < p.len() - 1 {
        let q = p.drop_last();
        assert(q[i] == p[i]);
        assert(unique_keys(q)) by {
            assert forall|a: int, b: int|
                0 <= a < q.len() && 0 <= b < q.len() && a != b implies #[trigger] q[a].0
                != #[trigger] q[b].0 by {
                assert(q[a] == p[a] && q[b] == p[b]);
            }
        }
        lemma_assoc_get(q, i);
        assert(p[p.len() - 1].0 != p[i].0);
    }
}

proof fn lemma_unique_drop_last<V>(p: Seq<(Seq<u8>, V)>)
    requires
        unique_keys(p),
        p.len() > 0,
    ensures
        unique_keys(p.drop_last()),
        forall|i: int| 0 <= i < p.len() - 1 ==> #[trigger] p.drop_last()[i].0 != p.last().0,
{
    let q = p.drop_last();
    assert forall|a: int, b: int|
        0 <= a < q.len() && 0 <= b < q.len() && a != b implies #[trigger] q[a].0
        != #[trigger] q[b].0 by {
        assert(q[a] == p[a] && q[b] == p[b]);
    }
    assert forall|i: int| 0 <= i < p.len() - 1 implies #[trigger] q[i].0 != p.last().0 by {
        assert(q[i] == p[i]);
    }
}

pub proof fn lemma_assoc_update<V>(p: Seq<(Seq<u8>, V)>, i: int, v: V)
    requires
        unique_keys(p),
        0 <= i < p.len(),
    ensures
        assoc_map(p.update(i, (p[i].0, v))) == assoc_map(p).insert(p[i].0, v),
        unique_keys(p.update(i, (p[i].0, v))),
    decreases p.len(),
{
    let k = p[i].0;
    let q = p.update(i, (k, v));
    let dl = p.drop_last();
    lemma_unique_drop_last(p);
    if i == p.len() - 1 {
        assert(q.drop_last() =~= dl);
        assert(assoc_map(q) =~= assoc_map(p).insert(k, v));
    } else {
        assert(dl[i] == p[i]);
        lemma_assoc_update(dl, i, v);
        assert(q.drop_last() =~= dl.update(i, (k, v)));
        assert(p.last().0 != k);
        assert(assoc_map(q) =~= assoc_map(p).insert(k, v));
    }
    assert forall|a: int, b: int|
        0 <= a < q.len() && 0 <= b < q.len() && a != b implies #[trigger] q[a].0
        != #[trigger] q[b].0 by {
        assert(q[a].0 == p[a].0 && q[b].0 == p[b].0);
    }
}

pub proof fn lemma_assoc_remove<V>(p: Seq<(Seq<u8>, V)>, i: int)
    requires
        unique_keys(p),
        0 <= i < p.len(),
    ensures
        assoc_map(p.remove(i)) == assoc_map(p).remove(p[i].0),
        unique_keys(p.remove(i)),
    decreases p.len(),
{
    let k = p[i].0;
    let q = p.remove(i);
    let dl = p.drop_last();
    lemma_unique_drop_last(p);
    if i == p.len() - 1 {
        assert(q =~= dl);
        lemma_assoc_absent(dl, k);
        assert(assoc_map(q) =~= assoc_map(p).remove(k));
    } else {
        assert(dl[i] == p[i]);
        lemma_assoc_remove(dl, i);
        assert(q.drop_last() =~= dl.remove(i));
        assert(q.last() == p.last());
        assert(p.last().0 != k);
        assert(assoc_map(q) =~= assoc_map(p).remove(k));
    }
    assert forall|a: int, b: int|
        0 <= a < q.len() && 0 <= b < q.len() && a != b implies #[trigger] q[a].0
        != #[trigger] q[b].0 by {
        let a2 = if a < i { a } else { a + 1 };
        let b2 = if b < i { b } else { b + 1 };
        assert(q[a] == p[a2] && q[b] == p[b2]);
    }
}

pub proof fn lemma_assoc_len<V>(p: Seq<(Seq<u8>, V)>)
    requires
        unique_keys(p),
    ensures
        assoc_map(p).dom().finite(),
        assoc_map(p).dom().len() == p.len(),
    decreases p.len(),
{
    if p.len() > 0 {
        let dl = p.drop_last();
        lemma_unique_drop_last(p);
        lemma_assoc_len(dl);
        lemma_assoc_absent(dl, p.last().0);
    }
}

/// Byte-for-byte equality of two byte strings.
pub fn bytes_eq(a: &Vec<u8>, b: &Vec<u8>) -> (r: bool)
    ensures
        r == (a@ == b@),
{
    if a.len() != b.len() {
        return false;
    }
    let mut i: usize = 0;
    while i < a.len()
        invariant
            a@.len() == b@.len(),
            i <= a@.len(),
            forall|j: int| 0 <= j < i ==> a@[j] == b@[j],
        decreases a@.len() - i,
    {
        if a[i] != b[i] {
            return false;
        }
        i = i + 1;
    }
    assert(a@ =~= b@);
    true
}

/// The position of key `k` in an association list, if it occurs.
pub fn find_key<V>(p: &Vec<(Vec<u8>, V)>, k: &Vec<u8>) -> (r: Option<usize>)
    ensures
        match r {
            Some(i) => i < p@.len() && p@[i as int].0@ == k@,
            None => forall|i: int| 0 <= i < p@.len() ==> #[trigger] p@[i].0@ != k@,
        },
{
    let mut i: usize = 0;
    while i < p.len()
        invariant
            i <= p@.len(),
            forall|j: int| 0 <= j < i ==> #[trigger] p@[j].0@ != k@,
        decreases p@.len() - i,
    {
        if bytes_eq(&p[i].0, k) {
            return Some(i);
        }
        i = i + 1;
    }
    None
}

/// A fresh copy of a byte string.
pub fn copy_bytes(v: &Vec<u8>) -> (r: Vec<u8>)
    ensures
        r@ == v@,
{
    let mut r: Vec<u8> = Vec::new();
    let mut i: usize = 0;
    while i < v.len()
        invariant
            i <= v@.len(),
            r@ == v@.subrange(0, i as int),
        decreases v@.len() - i,
    {
        r.push(v[i]);
        i = i + 1;
        assert(r@ =~= v@.subrange(0, i as int));
    }
    assert(v@.subrange(0, i as int) =~= v@);
    r
}

} // verus!
