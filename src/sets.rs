//! The set engine: a collection of distinct members per key, kept as the
//! fields of a hash whose values are empty.
use vstd::prelude::*;

use crate::assoc::{assoc_map, copy_bytes};
use crate::hashes::{remove_all, removed_count, Hashes};
use crate::types::{EngineRes, Key, ResView, Value};

verus! {

/// The members of `s` after adding each of `ms` in turn.
pub open spec fn add_all(s: Set<Seq<u8>>, ms: Seq<Seq<u8>>) -> Set<Seq<u8>>
    decreases ms.len(),
{
    if ms.len() == 0 {
        s
    } else {
        add_all(s, ms.drop_last()).insert(ms.last())
    }
}

/// How many of the additions in turn found their member absent.
pub open spec fn added_count(s: Set<Seq<u8>>, ms: Seq<Seq<u8>>) -> nat
    decreases ms.len(),
{
    if ms.len() == 0 {
        0
    } else {
        added_count(s, ms.drop_last()) + if add_all(s, ms.drop_last()).contains(ms.last()) {
            0nat
        } else {
            1nat
        }
    }
}

/// The members of `s` after removing each of `ms` in turn.
pub open spec fn remove_members(s: Set<Seq<u8>>, ms: Seq<Seq<u8>>) -> Set<Seq<u8>>
    decreases ms.len(),
{
    if ms.len() == 0 {
        s
    } else {
        remove_members(s, ms.drop_last()).remove(ms.last())
    }
}

/// How many of the removals in turn found their member present.
pub open spec fn removed_members(s: Set<Seq<u8>>, ms: Seq<Seq<u8>>) -> nat
    decreases ms.len(),
{
    if ms.len() == 0 {
        0
    } else {
        removed_members(s, ms.drop_last()) + if remove_members(s, ms.drop_last()).contains(
            ms.last(),
        ) {
            1nat
        } else {
            0nat
        }
    }
}

/// The set of `k` in a map of sets; empty where `k` has none.
pub open spec fn set_of(m: Map<Seq<u8>, Set<Seq<u8>>>, k: Seq<u8>) -> Set<Seq<u8>> {
    if m.contains_key(k) {
        m[k]
    } else {
        Set::empty()
    }
}

proof fn lemma_remove_all_dom(m: Map<Seq<u8>, Seq<u8>>, q: Seq<Seq<u8>>)
    ensures
        remove_all(m, q).dom() == remove_members(m.dom(), q),
        removed_count(m, q) == removed_members(m.dom(), q),
    decreases q.len(),
{
    if q.len() > 0 {
        lemma_remove_all_dom(m, q.drop_last());
        assert(remove_all(m, q).dom() =~= remove_members(m.dom(), q));
    }
}

/// Whether membership of `x` in the sets of all keys after the first is `want`.
pub open spec fn rest_agree(
    v: Map<Seq<u8>, Set<Seq<u8>>>,
    ks: Seq<Seq<u8>>,
    x: Seq<u8>,
    want: bool,
) -> bool {
    forall|j: int| 1 <= j < ks.len() ==> #[trigger] set_of(v, ks[j]).contains(x) == want
}

/// The members of the first key's set that are in all the others.
pub open spec fn inter_of(v: Map<Seq<u8>, Set<Seq<u8>>>, ks: Seq<Seq<u8>>) -> Set<Seq<u8>> {
    if ks.len() == 0 {
        Set::empty()
    } else {
        set_of(v, ks[0]).filter(|x: Seq<u8>| rest_agree(v, ks, x, true))
    }
}

/// The members of the first key's set that are in none of the others.
pub open spec fn diff_of(v: Map<Seq<u8>, Set<Seq<u8>>>, ks: Seq<Seq<u8>>) -> Set<Seq<u8>> {
    if ks.len() == 0 {
        Set::empty()
    } else {
        set_of(v, ks[0]).filter(|x: Seq<u8>| rest_agree(v, ks, x, false))
    }
}

/// The members of any of the keys' sets.
pub open spec fn union_of(v: Map<Seq<u8>, Set<Seq<u8>>>, ks: Seq<Seq<u8>>) -> Set<Seq<u8>> {
    Set::new(|x: Seq<u8>| exists|j: int| 0 <= j < ks.len() && #[trigger] set_of(v, ks[j]).contains(x))
}

/// The byte strings of a vector, as sequences.
pub open spec fn views(vs: Seq<Value>) -> Seq<Seq<u8>> {
    vs.map_values(|x: Value| x@)
}

fn contains_bytes(vs: &Vec<Value>, x: &Value) -> (r: bool)
    ensures
        r == views(vs@).contains(x@),
{
    let mut i: usize = 0;
    while i < vs.len()
        invariant
            i <= vs@.len(),
            forall|j: int| 0 <= j < i ==> #[trigger] vs@[j]@ != x@,
        decreases vs@.len() - i,
    {
        if crate::assoc::bytes_eq(&vs[i], x) {
            assert(views(vs@)[i as int] == x@);
            return true;
        }
        i = i + 1;
    }
    assert forall|j: int| 0 <= j < views(vs@).len() implies views(vs@)[j] != x@ by {
        assert(vs@[j]@ != x@);
    }
    false
}

proof fn lemma_add_all(s: Set<Seq<u8>>, q: Seq<Seq<u8>>)
    ensures
        add_all(s, q) == s.union(q.to_set()),
    decreases q.len(),
{
    if q.len() > 0 {
        let d = q.drop_last();
        lemma_add_all(s, d);
        assert forall|x: Seq<u8>| q.to_set().contains(x) <==> d.to_set().contains(x) || x == q.last() by {
            if q.contains(x) && x != q.last() {
                let i = choose|i: int| 0 <= i < q.len() && q[i] == x;
                assert(d[i] == x);
            }
            if d.contains(x) {
                let i = choose|i: int| 0 <= i < d.len() && d[i] == x;
                assert(q[i] == x);
            }
            if x == q.last() {
                assert(q[q.len() - 1] == x);
            }
        }
        assert(add_all(s, q) =~= s.union(q.to_set()));
    } else {
        assert(s.union(q.to_set()) =~= s);
    }
}

proof fn lemma_remove_members(s: Set<Seq<u8>>, q: Seq<Seq<u8>>)
    ensures
        remove_members(s, q) == s.difference(q.to_set()),
    decreases q.len(),
{
    if q.len() > 0 {
        let d = q.drop_last();
        lemma_remove_members(s, d);
        assert forall|x: Seq<u8>| q.to_set().contains(x) <==> d.to_set().contains(x) || x == q.last() by {
            if q.contains(x) && x != q.last() {
                let i = choose|i: int| 0 <= i < q.len() && q[i] == x;
                assert(d[i] == x);
            }
            if d.contains(x) {
                let i = choose|i: int| 0 <= i < d.len() && d[i] == x;
                assert(q[i] == x);
            }
            if x == q.last() {
                assert(q[q.len() - 1] == x);
            }
        }
        assert(remove_members(s, q) =~= s.difference(q.to_set()));
    } else {
        assert(s.difference(q.to_set()) =~= s);
    }
}

/// The sets of all keys. A set that becomes empty stays.
pub struct Sets {
    inner: Hashes,
}

impl View for Sets {
    /// For each key that has a set, its members.
    type V = Map<Seq<u8>, Set<Seq<u8>>>;

    closed spec fn view(&self) -> Self::V {
        self.inner@.map_values(|p: Seq<(Seq<u8>, Seq<u8>)>| assoc_map(p).dom())
    }
}

impl Sets {
    /// The underlying hash is well formed.
    pub closed spec fn wf(&self) -> bool {
        self.inner.wf()
    }

    /// The members of `k`; none where `k` has no set.
    pub open spec fn members(&self, k: Seq<u8>) -> Set<Seq<u8>> {
        if self@.contains_key(k) {
            self@[k]
        } else {
            Set::empty()
        }
    }

    /// The members of `k` in the order the set holds them.
    pub closed spec fn listing(&self, k: Seq<u8>) -> Seq<Seq<u8>> {
        self.inner.entries(k).map_values(|e: (Seq<u8>, Seq<u8>)| e.0)
    }

    proof fn lemma_members(&self, k: Seq<u8>)
        ensures
            self.members(k) == self.inner.fields(k).dom(),
    {
        if !self.inner@.contains_key(k) {
            assert(self.inner.fields(k).dom() =~= Set::empty());
        }
    }

    /// The listing of a key holds each member once, and nothing else.
    pub proof fn lemma_listing(&self, k: Seq<u8>)
        requires
            self.wf(),
        ensures
            self.listing(k).no_duplicates(),
            self.listing(k).to_set() == self.members(k),
    {
        self.lemma_members(k);
        self.inner.lemma_unique_entries(k);
        let e = self.inner.entries(k);
        let l = self.listing(k);
        assert forall|x: Seq<u8>| l.to_set().contains(x) <==> self.members(k).contains(x) by {
            if l.to_set().contains(x) {
                let i = choose|i: int| 0 <= i < l.len() && l[i] == x;
                crate::assoc::lemma_assoc_get(e, i);
            }
            if self.members(k).contains(x) {
                if !(exists|i: int| 0 <= i < e.len() && #[trigger] e[i].0 == x) {
                    crate::assoc::lemma_assoc_absent(e, x);
                }
                let i = choose|i: int| 0 <= i < e.len() && #[trigger] e[i].0 == x;
                assert(l[i] == x);
            }
        }
        assert(l.to_set() =~= self.members(k));
    }

    /// A store with no key.
    pub fn new() -> (r: Sets)
        ensures
            r.wf(),
            r@ == Map::<Seq<u8>, Set<Seq<u8>>>::empty(),
    {
        let r = Sets { inner: Hashes::new() };
        assert(r@ =~= Map::<Seq<u8>, Set<Seq<u8>>>::empty());
        r
    }

    /// Adds each of `ms` to the set of `k`, creating it if need be; the result
    /// counts the members that were new.
    pub fn sadd(&mut self, k: Key, ms: &Vec<Value>) -> (r: EngineRes)
        requires
            old(self).wf(),
            ms@.len() > 0,
        ensures
            final(self).wf(),
            final(self)@ == old(self)@.insert(
                k@,
                add_all(old(self).members(k@), ms@.map_values(|m: Value| m@)),
            ),
            r@ == ResView::UInt(added_count(old(self).members(k@), ms@.map_values(|m: Value| m@))),
    {
        let ghost s0 = old(self).members(k@);
        let ghost q = ms@.map_values(|m: Value| m@);
        proof {
            old(self).lemma_members(k@);
        }
        let mut count: usize = 0;
        let mut i: usize = 0;
        while i < ms.len()
            invariant
                i <= ms@.len(),
                count <= i,
                q == ms@.map_values(|m: Value| m@),
                self.wf(),
                self.inner.fields(k@).dom() == add_all(s0, q.subrange(0, i as int)),
                count == added_count(s0, q.subrange(0, i as int)),
                i > 0 ==> self.inner@ == old(self).inner@.insert(k@, self.inner@[k@]),
                i == 0 ==> self.inner@ == old(self).inner@,
            decreases ms@.len() - i,
        {
            let ghost before = self.inner;
            let r = self.inner.hsetnx(copy_bytes(&k), copy_bytes(&ms[i]), Vec::new());
            proof {
                assert(q.subrange(0, i + 1).drop_last() =~= q.subrange(0, i as int));
                if before.fields(k@).contains_key(q[i as int]) {
                    if i == 0 {
                        assert(before@.contains_key(k@)) by {
                            if !before@.contains_key(k@) {
                                assert(before.fields(k@) =~= Map::empty());
                            }
                        }
                        assert(self.inner@ =~= old(self).inner@.insert(k@, self.inner@[k@]));
                    }
                } else {
                    assert(self.inner.fields(k@).dom() =~= before.fields(k@).dom().insert(
                        q[i as int],
                    ));
                    assert(self.inner@ =~= old(self).inner@.insert(k@, self.inner@[k@]));
                }
            }
            if let EngineRes::UIntRes(1) = r {
                count = count + 1;
            }
            i = i + 1;
        }
        assert(q.subrange(0, i as int) =~= q);
        proof {
            self.lemma_members(k@);
            assert(self@ =~= old(self)@.insert(k@, add_all(s0, q)));
        }
        EngineRes::UIntRes(count)
    }
    /// Removes each of `ms` from the set of `k`; the result counts the members
    /// that were present. A key without a set is left without one.
    pub fn srem(&mut self, k: &Key, ms: &Vec<Value>) -> (r: EngineRes)
        requires
            old(self).wf(),
        ensures
            final(self).wf(),
            old(self)@.contains_key(k@) ==> final(self)@ == old(self)@.insert(
                k@,
                remove_members(old(self)@[k@], ms@.map_values(|m: Value| m@)),
            ) && r@ == ResView::UInt(
                removed_members(old(self)@[k@], ms@.map_values(|m: Value| m@)),
            ),
            !old(self)@.contains_key(k@) ==> final(self)@ == old(self)@ && r@ == ResView::UInt(0),
    {
        let ghost q = ms@.map_values(|m: Value| m@);
        proof {
            old(self).lemma_members(k@);
            lemma_remove_all_dom(old(self).inner.fields(k@), q);
        }
        let r = self.inner.hdel(k, ms);
        proof {
            if old(self)@.contains_key(k@) {
                assert(self@ =~= old(self)@.insert(k@, remove_members(old(self)@[k@], q)));
            } else {
                assert(self@ =~= old(self)@);
            }
        }
        r
    }

    /// The members of `k`, each once, in the order the set holds them.
    pub fn smembers(&self, k: &Key) -> (r: EngineRes)
        requires
            self.wf(),
        ensures
            r@ == ResView::Strs(self.listing(k@)),
    {
        self.inner.hkeys(k)
    }

    /// Whether `m` is a member of the set of `k`: 1 if so, else 0.
    pub fn sismember(&self, k: &Key, m: &Value) -> (r: EngineRes)
        requires
            self.wf(),
        ensures
            r@ == ResView::UInt(
                if self.members(k@).contains(m@) {
                    1
                } else {
                    0
                },
            ),
    {
        proof {
            self.lemma_members(k@);
        }
        self.inner.hexists(k, m)
    }

    /// The number of members of `k`.
    pub fn scard(&self, k: &Key) -> (r: EngineRes)
        requires
            self.wf(),
        ensures
            r@ == ResView::UInt(self.members(k@).len()),
    {
        proof {
            self.lemma_members(k@);
        }
        self.inner.hlen(k)
    }

    /// Moves `m` from the set of `src` to that of `dst` (created if need be):
    /// 1 if `m` was a member of `src`, else 0 and nothing changes.
    pub fn smove(&mut self, src: &Key, dst: Key, m: Value) -> (r: EngineRes)
        requires
            old(self).wf(),
        ensures
            final(self).wf(),
            old(self).members(src@).contains(m@) ==> {
                let mid = old(self)@.insert(src@, old(self)@[src@].remove(m@));
                &&& r@ == ResView::UInt(1)
                &&& final(self)@ == mid.insert(dst@, set_of(mid, dst@).insert(m@))
            },
            !old(self).members(src@).contains(m@) ==> r@ == ResView::UInt(0) && final(self)@
                == old(self)@,
    {
        proof {
            old(self).lemma_members(src@);
        }
        let present = self.inner.hexists(src, &m);
        if let EngineRes::UIntRes(0) = present {
            return EngineRes::UIntRes(0);
        }
        let ghost mv = m@;
        let mut one: Vec<Value> = Vec::new();
        one.push(copy_bytes(&m));
        let ghost q = one@.map_values(|x: Value| x@);
        proof {
            assert(q =~= seq![mv]);
            assert(q.drop_last() =~= Seq::<Seq<u8>>::empty());
            assert(q.last() == mv);
            assert(remove_all(old(self).inner.fields(src@), q.drop_last()) == old(
                self,
            ).inner.fields(src@));
            assert(remove_all(old(self).inner.fields(src@), q) == old(self).inner.fields(
                src@,
            ).remove(mv));
        }
        self.inner.hdel(src, &one);
        let ghost mid_sets = self@;
        proof {
            assert(mid_sets =~= old(self)@.insert(src@, old(self)@[src@].remove(mv)));
            self.lemma_members(dst@);
        }
        let ghost before = self.inner;
        self.inner.hsetnx(dst, m, Vec::new());
        proof {
            let dv = dst@;
            if before.fields(dv).contains_key(mv) {
                assert(before@.contains_key(dv)) by {
                    if !before@.contains_key(dv) {
                        assert(before.fields(dv) =~= Map::empty());
                    }
                }
                assert(set_of(mid_sets, dv).insert(mv) =~= set_of(mid_sets, dv));
                assert(self@ =~= mid_sets.insert(dv, set_of(mid_sets, dv).insert(mv)));
            } else {
                assert(self.inner.fields(dv).dom() =~= before.fields(dv).dom().insert(mv));
                assert(self@ =~= mid_sets.insert(dv, set_of(mid_sets, dv).insert(mv)));
            }
        }
        EngineRes::UIntRes(1)
    }
    fn listing_vec(&self, k: &Key) -> (r: Vec<Value>)
        requires
            self.wf(),
        ensures
            views(r@) == self.listing(k@),
    {
        match self.inner.hkeys(k) {
            EngineRes::MultiStringRes(v) => v,
            _ => Vec::new(),
        }
    }

    fn is_member(&self, k: &Key, x: &Value) -> (r: bool)
        requires
            self.wf(),
        ensures
            r == self.members(k@).contains(x@),
    {
        match self.sismember(k, x) {
            EngineRes::UIntRes(n) => n == 1,
            _ => false,
        }
    }

    /// The members of the first key's set whose membership in each of the
    /// other keys' sets is `want`, each once.
    fn filter_first(&self, ks: &Vec<Key>, want: bool) -> (r: Vec<Value>)
        requires
            self.wf(),
            ks@.len() > 0,
        ensures
            views(r@).no_duplicates(),
            views(r@).to_set() == set_of(self@, ks@[0]@).filter(
                |x: Seq<u8>| rest_agree(self@, views(ks@), x, want),
            ),
    {
        let ghost kv = views(ks@);
        let first = self.listing_vec(&ks[0]);
        let ghost l = views(first@);
        proof {
            self.lemma_listing(ks@[0]@);
        }
        let mut out: Vec<Value> = Vec::new();
        let mut i: usize = 0;
        while i < first.len()
            invariant
                i <= first@.len(),
                l == views(first@),
                l.no_duplicates(),
                l.to_set() == self.members(ks@[0]@),
                kv == views(ks@),
                ks@.len() > 0,
                self.wf(),
                views(out@).no_duplicates(),
                forall|x: Seq<u8>|
                    views(out@).contains(x) <==> exists|t: int|
                        0 <= t < i && #[trigger] l[t] == x && rest_agree(self@, kv, x, want),
            decreases first@.len() - i,
        {
            let x = &first[i];
            let mut j: usize = 1;
            let mut ok = true;
            while j < ks.len()
                invariant
                    1 <= j <= ks@.len(),
                    ok ==> forall|jj: int|
                        1 <= jj < j ==> #[trigger] set_of(self@, kv[jj]).contains(x@) == want,
                    !ok ==> !rest_agree(self@, kv, x@, want),
                    kv == views(ks@),
                    self.wf(),
                decreases ks@.len() - j,
            {
                if ok {
                    let m = self.is_member(&ks[j], x);
                    proof {
                        assert(kv[j as int] == ks@[j as int]@);
                        assert(set_of(self@, kv[j as int]) == self.members(ks@[j as int]@));
                    }
                    if m != want {
                        ok = false;
                    }
                }
                j = j + 1;
            }
            let ghost before = views(out@);
            if ok {
                let c = copy_bytes(x);
                out.push(c);
                proof {
                    assert(views(out@) =~= before.push(l[i as int]));
                    assert(!before.contains(l[i as int])) by {
                        if before.contains(l[i as int]) {
                            let t = choose|t: int|
                                0 <= t < i && #[trigger] l[t] == l[i as int] && rest_agree(
                                    self@,
                                    kv,
                                    l[i as int],
                                    want,
                                );
                        }
                    }
                }
            } else {
                assert(views(out@) == before);
            }
            proof {
                let xi = l[i as int];
                assert(x@ == xi);
                assert(ok == rest_agree(self@, kv, xi, want));
                assert forall|y: Seq<u8>| views(out@).contains(y) <==> exists|t: int|
                    0 <= t < i + 1 && #[trigger] l[t] == y && rest_agree(self@, kv, y, want) by {
                    if views(out@).contains(y) {
                        if before.contains(y) {
                            let t = choose|t: int|
                                0 <= t < i && #[trigger] l[t] == y && rest_agree(self@, kv, y, want);
                            assert(0 <= t < i + 1 && l[t] == y);
                        } else {
                            let p = choose|p: int| 0 <= p < views(out@).len() && views(out@)[p] == y;
                            assert(p == before.len());
                            assert(l[i as int] == y);
                        }
                    }
                    if exists|t: int|
                        0 <= t < i + 1 && #[trigger] l[t] == y && rest_agree(self@, kv, y, want) {
                        let t = choose|t: int|
                            0 <= t < i + 1 && #[trigger] l[t] == y && rest_agree(self@, kv, y, want);
                        if t < i {
                            assert(before.contains(y));
                            let p = choose|p: int| 0 <= p < before.len() && before[p] == y;
                            assert(views(out@)[p] == y);
                        } else {
                            assert(views(out@)[before.len() as int] == y);
                        }
                    }
                }
            }
            i = i + 1;
        }
        proof {
            let want_set = set_of(self@, ks@[0]@).filter(
                |x: Seq<u8>| rest_agree(self@, views(ks@), x, want),
            );
            assert forall|x: Seq<u8>| views(out@).to_set().contains(x) <==> want_set.contains(
                x,
            ) by {
                if views(out@).to_set().contains(x) {
                    assert(views(out@).contains(x));
                    let t = choose|t: int|
                        0 <= t < i && #[trigger] l[t] == x && rest_agree(self@, kv, x, want);
                    assert(l.to_set().contains(x));
                }
                if want_set.contains(x) {
                    assert(l.to_set().contains(x));
                    let t = choose|t: int| 0 <= t < l.len() && l[t] == x;
                    assert(l[t] == x);
                }
            }
            assert(views(out@).to_set() =~= want_set);
        }
        out
    }
    fn union_vec(&self, ks: &Vec<Key>) -> (r: Vec<Value>)
        requires
            self.wf(),
        ensures
            views(r@).no_duplicates(),
            views(r@).to_set() == union_of(self@, views(ks@)),
    {
        let ghost kv = views(ks@);
        let mut out: Vec<Value> = Vec::new();
        let mut j: usize = 0;
        while j < ks.len()
            invariant
                j <= ks@.len(),
                kv == views(ks@),
                self.wf(),
                views(out@).no_duplicates(),
                forall|y: Seq<u8>|
                    views(out@).contains(y) <==> exists|jj: int|
                        0 <= jj < j && #[trigger] set_of(self@, kv[jj]).contains(y),
            decreases ks@.len() - j,
        {
            let l = self.listing_vec(&ks[j]);
            let ghost lv = views(l@);
            let ghost start = views(out@);
            proof {
                self.lemma_listing(ks@[j as int]@);
                assert(kv[j as int] == ks@[j as int]@);
                assert(set_of(self@, kv[j as int]) == self.members(ks@[j as int]@));
            }
            let mut i: usize = 0;
            while i < l.len()
                invariant
                    i <= l@.len(),
                    lv == views(l@),
                    j < ks@.len(),
                    kv.len() == ks@.len(),
                    lv.to_set() == set_of(self@, kv[j as int]),
                    kv == views(ks@),
                    forall|y: Seq<u8>|
                        start.contains(y) <==> exists|jj: int|
                            0 <= jj < j && #[trigger] set_of(self@, kv[jj]).contains(y),
                    views(out@).no_duplicates(),
                    forall|y: Seq<u8>|
                        #[trigger] views(out@).contains(y) <==> start.contains(y) || exists|t: int|
                            0 <= t < i && #[trigger] lv[t] == y,
                decreases l@.len() - i,
            {
                let ghost before = views(out@);
                let ghost pushed = false;
                assert(forall|y: Seq<u8>|
                    #[trigger] before.contains(y) <==> start.contains(y) || exists|t: int|
                        0 <= t < i && #[trigger] lv[t] == y);
                if !contains_bytes(&out, &l[i]) {
                    out.push(copy_bytes(&l[i]));
                    proof {
                        pushed = true;
                    }
                    assert(views(out@) =~= before.push(lv[i as int]));
                }
                proof {
                    assert(pushed ==> !before.contains(lv[i as int]));
                    assert(!pushed ==> before.contains(lv[i as int]) && views(out@) == before);
                    assert forall|y: Seq<u8>| #[trigger] views(out@).contains(y) <==> start.contains(y)
                        || exists|t: int| 0 <= t < i + 1 && #[trigger] lv[t] == y by {
                        if before.contains(y) {
                            let p = choose|p: int| 0 <= p < before.len() && before[p] == y;
                            assert(views(out@)[p] == y);
                            if !start.contains(y) {
                                let t = choose|t: int| 0 <= t < i && #[trigger] lv[t] == y;
                                assert(lv[t] == y);
                            }
                        }
                        if exists|t: int| 0 <= t < i && #[trigger] lv[t] == y {
                            assert(before.contains(y));
                        }
                        if start.contains(y) {
                            assert(before.contains(y));
                        }
                        if views(out@).contains(y) && !before.contains(y) {
                            let p = choose|p: int| 0 <= p < views(out@).len() && views(out@)[p] == y;
                            if p < before.len() {
                                assert(before[p] == y);
                            }
                            assert(pushed);
                            assert(p == before.len());
                            assert(lv[i as int] == y);
                        }
                        if y == lv[i as int] {
                            if pushed {
                                assert(views(out@)[before.len() as int] == y);
                            }
                        }
                    }
                }
                i = i + 1;
            }
            proof {
                assert forall|y: Seq<u8>| views(out@).contains(y) <==> exists|jj: int|
                    0 <= jj < j + 1 && #[trigger] set_of(self@, kv[jj]).contains(y) by {
                    if views(out@).contains(y) && !start.contains(y) {
                        let t = choose|t: int| 0 <= t < i && #[trigger] lv[t] == y;
                        assert(lv.contains(y));
                        assert(lv.to_set().contains(y));
                        assert(set_of(self@, kv[j as int]).contains(y));
                    }
                    if exists|jj: int| 0 <= jj < j + 1 && #[trigger] set_of(self@, kv[jj]).contains(y) {
                        let jj = choose|jj: int|
                            0 <= jj < j + 1 && #[trigger] set_of(self@, kv[jj]).contains(y);
                        if jj == j {
                            assert(lv.to_set().contains(y));
                            let t = choose|t: int| 0 <= t < lv.len() && lv[t] == y;
                            assert(lv[t] == y);
                        }
                    }
                }
            }
            j = j + 1;
        }
        assert(views(out@).to_set() =~= union_of(self@, kv));
        out
    }

    /// The members of any of the keys' sets, each once.
    pub fn sunion(&self, ks: &Vec<Key>) -> (r: EngineRes)
        requires
            self.wf(),
        ensures
            r@ matches ResView::Strs(ms) && ms.no_duplicates() && ms.to_set() == union_of(
                self@,
                views(ks@),
            ),
    {
        let out = self.union_vec(ks);
        assert(views(out@) == out@.map_values(|v: Value| v@));
        EngineRes::MultiStringRes(out)
    }

    /// The members of the first key's set that are in all the others, each once.
    pub fn sinter(&self, ks: &Vec<Key>) -> (r: EngineRes)
        requires
            self.wf(),
        ensures
            r@ matches ResView::Strs(ms) && ms.no_duplicates() && ms.to_set() == inter_of(
                self@,
                views(ks@),
            ),
    {
        if ks.len() == 0 {
            let out: Vec<Value> = Vec::new();
            assert(views(out@).to_set() =~= Set::empty());
            return EngineRes::MultiStringRes(out);
        }
        let out = self.filter_first(ks, true);
        assert(views(ks@)[0] == ks@[0]@);
        assert(views(out@) == out@.map_values(|v: Value| v@));
        EngineRes::MultiStringRes(out)
    }

    /// The members of the first key's set that are in none of the others, each once.
    pub fn sdiff(&self, ks: &Vec<Key>) -> (r: EngineRes)
        requires
            self.wf(),
        ensures
            r@ matches ResView::Strs(ms) && ms.no_duplicates() && ms.to_set() == diff_of(
                self@,
                views(ks@),
            ),
    {
        if ks.len() == 0 {
            let out: Vec<Value> = Vec::new();
            assert(views(out@).to_set() =~= Set::empty());
            return EngineRes::MultiStringRes(out);
        }
        let out = self.filter_first(ks, false);
        assert(views(ks@)[0] == ks@[0]@);
        assert(views(out@) == out@.map_values(|v: Value| v@));
        EngineRes::MultiStringRes(out)
    }

    /// Makes `ms` the whole set of `dst`; the result is its size. Where `ms` is
    /// empty and `dst` has no set, nothing changes.
    fn store(&mut self, dst: &Key, ms: Vec<Value>) -> (r: EngineRes)
        requires
            old(self).wf(),
            views(ms@).no_duplicates(),
        ensures
            final(self).wf(),
            final(self)@ == if views(ms@).len() == 0 && !old(self)@.contains_key(dst@) {
                old(self)@
            } else {
                old(self)@.insert(dst@, views(ms@).to_set())
            },
            r@ == ResView::UInt(views(ms@).to_set().len()),
    {
        let old_members = self.listing_vec(dst);
        proof {
            self.lemma_listing(dst@);
            lemma_remove_members(self.members(dst@), views(old_members@));
            assert(views(old_members@) == old_members@.map_values(|m: Value| m@));
        }
        self.srem(dst, &old_members);
        let ghost cleared = self@;
        proof {
            if old(self)@.contains_key(dst@) {
                assert(cleared[dst@] =~= Set::empty());
            }
        }
        let n = ms.len();
        proof {
            views(ms@).unique_seq_to_set();
        }
        if n == 0 {
            proof {
                assert(views(ms@).to_set() =~= Set::empty());
                if old(self)@.contains_key(dst@) {
                    assert(self@ =~= old(self)@.insert(dst@, views(ms@).to_set()));
                } else {
                    assert(self@ =~= old(self)@);
                }
            }
            return EngineRes::UIntRes(0);
        }
        proof {
            lemma_add_all(set_of(cleared, dst@), views(ms@));
            assert(views(ms@) == ms@.map_values(|m: Value| m@));
        }
        let kc = copy_bytes(dst);
        proof {
            assert(set_of(cleared, dst@) =~= Set::empty());
            assert(Set::<Seq<u8>>::empty().union(views(ms@).to_set()) =~= views(ms@).to_set());
        }
        self.sadd(kc, &ms);
        proof {
            assert(self@ == cleared.insert(dst@, views(ms@).to_set()));
            assert(self@ =~= old(self)@.insert(dst@, views(ms@).to_set()));
        }
        EngineRes::UIntRes(n)
    }

    /// Stores the union of the keys' sets as the set of `dst`; the result is its size.
    pub fn sunionstore(&mut self, dst: &Key, ks: &Vec<Key>) -> (r: EngineRes)
        requires
            old(self).wf(),
        ensures
            final(self).wf(),
            final(self)@ == if union_of(old(self)@, views(ks@)).is_empty() && !old(
                self,
            )@.contains_key(dst@) {
                old(self)@
            } else {
                old(self)@.insert(dst@, union_of(old(self)@, views(ks@)))
            },
            r@ == ResView::UInt(union_of(old(self)@, views(ks@)).len()),
    {
        let ms = self.union_vec(ks);
        proof {
            if views(ms@).len() > 0 {
                assert(views(ms@).to_set().contains(views(ms@)[0]));
            }
            if views(ms@).len() == 0 {
                assert(views(ms@).to_set() =~= Set::empty());
            }
        }
        self.store(dst, ms)
    }

    /// Stores the intersection of the keys' sets as the set of `dst`; the
    /// result is its size.
    pub fn sinterstore(&mut self, dst: &Key, ks: &Vec<Key>) -> (r: EngineRes)
        requires
            old(self).wf(),
        ensures
            final(self).wf(),
            final(self)@ == if inter_of(old(self)@, views(ks@)).is_empty() && !old(
                self,
            )@.contains_key(dst@) {
                old(self)@
            } else {
                old(self)@.insert(dst@, inter_of(old(self)@, views(ks@)))
            },
            r@ == ResView::UInt(inter_of(old(self)@, views(ks@)).len()),
    {
        let ms = if ks.len() == 0 {
            let e: Vec<Value> = Vec::new();
            assert(views(e@).to_set() =~= Set::empty());
            e
        } else {
            assert(views(ks@)[0] == ks@[0]@);
            self.filter_first(ks, true)
        };
        proof {
            if views(ms@).len() > 0 {
                assert(views(ms@).to_set().contains(views(ms@)[0]));
            }
            if views(ms@).len() == 0 {
                assert(views(ms@).to_set() =~= Set::empty());
            }
        }
        self.store(dst, ms)
    }

    /// Stores the difference of the keys' sets as the set of `dst`; the
    /// result is its size.
    pub fn sdiffstore(&mut self, dst: &Key, ks: &Vec<Key>) -> (r: EngineRes)
        requires
            old(self).wf(),
        ensures
            final(self).wf(),
            final(self)@ == if diff_of(old(self)@, views(ks@)).is_empty() && !old(
                self,
            )@.contains_key(dst@) {
                old(self)@
            } else {
                old(self)@.insert(dst@, diff_of(old(self)@, views(ks@)))
            },
            r@ == ResView::UInt(diff_of(old(self)@, views(ks@)).len()),
    {
        let ms = if ks.len() == 0 {
            let e: Vec<Value> = Vec::new();
            assert(views(e@).to_set() =~= Set::empty());
            e
        } else {
            assert(views(ks@)[0] == ks@[0]@);
            self.filter_first(ks, false)
        };
        proof {
            if views(ms@).len() > 0 {
                assert(views(ms@).to_set().contains(views(ms@)[0]));
            }
            if views(ms@).len() == 0 {
                assert(views(ms@).to_set() =~= Set::empty());
            }
        }
        self.store(dst, ms)
    }
    /// A run of `want` members of `k` (fewer where the set is smaller), from a
    /// place in the set that `pick` chooses.
    fn window(&self, k: &Key, want: usize, pick: usize) -> (r: Vec<Value>)
        requires
            self.wf(),
        ensures
            views(r@).no_duplicates(),
            views(r@).to_set().subset_of(self.members(k@)),
            self.members(k@).len() <= usize::MAX,
            r@.len() == if want < self.members(k@).len() {
                want as nat
            } else {
                self.members(k@).len()
            },
    {
        let l = self.listing_vec(k);
        let ghost lv = views(l@);
        proof {
            self.lemma_listing(k@);
            lv.unique_seq_to_set();
        }
        let n = l.len();
        let take = if want < n {
            want
        } else {
            n
        };
        let start = if take == 0 {
            0
        } else {
            pick % (n - take + 1)
        };
        let mut out: Vec<Value> = Vec::new();
        let mut t: usize = 0;
        while t < take
            invariant
                lv == views(l@),
                n == l@.len(),
                take <= n,
                start + take <= n,
                t <= take,
                out@.len() == t,
                forall|j: int| 0 <= j < t ==> #[trigger] out@[j]@ == lv[start + j],
            decreases take - t,
        {
            out.push(copy_bytes(&l[start + t]));
            t = t + 1;
        }
        proof {
            let w = lv.subrange(start as int, start + take);
            assert(views(out@) =~= w);
            assert forall|a: int, b: int| 0 <= a < w.len() && 0 <= b < w.len() && a != b implies w[a]
                != w[b] by {
                assert(w[a] == lv[start + a] && w[b] == lv[start + b]);
            }
            assert forall|x: Seq<u8>| w.to_set().contains(x) implies self.members(k@).contains(x) by {
                let j = choose|j: int| 0 <= j < w.len() && w[j] == x;
                assert(lv[start + j] == x);
                assert(lv.to_set().contains(x));
            }
        }
        out
    }

    /// Removes and returns members of `k`: one (or nothing where the set is
    /// empty) without a count, else up to `count` distinct members. `pick`
    /// chooses which; the caller draws it at random.
    pub fn spop(&mut self, k: &Key, count: Option<usize>, pick: usize) -> (r: EngineRes)
        requires
            old(self).wf(),
        ensures
            final(self).wf(),
            count is None && old(self).members(k@).len() == 0 ==> r@ == ResView::Nil,
            count is None && old(self).members(k@).len() > 0 ==> (r@ matches ResView::Str(x)
                && old(self).members(k@).contains(x) && final(self)@ == old(self)@.insert(
                k@,
                old(self)@[k@].remove(x),
            )),
            count is Some ==> (r@ matches ResView::Strs(ms) && ms.no_duplicates() && ms.len() == (
            if count->0 < old(self).members(k@).len() {
                count->0 as nat
            } else {
                old(self).members(k@).len()
            }) && ms.to_set().subset_of(old(self).members(k@)) && (old(self)@.contains_key(k@)
                ==> final(self)@ == old(self)@.insert(k@, old(self)@[k@].difference(ms.to_set())))),
            old(self).members(k@).len() == 0 ==> final(self)@ == old(self)@,
    {
        let want = match count {
            Some(c) => c,
            None => 1,
        };
        let chosen = self.window(k, want, pick);
        let ghost cv = views(chosen@);
        proof {
            if !old(self)@.contains_key(k@) {
                assert(old(self).members(k@) =~= Set::empty());
            }
            lemma_remove_members(old(self)@[k@], cv);
            assert(cv == chosen@.map_values(|m: Value| m@));
        }
        self.srem(k, &chosen);
        proof {
            if old(self).members(k@).len() == 0 {
                assert(cv.len() == 0);
                if old(self)@.contains_key(k@) {
                    assert(old(self)@[k@].difference(cv.to_set()) =~= old(self)@[k@]);
                    assert(self@ =~= old(self)@);
                }
            }
        }
        match count {
            Some(_) => {
                assert(views(chosen@) == chosen@.map_values(|v: Value| v@));
                EngineRes::MultiStringRes(chosen)
            },
            None => {
                if chosen.len() == 0 {
                    EngineRes::Nil
                } else {
                    let mut chosen = chosen;
                    let x = chosen.pop().unwrap();
                    proof {
                        assert(cv.len() == 1);
                        assert(cv.to_set().contains(x@)) by {
                            assert(cv[0] == x@);
                        }
                        assert(cv.to_set() =~= set![x@]);
                        assert(old(self)@[k@].difference(cv.to_set()) =~= old(self)@[k@].remove(x@));
                    }
                    EngineRes::StringRes(x)
                }
            },
        }
    }

    /// Returns members of `k` without removing them: one (or nothing where the
    /// set is empty) without a count; up to `count` distinct members for a
    /// count of zero or more; `-count` members, repeats allowed, for a negative
    /// count. `pick` chooses which; the caller draws it at random.
    pub fn srandmember(&self, k: &Key, count: Option<i64>, pick: usize) -> (r: EngineRes)
        requires
            self.wf(),
        ensures
            count is None && self.members(k@).len() == 0 ==> r@ == ResView::Nil,
            count is None && self.members(k@).len() > 0 ==> (r@ matches ResView::Str(x)
                && self.members(k@).contains(x)),
            count is Some && count->0 >= 0 ==> (r@ matches ResView::Strs(ms) && ms.no_duplicates()
                && ms.len() == (if count->0 < self.members(k@).len() {
                count->0 as nat
            } else {
                self.members(k@).len()
            }) && ms.to_set().subset_of(self.members(k@))),
            count is Some && count->0 < 0 ==> (r@ matches ResView::Strs(ms) && ms.len() == (
            if self.members(k@).len() == 0 {
                0
            } else {
                -count->0
            }) && ms.to_set().subset_of(self.members(k@))),
    {
        match count {
            None => {
                let w = self.window(k, 1, pick);
                if w.len() == 0 {
                    EngineRes::Nil
                } else {
                    proof {
                        assert(views(w@).to_set().contains(w@[0]@)) by {
                            assert(views(w@)[0] == w@[0]@);
                        }
                    }
                    EngineRes::StringRes(copy_bytes(&w[0]))
                }
            },
            Some(c) => if c >= 0 {
                let want: usize = if (c as u64) <= usize::MAX as u64 {
                    c as u64 as usize
                } else {
                    usize::MAX
                };
                let w = self.window(k, want, pick);
                assert(views(w@) == w@.map_values(|v: Value| v@));
                EngineRes::MultiStringRes(w)
            } else {
                let l = self.listing_vec(k);
                let ghost lv = views(l@);
                proof {
                    self.lemma_listing(k@);
                    lv.unique_seq_to_set();
                }
                let mut out: Vec<Value> = Vec::new();
                if l.len() == 0 {
                    assert(views(out@).to_set() =~= Set::empty());
                    return EngineRes::MultiStringRes(out);
                }
                let total: u64 = if c == i64::MIN {
                    9223372036854775808u64
                } else {
                    (-c) as u64
                };
                let mut t: u64 = 0;
                while t < total
                    invariant
                        lv == views(l@),
                        l@.len() > 0,
                        t <= total,
                        out@.len() == t,
                        forall|j: int| 0 <= j < t ==> #[trigger] lv.contains(out@[j]@),
                    decreases total - t,
                {
                    let idx = ((pick as u64).wrapping_add(t) % (l.len() as u64)) as usize;
                    out.push(copy_bytes(&l[idx]));
                    proof {
                        assert(lv[idx as int] == out@[t as int]@);
                    }
                    t = t + 1;
                }
                proof {
                    assert forall|x: Seq<u8>| views(out@).to_set().contains(x) implies self.members(
                        k@,
                    ).contains(x) by {
                        let j = choose|j: int| 0 <= j < views(out@).len() && views(out@)[j] == x;
                        assert(lv.contains(out@[j]@));
                        assert(lv.to_set().contains(x));
                    }
                    assert(views(out@) == out@.map_values(|v: Value| v@));
                }
                EngineRes::MultiStringRes(out)
            },
        }
    }
}

} // verus!
