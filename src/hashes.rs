//! The hash engine: for each key, a table of fields and their values.
use vstd::prelude::*;

use crate::assoc::{
    assoc_map, copy_bytes, find_key, lemma_assoc_absent, lemma_assoc_get, lemma_assoc_push,
    lemma_assoc_remove, lemma_assoc_update, lemma_unique_push, unique_keys,
};
use crate::numeric::{decimal, decimal_bytes, parse_i64, parse_i64_spec};
use crate::types::{EngineError, EngineRes, Key, ResView, Value};

verus! {

/// A field table as a sequence of (field, value) pairs.
pub open spec fn pairs_of(v: Seq<(Key, Value)>) -> Seq<(Seq<u8>, Seq<u8>)> {
    v.map_values(|e: (Key, Value)| (e.0@, e.1@))
}

/// Fields and values in table order: field, value, field, value, ...
pub open spec fn flatten_pairs(p: Seq<(Seq<u8>, Seq<u8>)>) -> Seq<Seq<u8>>
    decreases p.len(),
{
    if p.len() == 0 {
        seq![]
    } else {
        flatten_pairs(p.drop_last()).push(p.last().0).push(p.last().1)
    }
}

/// The value stored under a field, if any.
pub open spec fn lookup(m: Map<Seq<u8>, Seq<u8>>, f: Seq<u8>) -> Option<Seq<u8>> {
    if m.contains_key(f) {
        Some(m[f])
    } else {
        None
    }
}

/// `m` after writing each pair in turn; a later pair wins over an earlier one.
pub open spec fn insert_all(m: Map<Seq<u8>, Seq<u8>>, ps: Seq<(Seq<u8>, Seq<u8>)>) -> Map<
    Seq<u8>,
    Seq<u8>,
>
    decreases ps.len(),
{
    if ps.len() == 0 {
        m
    } else {
        insert_all(m, ps.drop_last()).insert(ps.last().0, ps.last().1)
    }
}

/// `m` after removing each field in turn.
pub open spec fn remove_all(m: Map<Seq<u8>, Seq<u8>>, fs: Seq<Seq<u8>>) -> Map<Seq<u8>, Seq<u8>>
    decreases fs.len(),
{
    if fs.len() == 0 {
        m
    } else {
        remove_all(m, fs.drop_last()).remove(fs.last())
    }
}

/// How many of the removals in turn found their field present.
pub open spec fn removed_count(m: Map<Seq<u8>, Seq<u8>>, fs: Seq<Seq<u8>>) -> nat
    decreases fs.len(),
{
    if fs.len() == 0 {
        0
    } else {
        removed_count(m, fs.drop_last()) + if remove_all(m, fs.drop_last()).contains_key(
            fs.last(),
        ) {
            1nat
        } else {
            0nat
        }
    }
}

/// The new value of a counter field after adding `n`, or why there is none.
/// An absent field counts as zero.
pub open spec fn incr_outcome(m: Map<Seq<u8>, Seq<u8>>, f: Seq<u8>, n: i64) -> Result<
    i64,
    EngineError,
> {
    let cur: Option<int> = if m.contains_key(f) {
        match parse_i64_spec(m[f]) {
            Some(c) => Some(c as int),
            None => None,
        }
    } else {
        Some(0)
    };
    match cur {
        None => Err(EngineError::BadType),
        Some(c) => if i64::MIN <= c + n <= i64::MAX {
            Ok((c + n) as i64)
        } else {
            Err(EngineError::Overflow)
        },
    }
}

/// One command of the hash engine, with its arguments already checked.
#[derive(Debug)]
pub enum HashOps {
    HGet(Key, Key),
    HSet(Key, Key, Value),
    HExists(Key, Key),
    HGetAll(Key),
    HMGet(Key, Vec<Key>),
    HKeys(Key),
    HMSet(Key, Vec<(Key, Value)>),
    HIncrBy(Key, Key, i64),
    HLen(Key),
    HDel(Key, Vec<Key>),
    HVals(Key),
    HStrLen(Key, Key),
    HSetNX(Key, Key, Value),
}

/// What a [`HashOps`] holds, with byte strings as sequences.
pub enum HashOpsView {
    HGet(Seq<u8>, Seq<u8>),
    HSet(Seq<u8>, Seq<u8>, Seq<u8>),
    HExists(Seq<u8>, Seq<u8>),
    HGetAll(Seq<u8>),
    HMGet(Seq<u8>, Seq<Seq<u8>>),
    HKeys(Seq<u8>),
    HMSet(Seq<u8>, Seq<(Seq<u8>, Seq<u8>)>),
    HIncrBy(Seq<u8>, Seq<u8>, i64),
    HLen(Seq<u8>),
    HDel(Seq<u8>, Seq<Seq<u8>>),
    HVals(Seq<u8>),
    HStrLen(Seq<u8>, Seq<u8>),
    HSetNX(Seq<u8>, Seq<u8>, Seq<u8>),
}

impl View for HashOps {
    type V = HashOpsView;

    open spec fn view(&self) -> HashOpsView {
        match self {
            HashOps::HGet(k, f) => HashOpsView::HGet(k@, f@),
            HashOps::HSet(k, f, v) => HashOpsView::HSet(k@, f@, v@),
            HashOps::HExists(k, f) => HashOpsView::HExists(k@, f@),
            HashOps::HGetAll(k) => HashOpsView::HGetAll(k@),
            HashOps::HMGet(k, fs) => HashOpsView::HMGet(k@, fs@.map_values(|f: Key| f@)),
            HashOps::HKeys(k) => HashOpsView::HKeys(k@),
            HashOps::HMSet(k, ps) => HashOpsView::HMSet(k@, pairs_of(ps@)),
            HashOps::HIncrBy(k, f, n) => HashOpsView::HIncrBy(k@, f@, *n),
            HashOps::HLen(k) => HashOpsView::HLen(k@),
            HashOps::HDel(k, fs) => HashOpsView::HDel(k@, fs@.map_values(|f: Key| f@)),
            HashOps::HVals(k) => HashOpsView::HVals(k@),
            HashOps::HStrLen(k, f) => HashOpsView::HStrLen(k@, f@),
            HashOps::HSetNX(k, f, v) => HashOpsView::HSetNX(k@, f@, v@),
        }
    }
}

/// The hashes of all keys. A key that was never written has no table; a
/// table that becomes empty stays.
pub struct Hashes {
    table: Vec<(Key, Vec<(Key, Value)>)>,
}

impl View for Hashes {
    /// For each key that has a table, its (field, value) pairs in table order.
    type V = Map<Seq<u8>, Seq<(Seq<u8>, Seq<u8>)>>;

    closed spec fn view(&self) -> Self::V {
        assoc_map(self.top())
    }
}

pub(crate) fn fl_get<'a>(fl: &'a Vec<(Key, Value)>, f: &Key) -> (r: Option<&'a Value>)
    requires
        unique_keys(pairs_of(fl@)),
    ensures
        match r {
            Some(v) => assoc_map(pairs_of(fl@)).contains_key(f@) && v@ == assoc_map(
                pairs_of(fl@),
            )[f@],
            None => !assoc_map(pairs_of(fl@)).contains_key(f@),
        },
{
    let ghost p = pairs_of(fl@);
    match find_key(fl, f) {
        Some(i) => {
            proof {
                lemma_assoc_get(p, i as int);
            }
            Some(&fl[i].1)
        },
        None => {
            proof {
                assert forall|i: int| 0 <= i < p.len() implies #[trigger] p[i].0 != f@ by {
                    assert(p[i].0 == fl@[i].0@);
                }
                lemma_assoc_absent(p, f@);
            }
            None
        },
    }
}

pub(crate) fn fl_set(fl: &mut Vec<(Key, Value)>, f: Key, v: Value)
    requires
        unique_keys(pairs_of(old(fl)@)),
    ensures
        unique_keys(pairs_of(final(fl)@)),
        assoc_map(pairs_of(final(fl)@)) == assoc_map(pairs_of(old(fl)@)).insert(f@, v@),
{
    let ghost p = pairs_of(fl@);
    match find_key(fl, &f) {
        Some(i) => {
            proof {
                lemma_assoc_update(p, i as int, v@);
            }
            let ghost fv = f@;
            let ghost vv = v@;
            fl.set(i, (f, v));
            assert(pairs_of(fl@) =~= p.update(i as int, (fv, vv)));
        },
        None => {
            proof {
                assert forall|i: int| 0 <= i < p.len() implies #[trigger] p[i].0 != f@ by {
                    assert(p[i].0 == fl@[i].0@);
                }
                lemma_assoc_absent(p, f@);
                lemma_assoc_push(p, (f@, v@));
                lemma_unique_push(p, (f@, v@));
            }
            let ghost fv = f@;
            let ghost vv = v@;
            fl.push((f, v));
            assert(pairs_of(fl@) =~= p.push((fv, vv)));
        },
    }
}

pub(crate) fn fl_remove(fl: &mut Vec<(Key, Value)>, f: &Key) -> (r: bool)
    requires
        unique_keys(pairs_of(old(fl)@)),
    ensures
        unique_keys(pairs_of(final(fl)@)),
        r == assoc_map(pairs_of(old(fl)@)).contains_key(f@),
        assoc_map(pairs_of(final(fl)@)) == assoc_map(pairs_of(old(fl)@)).remove(f@),
{
    let ghost p = pairs_of(fl@);
    match find_key(fl, f) {
        Some(i) => {
            proof {
                lemma_assoc_get(p, i as int);
                lemma_assoc_remove(p, i as int);
            }
            fl.remove(i);
            assert(pairs_of(fl@) =~= p.remove(i as int));
            true
        },
        None => {
            proof {
                assert forall|i: int| 0 <= i < p.len() implies #[trigger] p[i].0 != f@ by {
                    assert(p[i].0 == fl@[i].0@);
                }
                lemma_assoc_absent(p, f@);
                assert(assoc_map(p).remove(f@) =~= assoc_map(p));
            }
            false
        },
    }
}

impl Hashes {
    closed spec fn top(&self) -> Seq<(Seq<u8>, Seq<(Seq<u8>, Seq<u8>)>)> {
        self.table@.map_values(|e: (Key, Vec<(Key, Value)>)| (e.0@, pairs_of(e.1@)))
    }

    /// Keys are unique, and fields are unique within each table.
    pub closed spec fn wf(&self) -> bool {
        &&& unique_keys(self.top())
        &&& forall|i: int| 0 <= i < self.top().len() ==> unique_keys(#[trigger] self.top()[i].1)
    }

    /// The pairs of the table of `k`, in table order; none where `k` has no table.
    pub open spec fn entries(&self, k: Seq<u8>) -> Seq<(Seq<u8>, Seq<u8>)> {
        if self@.contains_key(k) {
            self@[k]
        } else {
            seq![]
        }
    }

    /// The fields of `k` and their values.
    pub open spec fn fields(&self, k: Seq<u8>) -> Map<Seq<u8>, Seq<u8>> {
        assoc_map(self.entries(k))
    }

    /// A store with no key.
    pub fn new() -> (r: Hashes)
        ensures
            r.wf(),
            r@ == Map::<Seq<u8>, Seq<(Seq<u8>, Seq<u8>)>>::empty(),
    {
        let r = Hashes { table: Vec::new() };
        assert(r.top() =~= seq![]);
        r
    }

    /// No field occurs twice in the table of a key.
    pub proof fn lemma_unique_entries(&self, k: Seq<u8>)
        requires
            self.wf(),
        ensures
            unique_keys(self.entries(k)),
    {
        let t = self.top();
        if self@.contains_key(k) {
            if !(exists|i: int| 0 <= i < t.len() && #[trigger] t[i].0 == k) {
                lemma_assoc_absent(t, k);
            }
            let i = choose|i: int| 0 <= i < t.len() && #[trigger] t[i].0 == k;
            lemma_assoc_get(t, i);
        }
    }

    fn find_hash(&self, k: &Key) -> (r: Option<&Vec<(Key, Value)>>)
        requires
            self.wf(),
        ensures
            match r {
                Some(fl) => self@.contains_key(k@) && pairs_of(fl@) == self@[k@] && unique_keys(
                    pairs_of(fl@),
                ),
                None => !self@.contains_key(k@),
            },
    {
        let ghost t = self.top();
        match find_key(&self.table, k) {
            Some(i) => {
                proof {
                    lemma_assoc_get(t, i as int);
                    assert(t[i as int].1 == pairs_of(self.table@[i as int].1@));
                }
                Some(&self.table[i].1)
            },
            None => {
                proof {
                    assert forall|i: int| 0 <= i < t.len() implies #[trigger] t[i].0 != k@ by {
                        assert(t[i].0 == self.table@[i].0@);
                    }
                    lemma_assoc_absent(t, k@);
                }
                None
            },
        }
    }

    /// Takes the table of `k` out of the store (an empty one where there is none).
    fn take_fields(&mut self, k: &Key) -> (r: Vec<(Key, Value)>)
        requires
            old(self).wf(),
        ensures
            final(self).wf(),
            final(self)@ == old(self)@.remove(k@),
            pairs_of(r@) == old(self).entries(k@),
            unique_keys(pairs_of(r@)),
    {
        let ghost t = self.top();
        match find_key(&self.table, k) {
            Some(i) => {
                proof {
                    lemma_assoc_get(t, i as int);
                    lemma_assoc_remove(t, i as int);
                }
                let (_, fl) = self.table.remove(i);
                proof {
                    assert(self.top() =~= t.remove(i as int));
                    assert forall|j: int| 0 <= j < self.top().len() implies unique_keys(
                        #[trigger] self.top()[j].1,
                    ) by {
                        if j < i {
                            assert(self.top()[j] == t[j]);
                        } else {
                            assert(self.top()[j] == t[j + 1]);
                        }
                    }
                }
                fl
            },
            None => {
                proof {
                    assert forall|i: int| 0 <= i < t.len() implies #[trigger] t[i].0 != k@ by {
                        assert(t[i].0 == self.table@[i].0@);
                    }
                    lemma_assoc_absent(t, k@);
                    assert(self@.remove(k@) =~= self@);
                }
                let fl: Vec<(Key, Value)> = Vec::new();
                assert(pairs_of(fl@) =~= seq![]);
                fl
            },
        }
    }

    /// Puts a table for `k`, which has none, into the store.
    fn put_fields(&mut self, k: Key, fl: Vec<(Key, Value)>)
        requires
            old(self).wf(),
            !old(self)@.contains_key(k@),
            unique_keys(pairs_of(fl@)),
        ensures
            final(self).wf(),
            final(self)@ == old(self)@.insert(k@, pairs_of(fl@)),
    {
        let ghost t = self.top();
        let ghost e = (k@, pairs_of(fl@));
        proof {
            lemma_assoc_push(t, e);
            lemma_unique_push(t, e);
        }
        self.table.push((k, fl));
        proof {
            assert(self.top() =~= t.push(e));
            assert forall|j: int| 0 <= j < self.top().len() implies unique_keys(
                #[trigger] self.top()[j].1,
            ) by {
                if j < t.len() {
                    assert(self.top()[j] == t[j]);
                }
            }
        }
    }

    /// The value of field `f` of `k`.
    pub fn hget(&self, k: &Key, f: &Key) -> (r: EngineRes)
        requires
            self.wf(),
        ensures
            r@ == match lookup(self.fields(k@), f@) {
                Some(v) => ResView::Str(v),
                None => ResView::Nil,
            },
    {
        match self.find_hash(k) {
            Some(fl) => match fl_get(fl, f) {
                Some(v) => EngineRes::StringRes(copy_bytes(v)),
                None => EngineRes::Nil,
            },
            None => {
                assert(self.fields(k@) =~= Map::empty());
                EngineRes::Nil
            },
        }
    }

    /// Sets field `f` of `k` to `v`, creating the table of `k` if need be.
    pub fn hset(&mut self, k: Key, f: Key, v: Value) -> (r: EngineRes)
        requires
            old(self).wf(),
        ensures
            final(self).wf(),
            final(self)@ == old(self)@.insert(k@, final(self)@[k@]),
            final(self).fields(k@) == old(self).fields(k@).insert(f@, v@),
            r@ == ResView::Success,
    {
        let mut fl = self.take_fields(&k);
        fl_set(&mut fl, f, v);
        let ghost kv = k@;
        self.put_fields(k, fl);
        assert(final(self)@ =~= old(self)@.insert(kv, final(self)@[kv]));
        EngineRes::Success
    }
    /// Whether `k` has a field `f`: 1 if so, else 0.
    pub fn hexists(&self, k: &Key, f: &Key) -> (r: EngineRes)
        requires
            self.wf(),
        ensures
            r@ == ResView::UInt(
                if self.fields(k@).contains_key(f@) {
                    1
                } else {
                    0
                },
            ),
    {
        match self.find_hash(k) {
            Some(fl) => match fl_get(fl, f) {
                Some(_) => EngineRes::UIntRes(1),
                None => EngineRes::UIntRes(0),
            },
            None => {
                assert(self.fields(k@) =~= Map::empty());
                EngineRes::UIntRes(0)
            },
        }
    }

    /// All fields of `k` with their values, flattened in table order.
    pub fn hgetall(&self, k: &Key) -> (r: EngineRes)
        requires
            self.wf(),
        ensures
            r@ == ResView::Strs(flatten_pairs(self.entries(k@))),
    {
        let mut out: Vec<Value> = Vec::new();
        match self.find_hash(k) {
            Some(fl) => {
                let ghost p = pairs_of(fl@);
                let mut i: usize = 0;
                while i < fl.len()
                    invariant
                        i <= fl@.len(),
                        p == pairs_of(fl@),
                        out@.map_values(|v: Value| v@) == flatten_pairs(p.subrange(0, i as int)),
                    decreases fl@.len() - i,
                {
                    let ghost before = out@.map_values(|v: Value| v@);
                    out.push(copy_bytes(&fl[i].0));
                    out.push(copy_bytes(&fl[i].1));
                    proof {
                        let q = p.subrange(0, i + 1);
                        assert(q.drop_last() =~= p.subrange(0, i as int));
                        assert(out@.map_values(|v: Value| v@) =~= before.push(p[i as int].0).push(
                            p[i as int].1,
                        ));
                    }
                    i = i + 1;
                }
                assert(p.subrange(0, i as int) =~= p);
            },
            None => {
                assert(out@.map_values(|v: Value| v@) =~= seq![]);
            },
        }
        EngineRes::MultiStringRes(out)
    }

    /// For each requested field of `k`, in the order asked: its value, or nothing.
    pub fn hmget(&self, k: &Key, fs: &Vec<Key>) -> (r: EngineRes)
        requires
            self.wf(),
        ensures
            r@ == ResView::Array(fs@.map_values(|f: Key| lookup(self.fields(k@), f@))),
    {
        let mut out: Vec<Option<Value>> = Vec::new();
        let found = self.find_hash(k);
        let ghost m = self.fields(k@);
        proof {
            if found.is_none() {
                assert(m =~= Map::empty());
            }
        }
        let mut i: usize = 0;
        while i < fs.len()
            invariant
                i <= fs@.len(),
                m == self.fields(k@),
                out@.len() == i,
                match found {
                    Some(fl) => unique_keys(pairs_of(fl@)) && assoc_map(pairs_of(fl@)) == m,
                    None => m == Map::<Seq<u8>, Seq<u8>>::empty(),
                },
                out@.map_values(|o: Option<Value>| crate::types::opt_view(o)) == fs@.subrange(
                    0,
                    i as int,
                ).map_values(|f: Key| lookup(m, f@)),
            decreases fs@.len() - i,
        {
            let item = match found {
                Some(fl) => match fl_get(fl, &fs[i]) {
                    Some(v) => Some(copy_bytes(v)),
                    None => None,
                },
                None => None,
            };
            assert(crate::types::opt_view(item) == lookup(m, fs@[i as int]@));
            let ghost before = out@;
            out.push(item);
            proof {
                let lhs = out@.map_values(|o: Option<Value>| crate::types::opt_view(o));
                let rhs = fs@.subrange(0, i + 1).map_values(|f: Key| lookup(m, f@));
                let bm = before.map_values(|o: Option<Value>| crate::types::opt_view(o));
                let prev = fs@.subrange(0, i as int).map_values(|f: Key| lookup(m, f@));
                assert forall|j: int| 0 <= j < i + 1 implies lhs[j] == rhs[j] by {
                    if j < i {
                        assert(out@[j] == before[j]);
                        assert(bm[j] == prev[j]);
                        assert(fs@.subrange(0, i as int)[j] == fs@[j]);
                    } else {
                        assert(out@[j] == item);
                    }
                }
                assert(lhs =~= rhs);
            }
            i = i + 1;
        }
        assert(fs@.subrange(0, i as int) =~= fs@);
        EngineRes::Array(out)
    }

    /// The fields of `k` (the values when `values` holds), in table order.
    fn column(&self, k: &Key, values: bool) -> (r: Vec<Value>)
        requires
            self.wf(),
        ensures
            r@.map_values(|v: Value| v@) == self.entries(k@).map_values(
                |e: (Seq<u8>, Seq<u8>)|
                    if values {
                        e.1
                    } else {
                        e.0
                    },
            ),
    {
        let mut out: Vec<Value> = Vec::new();
        let ghost want = self.entries(k@).map_values(
            |e: (Seq<u8>, Seq<u8>)|
                if values {
                    e.1
                } else {
                    e.0
                },
        );
        match self.find_hash(k) {
            Some(fl) => {
                let mut i: usize = 0;
                while i < fl.len()
                    invariant
                        i <= fl@.len(),
                        want == pairs_of(fl@).map_values(
                            |e: (Seq<u8>, Seq<u8>)|
                                if values {
                                    e.1
                                } else {
                                    e.0
                                },
                        ),
                        want.len() == fl@.len(),
                        out@.len() == i,
                        out@.map_values(|v: Value| v@) == want.subrange(0, i as int),
                    decreases fl@.len() - i,
                {
                    let b = if values {
                        copy_bytes(&fl[i].1)
                    } else {
                        copy_bytes(&fl[i].0)
                    };
                    assert(b@ == want[i as int]);
                    let ghost before = out@;
                    out.push(b);
                    proof {
                        let lhs = out@.map_values(|v: Value| v@);
                        let bm = before.map_values(|v: Value| v@);
                        assert forall|j: int| 0 <= j < i + 1 implies lhs[j] == want[j] by {
                            if j < i {
                                assert(out@[j] == before[j]);
                                assert(bm[j] == want.subrange(0, i as int)[j]);
                            } else {
                                assert(out@[j] == b);
                            }
                        }
                        assert(lhs =~= want.subrange(0, i + 1));
                    }
                    i = i + 1;
                }
                assert(want.subrange(0, i as int) =~= want);
            },
            None => {
                assert(out@.map_values(|v: Value| v@) =~= want);
            },
        }
        out
    }

    /// The field names of `k`, in table order.
    pub fn hkeys(&self, k: &Key) -> (r: EngineRes)
        requires
            self.wf(),
        ensures
            r@ == ResView::Strs(self.entries(k@).map_values(|e: (Seq<u8>, Seq<u8>)| e.0)),
    {
        let out = self.column(k, false);
        assert(out@.map_values(|v: Value| v@) =~= self.entries(k@).map_values(
            |e: (Seq<u8>, Seq<u8>)| e.0,
        ));
        EngineRes::MultiStringRes(out)
    }

    /// The values of `k`, in table order.
    pub fn hvals(&self, k: &Key) -> (r: EngineRes)
        requires
            self.wf(),
        ensures
            r@ == ResView::Strs(self.entries(k@).map_values(|e: (Seq<u8>, Seq<u8>)| e.1)),
    {
        let out = self.column(k, true);
        assert(out@.map_values(|v: Value| v@) =~= self.entries(k@).map_values(
            |e: (Seq<u8>, Seq<u8>)| e.1,
        ));
        EngineRes::MultiStringRes(out)
    }

    /// The number of fields of `k`.
    pub fn hlen(&self, k: &Key) -> (r: EngineRes)
        requires
            self.wf(),
        ensures
            r@ == ResView::UInt(self.fields(k@).dom().len()),
    {
        proof {
            self.lemma_unique_entries(k@);
            crate::assoc::lemma_assoc_len(self.entries(k@));
        }
        match self.find_hash(k) {
            Some(fl) => EngineRes::UIntRes(fl.len()),
            None => EngineRes::UIntRes(0),
        }
    }

    /// The byte length of the value of field `f` of `k`; 0 where there is none.
    pub fn hstrlen(&self, k: &Key, f: &Key) -> (r: EngineRes)
        requires
            self.wf(),
        ensures
            r@ == ResView::UInt(
                match lookup(self.fields(k@), f@) {
                    Some(v) => v.len(),
                    None => 0,
                },
            ),
    {
        match self.find_hash(k) {
            Some(fl) => match fl_get(fl, f) {
                Some(v) => EngineRes::UIntRes(v.len()),
                None => EngineRes::UIntRes(0),
            },
            None => {
                assert(self.fields(k@) =~= Map::empty());
                EngineRes::UIntRes(0)
            },
        }
    }

    /// Sets each (field, value) pair of `k` in turn, creating the table if need be.
    pub fn hmset(&mut self, k: Key, ps: Vec<(Key, Value)>) -> (r: EngineRes)
        requires
            old(self).wf(),
        ensures
            final(self).wf(),
            final(self)@ == old(self)@.insert(k@, final(self)@[k@]),
            final(self).fields(k@) == insert_all(old(self).fields(k@), pairs_of(ps@)),
            r@ == ResView::Success,
    {
        let mut fl = self.take_fields(&k);
        let ghost m0 = old(self).fields(k@);
        let ghost p = pairs_of(ps@);
        let mut i: usize = 0;
        while i < ps.len()
            invariant
                i <= ps@.len(),
                p == pairs_of(ps@),
                unique_keys(pairs_of(fl@)),
                assoc_map(pairs_of(fl@)) == insert_all(m0, p.subrange(0, i as int)),
            decreases ps@.len() - i,
        {
            let f = copy_bytes(&ps[i].0);
            let v = copy_bytes(&ps[i].1);
            fl_set(&mut fl, f, v);
            proof {
                assert(p.subrange(0, i + 1).drop_last() =~= p.subrange(0, i as int));
            }
            i = i + 1;
        }
        assert(p.subrange(0, i as int) =~= p);
        let ghost kv = k@;
        self.put_fields(k, fl);
        assert(final(self)@ =~= old(self)@.insert(kv, final(self)@[kv]));
        EngineRes::Success
    }

    /// Adds `n` to the integer held by field `f` of `k` (an absent field holds
    /// 0) and stores the sum as decimal text. Nothing changes where the field
    /// does not hold a base-10 integer, or where the sum leaves the 64-bit range.
    pub fn hincrby(&mut self, k: Key, f: Key, n: i64) -> (r: EngineRes)
        requires
            old(self).wf(),
        ensures
            final(self).wf(),
            match incr_outcome(old(self).fields(k@), f@, n) {
                Ok(c) => {
                    &&& r@ == ResView::Success
                    &&& final(self)@ == old(self)@.insert(k@, final(self)@[k@])
                    &&& final(self).fields(k@) == old(self).fields(k@).insert(f@, decimal(c as int))
                },
                Err(e) => r@ == ResView::Error(e) && final(self)@ == old(self)@,
            },
    {
        let ghost m0 = old(self).fields(k@);
        let ghost kv = k@;
        let mut fl = self.take_fields(&k);
        let cur: i64 = match fl_get(&fl, &f) {
            Some(v) => match parse_i64(v) {
                Some(c) => c,
                None => {
                    proof {
                        assert(old(self)@.contains_key(kv));
                    }
                    self.put_fields(k, fl);
                    assert(final(self)@ =~= old(self)@);
                    return EngineRes::Error(EngineError::BadType);
                },
            },
            None => 0,
        };
        if (n > 0 && cur > i64::MAX - n) || (n < 0 && cur < i64::MIN - n) {
            proof {
                assert(m0.contains_key(f@));
                assert(old(self)@.contains_key(kv));
            }
            self.put_fields(k, fl);
            assert(final(self)@ =~= old(self)@);
            return EngineRes::Error(EngineError::Overflow);
        }
        let sum = cur + n;
        let text = decimal_bytes(sum);
        fl_set(&mut fl, f, text);
        self.put_fields(k, fl);
        assert(final(self)@ =~= old(self)@.insert(kv, final(self)@[kv]));
        EngineRes::Success
    }

    /// Removes each of the fields `fs` of `k` in turn; the result counts those
    /// that were present. A key without a table is left without one.
    pub fn hdel(&mut self, k: &Key, fs: &Vec<Key>) -> (r: EngineRes)
        requires
            old(self).wf(),
        ensures
            final(self).wf(),
            old(self)@.contains_key(k@) ==> {
                &&& final(self)@ == old(self)@.insert(k@, final(self)@[k@])
                &&& final(self).fields(k@) == remove_all(
                    old(self).fields(k@),
                    fs@.map_values(|f: Key| f@),
                )
                &&& r@ == ResView::UInt(
                    removed_count(old(self).fields(k@), fs@.map_values(|f: Key| f@)),
                )
            },
            !old(self)@.contains_key(k@) ==> final(self)@ == old(self)@ && r@ == ResView::UInt(0),
    {
        if self.find_hash(k).is_none() {
            return EngineRes::UIntRes(0);
        }
        let ghost m0 = old(self).fields(k@);
        let ghost q = fs@.map_values(|f: Key| f@);
        let mut fl = self.take_fields(k);
        let mut count: usize = 0;
        let mut i: usize = 0;
        while i < fs.len()
            invariant
                i <= fs@.len(),
                count <= i,
                q == fs@.map_values(|f: Key| f@),
                unique_keys(pairs_of(fl@)),
                assoc_map(pairs_of(fl@)) == remove_all(m0, q.subrange(0, i as int)),
                count == removed_count(m0, q.subrange(0, i as int)),
            decreases fs@.len() - i,
        {
            let removed = fl_remove(&mut fl, &fs[i]);
            proof {
                assert(q.subrange(0, i + 1).drop_last() =~= q.subrange(0, i as int));
            }
            if removed {
                count = count + 1;
            }
            i = i + 1;
        }
        assert(q.subrange(0, i as int) =~= q);
        let ghost kv = k@;
        let kc = copy_bytes(k);
        self.put_fields(kc, fl);
        assert(final(self)@ =~= old(self)@.insert(kv, final(self)@[kv]));
        EngineRes::UIntRes(count)
    }

    /// Sets field `f` of `k` to `v` only where it is absent: 1 if it was set, else 0.
    pub fn hsetnx(&mut self, k: Key, f: Key, v: Value) -> (r: EngineRes)
        requires
            old(self).wf(),
        ensures
            final(self).wf(),
            old(self).fields(k@).contains_key(f@) ==> r@ == ResView::UInt(0) && final(self)@
                == old(self)@,
            !old(self).fields(k@).contains_key(f@) ==> {
                &&& r@ == ResView::UInt(1)
                &&& final(self)@ == old(self)@.insert(k@, final(self)@[k@])
                &&& final(self).fields(k@) == old(self).fields(k@).insert(f@, v@)
            },
    {
        if let Some(fl) = self.find_hash(&k) {
            if fl_get(fl, &f).is_some() {
                return EngineRes::UIntRes(0);
            }
        } else {
            assert(old(self).fields(k@) =~= Map::empty());
        }
        self.hset(k, f, v);
        EngineRes::UIntRes(1)
    }
}

impl HashOps {
    /// Whether the command only reads the store.
    pub open spec fn reads_only(&self) -> bool {
        match self {
            HashOps::HGet(..) | HashOps::HExists(..) | HashOps::HGetAll(..) | HashOps::HMGet(..)
            | HashOps::HKeys(..) | HashOps::HLen(..) | HashOps::HVals(..) | HashOps::HStrLen(
                ..,
            ) => true,
            _ => false,
        }
    }

    /// Whether the command only reads the store, so that it may run beside
    /// other readers.
    pub fn is_read_only(&self) -> (r: bool)
        ensures
            r == self.reads_only(),
    {
        match self {
            HashOps::HGet(..) | HashOps::HExists(..) | HashOps::HGetAll(..) | HashOps::HMGet(..)
            | HashOps::HKeys(..) | HashOps::HLen(..) | HashOps::HVals(..) | HashOps::HStrLen(
                ..,
            ) => true,
            _ => false,
        }
    }
}

/// What a reading command returns on the store `h`.
pub open spec fn read_result(h: Hashes, op: HashOps) -> ResView {
    match op {
        HashOps::HGet(k, f) => match lookup(h.fields(k@), f@) {
            Some(v) => ResView::Str(v),
            None => ResView::Nil,
        },
        HashOps::HExists(k, f) => ResView::UInt(
            if h.fields(k@).contains_key(f@) {
                1
            } else {
                0
            },
        ),
        HashOps::HGetAll(k) => ResView::Strs(flatten_pairs(h.entries(k@))),
        HashOps::HMGet(k, fs) => ResView::Array(fs@.map_values(|f: Key| lookup(h.fields(k@), f@))),
        HashOps::HKeys(k) => ResView::Strs(h.entries(k@).map_values(|e: (Seq<u8>, Seq<u8>)| e.0)),
        HashOps::HLen(k) => ResView::UInt(h.fields(k@).dom().len()),
        HashOps::HVals(k) => ResView::Strs(h.entries(k@).map_values(|e: (Seq<u8>, Seq<u8>)| e.1)),
        HashOps::HStrLen(k, f) => ResView::UInt(
            match lookup(h.fields(k@), f@) {
                Some(v) => v.len(),
                None => 0,
            },
        ),
        _ => ResView::Nil,
    }
}

/// Executes one reading hash command against the store.
pub fn hash_read(hash_op: &HashOps, hashes: &Hashes) -> (r: EngineRes)
    requires
        hashes.wf(),
        hash_op.reads_only(),
    ensures
        r@ == read_result(*hashes, *hash_op),
{
    match hash_op {
        HashOps::HGet(k, f) => hashes.hget(k, f),
        HashOps::HExists(k, f) => hashes.hexists(k, f),
        HashOps::HGetAll(k) => hashes.hgetall(k),
        HashOps::HMGet(k, fs) => hashes.hmget(k, fs),
        HashOps::HKeys(k) => hashes.hkeys(k),
        HashOps::HLen(k) => hashes.hlen(k),
        HashOps::HVals(k) => hashes.hvals(k),
        HashOps::HStrLen(k, f) => hashes.hstrlen(k, f),
        _ => EngineRes::Nil,
    }
}

/// Executes one hash command against the store. Reading commands leave the
/// store as it was.
pub fn hash_interact(hash_op: HashOps, hashes: &mut Hashes) -> (r: EngineRes)
    requires
        old(hashes).wf(),
    ensures
        final(hashes).wf(),
        hash_op.reads_only() ==> final(hashes)@ == old(hashes)@ && r@ == read_result(
            *old(hashes),
            hash_op,
        ),
        match hash_op {
            HashOps::HSet(k, f, v) => {
                &&& final(hashes)@ == old(hashes)@.insert(k@, final(hashes)@[k@])
                &&& final(hashes).fields(k@) == old(hashes).fields(k@).insert(f@, v@)
                &&& r@ == ResView::Success
            },
            HashOps::HMSet(k, ps) => {
                &&& final(hashes)@ == old(hashes)@.insert(k@, final(hashes)@[k@])
                &&& final(hashes).fields(k@) == insert_all(old(hashes).fields(k@), pairs_of(ps@))
                &&& r@ == ResView::Success
            },
            HashOps::HIncrBy(k, f, n) => match incr_outcome(old(hashes).fields(k@), f@, n) {
                Ok(c) => {
                    &&& r@ == ResView::Success
                    &&& final(hashes)@ == old(hashes)@.insert(k@, final(hashes)@[k@])
                    &&& final(hashes).fields(k@) == old(hashes).fields(k@).insert(
                        f@,
                        decimal(c as int),
                    )
                },
                Err(e) => r@ == ResView::Error(e) && final(hashes)@ == old(hashes)@,
            },
            HashOps::HDel(k, fs) => if old(hashes)@.contains_key(k@) {
                &&& final(hashes)@ == old(hashes)@.insert(k@, final(hashes)@[k@])
                &&& final(hashes).fields(k@) == remove_all(
                    old(hashes).fields(k@),
                    fs@.map_values(|f: Key| f@),
                )
                &&& r@ == ResView::UInt(
                    removed_count(old(hashes).fields(k@), fs@.map_values(|f: Key| f@)),
                )
            } else {
                final(hashes)@ == old(hashes)@ && r@ == ResView::UInt(0)
            },
            HashOps::HSetNX(k, f, v) => if old(hashes).fields(k@).contains_key(f@) {
                r@ == ResView::UInt(0) && final(hashes)@ == old(hashes)@
            } else {
                &&& r@ == ResView::UInt(1)
                &&& final(hashes)@ == old(hashes)@.insert(k@, final(hashes)@[k@])
                &&& final(hashes).fields(k@) == old(hashes).fields(k@).insert(f@, v@)
            },
            _ => hash_op.reads_only(),
        },
{
    match hash_op {
        HashOps::HGet(k, f) => hashes.hget(&k, &f),
        HashOps::HSet(k, f, v) => hashes.hset(k, f, v),
        HashOps::HExists(k, f) => hashes.hexists(&k, &f),
        HashOps::HGetAll(k) => hashes.hgetall(&k),
        HashOps::HMGet(k, fs) => hashes.hmget(&k, &fs),
        HashOps::HKeys(k) => hashes.hkeys(&k),
        HashOps::HMSet(k, ps) => hashes.hmset(k, ps),
        HashOps::HIncrBy(k, f, n) => hashes.hincrby(k, f, n),
        HashOps::HLen(k) => hashes.hlen(&k),
        HashOps::HDel(k, fs) => hashes.hdel(&k, &fs),
        HashOps::HVals(k) => hashes.hvals(&k),
        HashOps::HStrLen(k, f) => hashes.hstrlen(&k, &f),
        HashOps::HSetNX(k, f, v) => hashes.hsetnx(k, f, v),
    }
}

} // verus!
