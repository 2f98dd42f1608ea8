//! The list engine: an ordered sequence of values per key, pushed and popped
//! at the front.
use vstd::prelude::*;

use crate::assoc::{
    assoc_map, find_key, lemma_assoc_absent, lemma_assoc_get, lemma_assoc_push, lemma_assoc_remove,
    lemma_unique_push, unique_keys,
};
use crate::types::{EngineRes, Key, ResView, Value};

verus! {

/// A list kept with its front at the end of the vector, read front first.
pub open spec fn front_first(v: Seq<Value>) -> Seq<Seq<u8>> {
    Seq::new(v.len(), |i: int| v[v.len() - 1 - i]@)
}

/// The values of `vs` pushed at the front one after another: the last one
/// pushed comes first.
pub open spec fn pushed_front(vs: Seq<Seq<u8>>, l: Seq<Seq<u8>>) -> Seq<Seq<u8>> {
    vs.reverse() + l
}

/// The lists of all keys. A list that becomes empty stays.
pub struct Lists {
    entries: Vec<(Key, Vec<Value>)>,
}

impl View for Lists {
    /// For each key that has a list, its values front first.
    type V = Map<Seq<u8>, Seq<Seq<u8>>>;

    closed spec fn view(&self) -> Self::V {
        assoc_map(self.top())
    }
}

impl Lists {
    closed spec fn top(&self) -> Seq<(Seq<u8>, Seq<Seq<u8>>)> {
        self.entries@.map_values(|e: (Key, Vec<Value>)| (e.0@, front_first(e.1@)))
    }

    /// No key occurs twice.
    pub closed spec fn wf(&self) -> bool {
        unique_keys(self.top())
    }

    /// The list of `k`, front first; empty where `k` has none.
    pub open spec fn list(&self, k: Seq<u8>) -> Seq<Seq<u8>> {
        if self@.contains_key(k) {
            self@[k]
        } else {
            seq![]
        }
    }

    /// A store with no key.
    pub fn new() -> (r: Lists)
        ensures
            r.wf(),
            r@ == Map::<Seq<u8>, Seq<Seq<u8>>>::empty(),
    {
        let r = Lists { entries: Vec::new() };
        assert(r.top() =~= seq![]);
        r
    }

    fn position(&self, k: &Key) -> (r: Option<usize>)
        requires
            self.wf(),
        ensures
            match r {
                Some(i) => i < self.entries@.len() && self.top()[i as int].0 == k@
                    && self@.contains_key(k@) && self@[k@] == front_first(
                    self.entries@[i as int].1@,
                ),
                None => !self@.contains_key(k@),
            },
    {
        let ghost t = self.top();
        match find_key(&self.entries, k) {
            Some(i) => {
                proof {
                    lemma_assoc_get(t, i as int);
                }
                Some(i)
            },
            None => {
                proof {
                    assert forall|i: int| 0 <= i < t.len() implies #[trigger] t[i].0 != k@ by {
                        assert(t[i].0 == self.entries@[i].0@);
                    }
                    lemma_assoc_absent(t, k@);
                }
                None
            },
        }
    }

    /// Takes the list of `k` out of the store (an empty one where there is none).
    fn take_list(&mut self, k: &Key) -> (r: Vec<Value>)
        requires
            old(self).wf(),
        ensures
            final(self).wf(),
            final(self)@ == old(self)@.remove(k@),
            front_first(r@) == old(self).list(k@),
    {
        let ghost t = self.top();
        match self.position(k) {
            Some(i) => {
                proof {
                    lemma_assoc_remove(t, i as int);
                }
                let (_, l) = self.entries.remove(i);
                assert(self.top() =~= t.remove(i as int));
                l
            },
            None => {
                assert(self@.remove(k@) =~= self@);
                let l: Vec<Value> = Vec::new();
                assert(front_first(l@) =~= seq![]);
                l
            },
        }
    }

    /// Puts a list for `k`, which has none, into the store.
    fn put_list(&mut self, k: Key, l: Vec<Value>)
        requires
            old(self).wf(),
            !old(self)@.contains_key(k@),
        ensures
            final(self).wf(),
            final(self)@ == old(self)@.insert(k@, front_first(l@)),
    {
        let ghost t = self.top();
        let ghost e = (k@, front_first(l@));
        proof {
            lemma_assoc_push(t, e);
            lemma_unique_push(t, e);
        }
        self.entries.push((k, l));
        assert(self.top() =~= t.push(e));
    }

    /// Pushes each value at the front of the list of `k` in turn, creating the
    /// list if need be; the result is the new length.
    pub fn lpush(&mut self, k: Key, vals: Vec<Value>) -> (r: EngineRes)
        requires
            old(self).wf(),
        ensures
            final(self).wf(),
            final(self)@ == old(self)@.insert(
                k@,
                pushed_front(vals@.map_values(|v: Value| v@), old(self).list(k@)),
            ),
            r@ == ResView::UInt(final(self)@[k@].len()),
    {
        let ghost l0 = old(self).list(k@);
        let ghost q = vals@.map_values(|v: Value| v@);
        let total = vals.len();
        let mut l = self.take_list(&k);
        let mut vals = vals;
        let mut rest: Vec<Value> = Vec::new();
        // Reverse the values so that they can be taken off in order.
        while vals.len() > 0
            invariant
                vals@.len() + rest@.len() == q.len(),
                forall|j: int| 0 <= j < vals@.len() ==> #[trigger] vals@[j]@ == q[j],
                forall|j: int|
                    0 <= j < rest@.len() ==> #[trigger] rest@[j]@ == q[q.len() - 1 - j],
            decreases vals@.len(),
        {
            let v = vals.pop().unwrap();
            rest.push(v);
        }
        let mut pushed: usize = 0;
        while rest.len() > 0
            invariant
                q.len() == total,
                rest@.len() + pushed == q.len(),
                forall|j: int|
                    0 <= j < rest@.len() ==> #[trigger] rest@[j]@ == q[q.len() - 1 - j],
                front_first(l@) == q.subrange(0, pushed as int).reverse() + l0,
            decreases rest@.len(),
        {
            let v = rest.pop().unwrap();
            let ghost before = front_first(l@);
            l.push(v);
            proof {
                let s0 = q.subrange(0, pushed as int);
                let s1 = q.subrange(0, pushed + 1);
                assert(v@ == q[pushed as int]);
                assert(s1.reverse() =~= seq![q[pushed as int]] + s0.reverse());
                assert(front_first(l@) =~= seq![v@] + before);
            }
            pushed = pushed + 1;
        }
        assert(q.subrange(0, pushed as int) =~= q);
        let n = l.len();
        self.put_list(k, l);
        EngineRes::UIntRes(n)
    }

    /// Pushes `v` at the front of the list of `k` only where that list exists;
    /// the result is the new length, or 0 where there is no list.
    pub fn lpushx(&mut self, k: Key, v: Value) -> (r: EngineRes)
        requires
            old(self).wf(),
        ensures
            final(self).wf(),
            old(self)@.contains_key(k@) ==> final(self)@ == old(self)@.insert(
                k@,
                seq![v@] + old(self)@[k@],
            ) && r@ == ResView::UInt(old(self)@[k@].len() + 1),
            !old(self)@.contains_key(k@) ==> final(self)@ == old(self)@ && r@ == ResView::UInt(0),
    {
        if self.position(&k).is_none() {
            return EngineRes::UIntRes(0);
        }
        let mut l = self.take_list(&k);
        let ghost before = front_first(l@);
        l.push(v);
        assert(front_first(l@) =~= seq![v@] + before);
        let n = l.len();
        self.put_list(k, l);
        EngineRes::UIntRes(n)
    }

    /// The length of the list of `k`.
    pub fn llen(&self, k: &Key) -> (r: EngineRes)
        requires
            self.wf(),
        ensures
            r@ == ResView::UInt(self.list(k@).len()),
    {
        match self.position(k) {
            Some(i) => EngineRes::UIntRes(self.entries[i].1.len()),
            None => EngineRes::UIntRes(0),
        }
    }

    /// Takes the front value off the list of `k`; nothing where the list is
    /// absent or empty.
    pub fn lpop(&mut self, k: &Key) -> (r: EngineRes)
        requires
            old(self).wf(),
        ensures
            final(self).wf(),
            old(self).list(k@).len() > 0 ==> r@ == ResView::Str(old(self).list(k@)[0])
                && final(self)@ == old(self)@.insert(k@, old(self).list(k@).drop_first()),
            old(self).list(k@).len() == 0 ==> r@ == ResView::Nil && final(self)@ == old(self)@,
    {
        let i = match self.position(k) {
            None => {
                return EngineRes::Nil;
            },
            Some(i) => i,
        };
        if self.entries[i].1.len() == 0 {
            return EngineRes::Nil;
        }
        assert(old(self).list(k@).len() > 0);
        let mut l = self.take_list(k);
        let ghost before = front_first(l@);
        let v = l.pop().unwrap();
        assert(front_first(l@) =~= before.drop_first());
        let kc = crate::assoc::copy_bytes(k);
        self.put_list(kc, l);
        EngineRes::StringRes(v)
    }
}

} // verus!
