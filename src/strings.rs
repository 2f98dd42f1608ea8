//! The string engine: one value per key.
use vstd::prelude::*;

use crate::assoc::{assoc_map, copy_bytes, unique_keys};
use crate::hashes::{fl_get, fl_remove, fl_set, lookup, pairs_of, remove_all, removed_count};
use crate::types::{EngineError, EngineRes, Key, ResView, Value};

verus! {

/// How many of the keys, counted as often as they are named, are present.
pub open spec fn present_count(m: Map<Seq<u8>, Seq<u8>>, ks: Seq<Seq<u8>>) -> nat
    decreases ks.len(),
{
    if ks.len() == 0 {
        0
    } else {
        present_count(m, ks.drop_last()) + if m.contains_key(ks.last()) {
            1nat
        } else {
            0nat
        }
    }
}

/// The values of all keys.
pub struct Strings {
    entries: Vec<(Key, Value)>,
}

impl View for Strings {
    type V = Map<Seq<u8>, Seq<u8>>;

    closed spec fn view(&self) -> Self::V {
        assoc_map(pairs_of(self.entries@))
    }
}

impl Strings {
    /// No key occurs twice.
    pub closed spec fn wf(&self) -> bool {
        unique_keys(pairs_of(self.entries@))
    }

    /// A store with no key.
    pub fn new() -> (r: Strings)
        ensures
            r.wf(),
            r@ == Map::<Seq<u8>, Seq<u8>>::empty(),
    {
        let r = Strings { entries: Vec::new() };
        assert(pairs_of(r.entries@) =~= seq![]);
        r
    }

    /// Sets the value of `k`.
    pub fn set(&mut self, k: Key, v: Value) -> (r: EngineRes)
        requires
            old(self).wf(),
        ensures
            final(self).wf(),
            final(self)@ == old(self)@.insert(k@, v@),
            r@ == ResView::Success,
    {
        fl_set(&mut self.entries, k, v);
        EngineRes::Success
    }

    /// The value of `k`.
    pub fn get(&self, k: &Key) -> (r: EngineRes)
        requires
            self.wf(),
        ensures
            r@ == match lookup(self@, k@) {
                Some(v) => ResView::Str(v),
                None => ResView::Nil,
            },
    {
        match fl_get(&self.entries, k) {
            Some(v) => EngineRes::StringRes(copy_bytes(v)),
            None => EngineRes::Nil,
        }
    }

    /// Removes each of the keys in turn; the result counts those that were present.
    pub fn del(&mut self, ks: &Vec<Key>) -> (r: EngineRes)
        requires
            old(self).wf(),
        ensures
            final(self).wf(),
            final(self)@ == remove_all(old(self)@, ks@.map_values(|k: Key| k@)),
            r@ == ResView::UInt(removed_count(old(self)@, ks@.map_values(|k: Key| k@))),
    {
        let ghost m0 = self@;
        let ghost q = ks@.map_values(|k: Key| k@);
        let mut count: usize = 0;
        let mut i: usize = 0;
        while i < ks.len()
            invariant
                i <= ks@.len(),
                count <= i,
                q == ks@.map_values(|k: Key| k@),
                self.wf(),
                self@ == remove_all(m0, q.subrange(0, i as int)),
                count == removed_count(m0, q.subrange(0, i as int)),
            decreases ks@.len() - i,
        {
            let removed = fl_remove(&mut self.entries, &ks[i]);
            proof {
                assert(q.subrange(0, i + 1).drop_last() =~= q.subrange(0, i as int));
            }
            if removed {
                count = count + 1;
            }
            i = i + 1;
        }
        assert(q.subrange(0, i as int) =~= q);
        EngineRes::UIntRes(count)
    }

    /// How many of the keys are present, each counted as often as it is named.
    pub fn count_present(&self, ks: &Vec<Key>) -> (r: EngineRes)
        requires
            self.wf(),
        ensures
            r@ == ResView::UInt(present_count(self@, ks@.map_values(|k: Key| k@))),
    {
        let ghost q = ks@.map_values(|k: Key| k@);
        let mut count: usize = 0;
        let mut i: usize = 0;
        while i < ks.len()
            invariant
                i <= ks@.len(),
                count <= i,
                q == ks@.map_values(|k: Key| k@),
                self.wf(),
                count == present_count(self@, q.subrange(0, i as int)),
            decreases ks@.len() - i,
        {
            let found = fl_get(&self.entries, &ks[i]).is_some();
            proof {
                assert(q.subrange(0, i + 1).drop_last() =~= q.subrange(0, i as int));
            }
            if found {
                count = count + 1;
            }
            i = i + 1;
        }
        assert(q.subrange(0, i as int) =~= q);
        EngineRes::UIntRes(count)
    }

    /// Moves the value of `k` to `new_key`, replacing any value there. Where
    /// `k` is absent, fails with `NoSuchKey` and changes nothing.
    pub fn rename(&mut self, k: &Key, new_key: Key) -> (r: EngineRes)
        requires
            old(self).wf(),
        ensures
            final(self).wf(),
            old(self)@.contains_key(k@) ==> r@ == ResView::Success && final(self)@ == old(
                self,
            )@.remove(k@).insert(new_key@, old(self)@[k@]),
            !old(self)@.contains_key(k@) ==> r@ == ResView::Error(EngineError::NoSuchKey)
                && final(self)@ == old(self)@,
    {
        let v = match fl_get(&self.entries, k) {
            Some(v) => copy_bytes(v),
            None => {
                return EngineRes::Error(EngineError::NoSuchKey);
            },
        };
        fl_remove(&mut self.entries, k);
        fl_set(&mut self.entries, new_key, v);
        EngineRes::Success
    }
}

} // verus!
