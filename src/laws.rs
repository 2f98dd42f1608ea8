//! Properties that relate several commands, stated over
//! the models that the commands' contracts use.
use vstd::prelude::*;

use crate::assoc::lemma_assoc_len;
use crate::hashes::{flatten_pairs, incr_outcome, lookup, remove_all, removed_count, Hashes};
use crate::numeric::{decimal, lemma_parse_decimal_i64, parse_i64_spec};
use crate::ops::{array_spec, command_named, lower, str_arg, Command, OpsError, OpsView};
use crate::types::{EngineError, RedisValue};

verus! {

/// After field `f` of a key is set to `v`, reading that field gives `v`.
pub proof fn law_set_then_get(m: Map<Seq<u8>, Seq<u8>>, f: Seq<u8>, v: Seq<u8>)
    ensures
        lookup(m.insert(f, v), f) == Some(v),
{
}

/// Deleting a field that was just set removes exactly that one field: the
/// count of fields drops by one, one removal is reported, and the field reads
/// as absent.
pub proof fn law_delete_after_set(h: Hashes, k: Seq<u8>, f: Seq<u8>)
    requires
        h.wf(),
        h.fields(k).contains_key(f),
    ensures
        h.fields(k).dom().finite(),
        remove_all(h.fields(k), seq![f]).dom().len() == h.fields(k).dom().len() - 1,
        removed_count(h.fields(k), seq![f]) == 1,
        lookup(remove_all(h.fields(k), seq![f]), f) == None::<Seq<u8>>,
{
    h.lemma_unique_entries(k);
    lemma_assoc_len(h.entries(k));
    let fs = seq![f];
    let m = h.fields(k);
    assert(fs.drop_last() =~= Seq::<Seq<u8>>::empty());
    assert(fs.last() == f);
    assert(remove_all(m, fs.drop_last()) == m);
    assert(removed_count(m, fs.drop_last()) == 0);
    assert(remove_all(m, fs) == m.remove(f));
}

/// Incrementing an absent field by `n` stores `n`; incrementing it again by
/// `m` stores `n + m`.
pub proof fn law_increment_twice(fields: Map<Seq<u8>, Seq<u8>>, f: Seq<u8>, n: i64, m: i64)
    requires
        !fields.contains_key(f),
        i64::MIN <= n + m <= i64::MAX,
    ensures
        incr_outcome(fields, f, n) == Ok::<i64, EngineError>(n),
        incr_outcome(fields.insert(f, decimal(n as int)), f, m) == Ok::<i64, EngineError>(
            (n + m) as i64,
        ),
{
    lemma_parse_decimal_i64(n);
}

/// Incrementing a field that does not hold a base-10 integer fails with
/// `BadType` (and the contract of the increment leaves the store as it was).
pub proof fn law_increment_bad_type(fields: Map<Seq<u8>, Seq<u8>>, f: Seq<u8>, n: i64)
    requires
        fields.contains_key(f),
        parse_i64_spec(fields[f]) is None,
    ensures
        incr_outcome(fields, f, n) == Err::<i64, EngineError>(EngineError::BadType),
{
}

/// The fields after incrementing field `f` by one, `count` times in a row,
/// starting from `fields`; `None` once an increment fails.
pub open spec fn increments(fields: Map<Seq<u8>, Seq<u8>>, f: Seq<u8>, count: nat) -> Option<
    Map<Seq<u8>, Seq<u8>>,
>
    decreases count,
{
    if count == 0 {
        Some(fields)
    } else {
        match increments(fields, f, (count - 1) as nat) {
            Some(m) => match incr_outcome(m, f, 1) {
                Ok(c) => Some(m.insert(f, decimal(c as int))),
                Err(_) => None,
            },
            None => None,
        }
    }
}

/// Incrementing an absent field by one `count` times leaves it at `count`:
/// no increment is lost.
pub proof fn law_increments_accumulate(fields: Map<Seq<u8>, Seq<u8>>, f: Seq<u8>, count: nat)
    requires
        !fields.contains_key(f),
        count <= i64::MAX,
    ensures
        increments(fields, f, count) == Some(
            if count == 0 {
                fields
            } else {
                fields.insert(f, decimal(count as int))
            },
        ),
    decreases count,
{
    if count > 0 {
        let c = (count - 1) as nat;
        law_increments_accumulate(fields, f, c);
        if c == 0 {
            assert(increments(fields, f, 0) == Some(fields));
            assert(incr_outcome(fields, f, 1) == Ok::<i64, EngineError>(1));
        } else {
            let m = fields.insert(f, decimal(c as int));
            lemma_parse_decimal_i64(c as i64);
            assert(parse_i64_spec(m[f]) == Some(c as i64));
            assert(incr_outcome(m, f, 1) == Ok::<i64, EngineError>(count as i64));
            assert(m.insert(f, decimal(count as int)) =~= fields.insert(f, decimal(count as int)));
        }
    }
}

/// Setting a field only where absent succeeds once: afterwards the field holds
/// the first value, and every later attempt finds it present and changes nothing.
pub proof fn law_set_if_absent_once(fields: Map<Seq<u8>, Seq<u8>>, f: Seq<u8>, v: Seq<u8>)
    requires
        !fields.contains_key(f),
    ensures
        fields.insert(f, v).contains_key(f),
        lookup(fields.insert(f, v), f) == Some(v),
{
}

proof fn lemma_flatten(p: Seq<(Seq<u8>, Seq<u8>)>)
    ensures
        flatten_pairs(p).len() == 2 * p.len(),
        forall|i: int|
            0 <= i < p.len() ==> flatten_pairs(p)[2 * i] == #[trigger] p[i].0 && flatten_pairs(
                p,
            )[2 * i + 1] == p[i].1,
    decreases p.len(),
{
    if p.len() > 0 {
        let q = p.drop_last();
        lemma_flatten(q);
        let fq = flatten_pairs(q);
        assert(flatten_pairs(p) == fq.push(p.last().0).push(p.last().1));
        assert forall|i: int| 0 <= i < p.len() implies flatten_pairs(p)[2 * i] == #[trigger] p[i].0
            && flatten_pairs(p)[2 * i + 1] == p[i].1 by {
            if i < q.len() {
                assert(q[i].0 == p[i].0 && q[i].1 == p[i].1);
                assert(flatten_pairs(p)[2 * i] == fq[2 * i]);
                assert(flatten_pairs(p)[2 * i + 1] == fq[2 * i + 1]);
            } else {
                assert(p[i] == p.last());
            }
        }
    }
}

/// Reading all fields of a key gives each (field, value) pair of its table
/// side by side, twice as many items as fields; a key without a table gives
/// an empty list.
pub proof fn law_get_all_pairs(h: Hashes, k: Seq<u8>)
    requires
        h.wf(),
    ensures
        flatten_pairs(h.entries(k)).len() == 2 * h.fields(k).dom().len(),
        forall|i: int|
            0 <= i < h.entries(k).len() ==> flatten_pairs(h.entries(k))[2 * i]
                == #[trigger] h.entries(k)[i].0 && flatten_pairs(h.entries(k))[2 * i + 1]
                == h.entries(k)[i].1 && h.fields(k).contains_key(h.entries(k)[i].0) && h.fields(
                k,
            )[h.entries(k)[i].0] == h.entries(k)[i].1,
        !h@.contains_key(k) ==> flatten_pairs(h.entries(k)) == Seq::<Seq<u8>>::empty(),
{
    h.lemma_unique_entries(k);
    lemma_assoc_len(h.entries(k));
    lemma_flatten(h.entries(k));
    let e = h.entries(k);
    assert forall|i: int| 0 <= i < e.len() implies flatten_pairs(e)[2 * i] == #[trigger] e[i].0
        && flatten_pairs(e)[2 * i + 1] == e[i].1 && h.fields(k).contains_key(e[i].0) && h.fields(
        k,
    )[e[i].0] == e[i].1 by {
        crate::assoc::lemma_assoc_get(e, i);
    }
}

/// Reading two fields of which only the first is present gives its value,
/// then nothing: the answers follow the order asked.
pub proof fn law_multi_get_order(fields: Map<Seq<u8>, Seq<u8>>, f1: Seq<u8>, f2: Seq<u8>)
    requires
        fields.contains_key(f1),
        !fields.contains_key(f2),
    ensures
        seq![f1, f2].map_values(|f: Seq<u8>| lookup(fields, f)) == seq![Some(fields[f1]), None],
{
    assert(seq![f1, f2].map_values(|f: Seq<u8>| lookup(fields, f)) =~= seq![
        Some(fields[f1]),
        None,
    ]);
}

/// A command array whose name is `hset` (in any case) and that does not carry
/// exactly a key, a field and a value fails with the count it needs; an empty
/// array is a no-op, not an unknown command.
pub proof fn law_hset_arity_and_empty(a: Seq<RedisValue>)
    ensures
        a.len() == 0 ==> array_spec(a) == Err::<OpsView, OpsError>(OpsError::Noop),
        a.len() > 0 && a.len() != 4 && (str_arg(a[0]) matches Ok(h) && command_named(lower(h))
            == Some(Command::HSet)) ==> array_spec(a) == Err::<OpsView, OpsError>(
            OpsError::WrongNumberOfArgs(3),
        ),
{
}

} // verus!
