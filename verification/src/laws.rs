//! The laws of the log store, each proved once and for all over the
//! abstract [`StoreView`] that every store operation is specified against.

use vstd::prelude::*;
use crate::store::{
    StoreView, StoreError, append_step, append_offset, read_result, entries_from, commit_step,
    committed_result,
};

verus! {

/// The store after appending the values of `vs` to `k`, one after another,
/// in order.
pub open spec fn apply_appends(s: StoreView, k: Seq<char>, vs: Seq<u64>) -> StoreView
    decreases vs.len(),
{
    if vs.len() == 0 {
        s
    } else {
        append_step(apply_appends(s, k, vs.drop_last()), k, vs.last())
    }
}

/// The store after a batch of appends, each to its own key, in order.
pub open spec fn apply_append_ops(s: StoreView, ops: Seq<(Seq<char>, u64)>) -> StoreView
    decreases ops.len(),
{
    if ops.len() == 0 {
        s
    } else {
        append_step(apply_append_ops(s, ops.drop_last()), ops.last().0, ops.last().1)
    }
}

/// Appending `vs` to a fresh key builds exactly the log `vs`.
proof fn lemma_appends_build_log(s: StoreView, k: Seq<char>, vs: Seq<u64>)
    requires
        !s.logs.contains_key(k),
    ensures
        vs.len() == 0 ==> apply_appends(s, k, vs) == s,
        vs.len() > 0 ==> apply_appends(s, k, vs).logs.contains_key(k) && apply_appends(
            s,
            k,
            vs,
        ).logs[k] == vs,
    decreases vs.len(),
{
    if vs.len() > 0 {
        lemma_appends_build_log(s, k, vs.drop_last());
        let s1 = apply_appends(s, k, vs.drop_last());
        if vs.len() == 1 {
            assert(s1.log_at(k) =~= Seq::<u64>::empty());
        }
        assert(s1.log_at(k).push(vs.last()) =~= vs);
    }
}

/// Law: after the values `v0 .. vn-1` have been appended to a fresh key
/// `k`, a read from offset `0` succeeds and returns exactly
/// `[(0, v0), (1, v1), .., (n-1, vn-1)]`. (A read on a key that has seen no
/// append at all fails with `KeyNotFound` instead, so at least one appended
/// value is required here.)
pub proof fn lemma_read_from_zero_returns_all(s: StoreView, k: Seq<char>, vs: Seq<u64>)
    requires
        !s.logs.contains_key(k),
        0 < vs.len() <= usize::MAX,
    ensures
        apply_appends(s, k, vs).logs[k] == vs,
        read_result(apply_appends(s, k, vs), k, 0) matches Ok(es) && es.len() == vs.len() && (
        forall|i: int| 0 <= i < vs.len() ==> es[i] == ((i as usize, vs[i]))),
{
    lemma_appends_build_log(s, k, vs);
    let s2 = apply_appends(s, k, vs);
    assert(read_result(s2, k, 0) == Ok::<Seq<(usize, u64)>, StoreError>(entries_from(vs, 0)));
}

/// A batch of appends that never touches `k` leaves `k`'s log as it was.
proof fn lemma_other_appends_preserve_log(s: StoreView, ops: Seq<(Seq<char>, u64)>, k: Seq<char>)
    requires
        forall|i: int| 0 <= i < ops.len() ==> ops[i].0 != k,
    ensures
        apply_append_ops(s, ops).log_at(k) == s.log_at(k),
    decreases ops.len(),
{
    if ops.len() > 0 {
        assert(forall|i: int|
            0 <= i < ops.drop_last().len() ==> ops.drop_last()[i] == ops[i]);
        lemma_other_appends_preserve_log(s, ops.drop_last(), k);
        assert(ops.last() == ops[ops.len() - 1]);
    }
}

/// Law: append offsets are strictly increasing per key and start at `0` for
/// a fresh key, regardless of interleaved appends to other keys: the offset
/// an append to `k` is assigned is strictly below the offset the next
/// append to `k` is assigned, however many appends to other keys come in
/// between.
pub proof fn lemma_append_offsets_strictly_increase(
    s: StoreView,
    k: Seq<char>,
    v1: u64,
    ops: Seq<(Seq<char>, u64)>,
)
    requires
        forall|i: int| 0 <= i < ops.len() ==> ops[i].0 != k,
    ensures
        !s.logs.contains_key(k) ==> append_offset(s, k) == 0,
        append_offset(s, k) < append_offset(apply_append_ops(append_step(s, k, v1), ops), k),
{
    let s1 = append_step(s, k, v1);
    lemma_other_appends_preserve_log(s1, ops, k);
    assert(s1.log_at(k) == s.log_at(k).push(v1));
}

/// Law: a read from an offset equal to the log's current length succeeds
/// with an empty sequence — "nothing new yet" is not an error.
pub proof fn lemma_read_at_length_is_empty(s: StoreView, k: Seq<char>, n: usize)
    requires
        s.logs.contains_key(k),
        n as int == s.logs[k].len(),
    ensures
        read_result(s, k, n) == Ok::<Seq<(usize, u64)>, StoreError>(Seq::empty()),
{
    assert(entries_from(s.logs[k], n as int) =~= Seq::<(usize, u64)>::empty());
}

/// Law: a read from any offset strictly beyond the log's current length —
/// in particular from length plus one — fails with `InvalidOffset`.
pub proof fn lemma_read_past_length_is_invalid(s: StoreView, k: Seq<char>, start: usize)
    requires
        s.logs.contains_key(k),
        start > s.logs[k].len(),
    ensures
        read_result(s, k, start) == Err::<Seq<(usize, u64)>, StoreError>(StoreError::InvalidOffset),
{
}

/// Law: a read on a key that has never been appended to fails with
/// `KeyNotFound`, whatever the start offset — also when a bare
/// committed-offset marker exists for that key.
pub proof fn lemma_read_unknown_key_fails(s: StoreView, k: Seq<char>, start: usize)
    requires
        !s.logs.contains_key(k),
    ensures
        read_result(s, k, start) == Err::<Seq<(usize, u64)>, StoreError>(StoreError::KeyNotFound),
{
}

/// Law: a commit followed immediately by a lookup returns the committed
/// offset, and a second commit with another value overwrites the first —
/// last write wins, with no monotonicity enforced.
pub proof fn lemma_commit_then_lookup(s: StoreView, k: Seq<char>, o1: usize, o2: usize)
    ensures
        committed_result(commit_step(s, k, o1), k) == o1,
        committed_result(commit_step(commit_step(s, k, o1), k, o2), k) == o2,
        commit_step(s, k, o1).logs == s.logs,
{
}

/// Law: a committed-offset lookup on a key never committed for returns `0`;
/// and since the lookup takes the store by shared reference it creates
/// nothing, so a subsequent read on a key never appended to still fails
/// with `KeyNotFound`.
pub proof fn lemma_lookup_unknown_key(s: StoreView, k: Seq<char>)
    requires
        !s.commits.contains_key(k),
    ensures
        committed_result(s, k) == 0,
        !s.logs.contains_key(k) ==> read_result(s, k, 0) == Err::<
            Seq<(usize, u64)>,
            StoreError,
        >(StoreError::KeyNotFound),
{
}

} // verus!
