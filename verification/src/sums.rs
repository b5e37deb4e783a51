//! How the running lengths of keys and slots behave when an entry comes
//! in, changes or goes out.

use vstd::prelude::*;
use crate::index_table::{slots_len_upto, IndexTableEntry};
use crate::mapping::keys_len_upto;

verus! {

/// The first keys of two sequences take the same bytes where the two
/// agree on them.
pub proof fn lemma_keys_len_prefix(a: Seq<Seq<u8>>, b: Seq<Seq<u8>>, n: int)
    requires
        0 <= n <= a.len(),
        n <= b.len(),
        forall|j: int| 0 <= j < n ==> #[trigger] a[j] == b[j],
    ensures
        keys_len_upto(a, n) == keys_len_upto(b, n),
    decreases n,
{
    if n > 0 {
        lemma_keys_len_prefix(a, b, n - 1);
    }
}

/// Without the key at `idx`, the keys up to a position behind it take
/// that key's bytes less.
pub proof fn lemma_keys_len_remove(keys: Seq<Seq<u8>>, idx: int, j: int)
    requires
        0 <= idx < keys.len(),
        idx <= j < keys.len(),
    ensures
        keys_len_upto(keys.remove(idx), j) == keys_len_upto(keys, j + 1) - keys[idx].len() - 1,
    decreases j,
{
    if j == idx {
        lemma_keys_len_prefix(keys.remove(idx), keys, idx);
    } else {
        lemma_keys_len_remove(keys, idx, j - 1);
        assert(keys.remove(idx)[j - 1] == keys[j]);
    }
}

/// The first slots of two tables take the same bytes where the two agree
/// on their sizes.
pub proof fn lemma_slots_len_prefix(a: Seq<IndexTableEntry>, b: Seq<IndexTableEntry>, n: int)
    requires
        0 <= n <= a.len(),
        n <= b.len(),
        forall|j: int| 0 <= j < n ==> (#[trigger] a[j]).data_max_len == b[j].data_max_len,
    ensures
        slots_len_upto(a, n) == slots_len_upto(b, n),
    decreases n,
{
    if n > 0 {
        lemma_slots_len_prefix(a, b, n - 1);
    }
}

/// The bytes of the first slots are no more than the bytes of more of
/// them.
pub proof fn lemma_slots_len_grows(t: Seq<IndexTableEntry>, m: int, n: int)
    requires
        0 <= m <= n,
    ensures
        0 <= slots_len_upto(t, m) <= slots_len_upto(t, n),
    decreases n,
{
    if m < n {
        lemma_slots_len_grows(t, m, n - 1);
    } else if n > 0 {
        lemma_slots_len_grows(t, m - 1, n - 1);
    }
}

/// Without the slot at `idx`, the slots up to a position behind it take
/// that slot's bytes less.
pub proof fn lemma_slots_len_remove(
    t: Seq<IndexTableEntry>,
    u: Seq<IndexTableEntry>,
    idx: int,
    j: int,
)
    requires
        0 <= idx < t.len(),
        idx <= j < t.len(),
        u.len() == t.len() - 1,
        forall|k: int| 0 <= k < idx ==> (#[trigger] u[k]).data_max_len == t[k].data_max_len,
        forall|k: int|
            idx <= k < u.len() ==> (#[trigger] u[k]).data_max_len == t[k + 1].data_max_len,
    ensures
        slots_len_upto(u, j) == slots_len_upto(t, j + 1) - t[idx].data_max_len,
    decreases j,
{
    if j == idx {
        lemma_slots_len_prefix(u, t, idx);
    } else {
        lemma_slots_len_remove(t, u, idx, j - 1);
    }
}

/// With another size for the slot at `idx`, the slots up to a position
/// behind it take the difference more.
pub proof fn lemma_slots_len_update(
    t: Seq<IndexTableEntry>,
    u: Seq<IndexTableEntry>,
    idx: int,
    j: int,
)
    requires
        0 <= idx < t.len(),
        idx < j <= t.len(),
        u.len() == t.len(),
        forall|k: int|
            0 <= k < t.len() && k != idx ==> (#[trigger] u[k]).data_max_len == t[k].data_max_len,
    ensures
        slots_len_upto(u, j) == slots_len_upto(t, j) + u[idx].data_max_len - t[idx].data_max_len,
    decreases j,
{
    if j == idx + 1 {
        lemma_slots_len_prefix(u, t, idx);
    } else {
        lemma_slots_len_update(t, u, idx, j - 1);
    }
}

} // verus!
