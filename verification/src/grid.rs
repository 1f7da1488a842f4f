//! Counting marked cells in a flattened grid.

use vstd::prelude::*;

verus! {

/// Number of cells in a grid.
pub const CELLS: usize = 64;

/// Position of cell `(x, y)` in the flattened, column-by-column order.
pub open spec fn flat_index(x: int, y: int) -> int {
    x * 8 + y
}

/// How many of the first `n` entries of `s` are `true`.
pub open spec fn count_prefix(s: Seq<bool>, n: nat) -> nat
    decreases n,
{
    if n == 0 {
        0
    } else {
        count_prefix(s, (n - 1) as nat) + if s[n - 1] {
            1nat
        } else {
            0nat
        }
    }
}

/// How many entries of `s` are `true`.
pub open spec fn count_true(s: Seq<bool>) -> nat {
    count_prefix(s, s.len())
}

/// A sequence without a `true` entry counts zero.
pub proof fn lemma_count_none(s: Seq<bool>, n: nat)
    requires
        n <= s.len(),
        forall|k: int| 0 <= k < n ==> !s[k],
    ensures
        count_prefix(s, n) == 0,
    decreases n,
{
    if n > 0 {
        lemma_count_none(s, (n - 1) as nat);
    }
}

/// Overwriting entry `k` changes a prefix count only if the prefix reaches `k`,
/// and then by the difference between the new and the old entry.
pub proof fn lemma_count_update(s: Seq<bool>, k: int, v: bool, n: nat)
    requires
        0 <= k < s.len(),
        n <= s.len(),
    ensures
        count_prefix(s.update(k, v), n) + (if k < n && s[k] { 1nat } else { 0nat })
            == count_prefix(s, n) + (if k < n && v { 1nat } else { 0nat }),
    decreases n,
{
    if n > 0 {
        lemma_count_update(s, k, v, (n - 1) as nat);
    }
}

} // verus!
