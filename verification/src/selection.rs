//! The selection: which row of the list is current, with wrap-around
//! navigation.

use vstd::prelude::*;

verus! {

/// A selection fits a list of `len` rows when it names one of its rows, or
/// names none because the list is empty.
pub open spec fn valid_selection(selected: Option<nat>, len: nat) -> bool {
    match selected {
        Some(i) => i < len,
        None => len == 0,
    }
}

/// The row after `i` in a list of `n` rows: one further down, or the first
/// row when `i` is the last one or lies beyond it. In a list without rows
/// nothing moves.
pub open spec fn next_row(n: nat, i: nat) -> nat {
    if n == 0 {
        i
    } else if i + 1 >= n {
        0
    } else {
        i + 1
    }
}

/// The row before `i` in a list of `n` rows: one further up, or the last
/// row when `i` is the first one or lies beyond the last. In a list without
/// rows nothing moves.
pub open spec fn previous_row(n: nat, i: nat) -> nat {
    if n == 0 {
        i
    } else if i == 0 || i > n {
        (n - 1) as nat
    } else {
        (i - 1) as nat
    }
}

/// The row reached from `i` by moving down `k` times.
pub open spec fn next_row_times(n: nat, i: nat, k: nat) -> nat
    decreases k,
{
    if k == 0 {
        i
    } else {
        next_row(n, next_row_times(n, i, (k - 1) as nat))
    }
}

/// The row reached from `i` by moving up `k` times.
pub open spec fn previous_row_times(n: nat, i: nat, k: nat) -> nat
    decreases k,
{
    if k == 0 {
        i
    } else {
        previous_row(n, previous_row_times(n, i, (k - 1) as nat))
    }
}

/// The selection that a list of `len` rows takes over from the list before
/// it: none when it is empty, the first row when nothing was selected, and
/// otherwise the same row number, or the last row where the list has become
/// too short for it.
pub open spec fn reconciled(selected: Option<nat>, len: nat) -> Option<nat> {
    if len == 0 {
        None
    } else {
        match selected {
            Some(i) => Some(if i < len { i } else { (len - 1) as nat }),
            None => Some(0),
        }
    }
}

/// The selection as a mathematical value.
pub open spec fn selection_view(selected: Option<usize>) -> Option<nat> {
    match selected {
        Some(i) => Some(i as nat),
        None => None,
    }
}

/// Moves the selection one row down, wrapping from the last row to the
/// first. Nothing moves in a list without rows.
pub fn next_index(len: usize, index: usize) -> (row: usize)
    ensures
        row == next_row(len as nat, index as nat),
        len > 0 ==> row < len,
{
    if len == 0 {
        index
    } else if index >= len - 1 {
        0
    } else {
        index + 1
    }
}

/// Moves the selection one row up, wrapping from the first row to the last.
/// Nothing moves in a list without rows.
pub fn previous_index(len: usize, index: usize) -> (row: usize)
    ensures
        row == previous_row(len as nat, index as nat),
        len > 0 ==> row < len,
{
    if len == 0 {
        index
    } else if index == 0 || index > len {
        len - 1
    } else {
        index - 1
    }
}

/// Fits a selection to a list of `len` rows.
pub fn reconcile(selected: Option<usize>, len: usize) -> (fitted: Option<usize>)
    ensures
        selection_view(fitted) == reconciled(selection_view(selected), len as nat),
        valid_selection(selection_view(fitted), len as nat),
{
    if len == 0 {
        None
    } else {
        match selected {
            Some(i) => if i < len {
                Some(i)
            } else {
                Some(len - 1)
            },
            None => Some(0),
        }
    }
}

/// Where `k` moves down lead, for up to one full round.
pub proof fn lemma_next_row_times(n: nat, i: nat, k: nat)
    requires
        i < n,
        k <= n,
    ensures
        next_row_times(n, i, k) == if i + k < n {
            i + k
        } else {
            (i + k - n) as nat
        },
    decreases k,
{
    if k > 0 {
        lemma_next_row_times(n, i, (k - 1) as nat);
    }
}

/// Where `k` moves up lead, for up to one full round.
pub proof fn lemma_previous_row_times(n: nat, i: nat, k: nat)
    requires
        i < n,
        k <= n,
    ensures
        previous_row_times(n, i, k) == if k <= i {
            (i - k) as nat
        } else {
            (i - k + n) as nat
        },
    decreases k,
{
    if k > 0 {
        lemma_previous_row_times(n, i, (k - 1) as nat);
    }
}

/// In a list of `n` rows, moving down `n` times leads back to the row one
/// started from, and no fewer moves do.
pub proof fn lemma_next_round_trip(n: nat, i: nat)
    requires
        i < n,
    ensures
        next_row_times(n, i, n) == i,
        forall|k: nat| 0 < k < n ==> #[trigger] next_row_times(n, i, k) != i,
{
    lemma_next_row_times(n, i, n);
    assert forall|k: nat| 0 < k < n implies #[trigger] next_row_times(n, i, k) != i by {
        lemma_next_row_times(n, i, k);
    }
}

/// In a list of `n` rows, moving up `n` times leads back to the row one
/// started from, and no fewer moves do.
pub proof fn lemma_previous_round_trip(n: nat, i: nat)
    requires
        i < n,
    ensures
        previous_row_times(n, i, n) == i,
        forall|k: nat| 0 < k < n ==> #[trigger] previous_row_times(n, i, k) != i,
{
    lemma_previous_row_times(n, i, n);
    assert forall|k: nat| 0 < k < n implies #[trigger] previous_row_times(n, i, k) != i by {
        lemma_previous_row_times(n, i, k);
    }
}

/// In a list without rows no move changes the row.
pub proof fn lemma_no_rows_no_move(i: nat, k: nat)
    ensures
        next_row_times(0, i, k) == i,
        previous_row_times(0, i, k) == i,
    decreases k,
{
    if k > 0 {
        lemma_no_rows_no_move(i, (k - 1) as nat);
    }
}

/// Moving down and then up, or up and then down, leads back.
pub proof fn lemma_next_previous_inverse(n: nat, i: nat)
    requires
        i < n,
    ensures
        previous_row(n, next_row(n, i)) == i,
        next_row(n, previous_row(n, i)) == i,
{
}

/// A reconciled selection fits the list, and a selection that fits a
/// non-empty list already is left as it is.
pub proof fn lemma_reconciled(selected: Option<nat>, len: nat)
    ensures
        valid_selection(reconciled(selected, len), len),
        valid_selection(selected, len) ==> reconciled(selected, len) == selected,
{
}

} // verus!
