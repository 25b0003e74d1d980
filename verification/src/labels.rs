//! Fresh label numbers for the jumps of the generated code.

use vstd::prelude::*;

verus! {

/// The source of label numbers: the next number to hand out.
pub struct LabelCounter {
    pub next: u64,
}

impl LabelCounter {
    /// A counter that starts at 0.
    pub fn new() -> (c: LabelCounter)
        ensures
            c.next == 0,
    {
        LabelCounter { next: 0 }
    }
}

/// The number that follows `l`, wrapping from `u64::MAX` to 0.
pub open spec fn label_after(l: u64) -> u64 {
    if l == u64::MAX {
        0
    } else {
        (l + 1) as u64
    }
}

/// Hands out the counter's current number and moves the counter on by
/// one, wrapping around at `u64::MAX`.
pub fn new_label(counter: &mut LabelCounter) -> (l: u64)
    ensures
        l == old(counter).next,
        final(counter).next == label_after(old(counter).next),
{
    let l = counter.next;
    counter.next = if l == u64::MAX {
        0
    } else {
        l + 1
    };
    l
}

/// The counter after `n` labels were handed out from `start`.
pub open spec fn labels_after(start: u64, n: nat) -> u64
    decreases n,
{
    if n == 0 {
        start
    } else {
        label_after(labels_after(start, (n - 1) as nat))
    }
}

/// Law: as long as the counter does not wrap, the `i`-th and the `j`-th
/// label handed out from the same start are different numbers; the
/// counter then stands at `start + n`.
pub proof fn lemma_labels_fresh(start: u64, i: nat, j: nat)
    requires
        i < j,
        start + j <= u64::MAX,
    ensures
        labels_after(start, i) == start + i,
        labels_after(start, j) == start + j,
        labels_after(start, i) != labels_after(start, j),
    decreases j,
{
    if j > 0 {
        lemma_labels_exact(start, (j - 1) as nat);
        lemma_labels_exact(start, i);
    }
}

/// Without wrapping, `n` labels from `start` leave the counter at
/// `start + n`.
proof fn lemma_labels_exact(start: u64, n: nat)
    requires
        start + n <= u64::MAX,
    ensures
        labels_after(start, n) == start + n,
    decreases n,
{
    if n > 0 {
        lemma_labels_exact(start, (n - 1) as nat);
    }
}

} // verus!
