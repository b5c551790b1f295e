//! The four-field tally produced for each input, and the element-wise
//! addition under which tallies are folded into running totals.

use vstd::prelude::*;

verus! {

/// The counts gathered from one input: lines, whitespace-delimited words,
/// bytes, and decoded characters.
#[derive(Debug, PartialEq, Eq, Structural)]
pub struct FileInfo {
    pub num_lines: usize,
    pub num_words: usize,
    pub num_bytes: usize,
    pub num_chars: usize,
}

/// A tally at the mathematical level: (lines, words, bytes, chars).
pub type Tally = (nat, nat, nat, nat);

/// The mathematical value of a `FileInfo`.
pub open spec fn tally_of(info: FileInfo) -> Tally {
    (info.num_lines as nat, info.num_words as nat, info.num_bytes as nat, info.num_chars as nat)
}

/// Element-wise addition of two tallies; running totals are folded with it.
pub open spec fn tally_add(a: Tally, b: Tally) -> Tally {
    (a.0 + b.0, a.1 + b.1, a.2 + b.2, a.3 + b.3)
}

/// The all-zero tally that a report's running totals start from.
pub open spec fn tally_zero() -> Tally {
    (0nat, 0nat, 0nat, 0nat)
}

/// Folding tallies into the totals is commutative: two inputs contribute
/// the same totals in either order.
pub proof fn lemma_tally_add_commutative(a: Tally, b: Tally)
    ensures
        tally_add(a, b) == tally_add(b, a),
{
}

/// Folding tallies into the totals is associative: grouping of inputs does
/// not affect the totals.
pub proof fn lemma_tally_add_associative(a: Tally, b: Tally, c: Tally)
    ensures
        tally_add(tally_add(a, b), c) == tally_add(a, tally_add(b, c)),
{
}

} // verus!
