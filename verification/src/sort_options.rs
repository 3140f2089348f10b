//! Sort order of a column.

use vstd::prelude::*;

verus! {

/// Options that define the sort order of a given column.
#[derive(Clone, Copy, Debug, Hash, PartialEq, Eq, Structural, PartialOrd, Ord)]
pub struct SortOptions {
    /// Whether to sort in descending order.
    pub descending: bool,
    /// Whether to sort nulls first.
    pub nulls_first: bool,
}

impl SortOptions {
    /// The options with both flags flipped.
    pub open spec fn inverted(self) -> SortOptions {
        SortOptions { descending: !self.descending, nulls_first: !self.nulls_first }
    }
}

impl Default for SortOptions {
    /// Ascending order with nulls first.
    fn default() -> (r: SortOptions)
        ensures
            r == (SortOptions { descending: false, nulls_first: true }),
    {
        SortOptions { descending: false, nulls_first: true }
    }
}

impl vstd::std_specs::ops::NotSpecImpl for SortOptions {
    open spec fn obeys_not_spec() -> bool {
        true
    }

    open spec fn not_req(self) -> bool {
        true
    }

    open spec fn not_spec(self) -> SortOptions {
        self.inverted()
    }
}

/// `!` inverts both flags.
impl core::ops::Not for SortOptions {
    type Output = SortOptions;

    fn not(self) -> (r: SortOptions)
        ensures
            r == self.inverted(),
    {
        SortOptions { descending: !self.descending, nulls_first: !self.nulls_first }
    }
}

/// Inverting twice gives the options back.
pub proof fn lemma_invert_twice(s: SortOptions)
    ensures
        s.inverted().inverted() == s,
{
}

/// Inverting changes each flag, whatever the other flag holds.
pub proof fn lemma_invert_flips_each(s: SortOptions)
    ensures
        s.inverted().descending != s.descending,
        s.inverted().nulls_first != s.nulls_first,
{
}

} // verus!
