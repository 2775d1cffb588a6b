use vstd::prelude::*;

verus! {

// A spline pairs a chain of curve segments with an automation whose anchors
// come in pairs, one pair per joint between segments: anchor 0 belongs to
// segment 0, and anchors `2c - 1` and `2c` to segment `c`.

pub open spec fn atoc_spec(index: int) -> int {
    index / 2 + index % 2
}

pub open spec fn ctoa_spec(index: int) -> int {
    if index == 0 {
        0
    } else {
        index * 2 - 1
    }
}

/// The curve segment that automation anchor `index` belongs to.
pub fn atoc_index(index: usize) -> (r: usize)
    ensures
        r as int == atoc_spec(index as int),
{
    index / 2 + index % 2
}

/// The first automation anchor of curve segment `index`.
pub fn ctoa_index(index: usize) -> (r: usize)
    requires
        index <= usize::MAX / 2,
    ensures
        r as int == ctoa_spec(index as int),
{
    if index == 0 {
        0
    } else {
        index * 2 - 1
    }
}

/// A segment's first anchor belongs to that segment, and both anchors of a
/// joint belong to the same segment.
pub proof fn lemma_index_round_trip(c: int)
    requires
        c >= 0,
    ensures
        atoc_spec(ctoa_spec(c)) == c,
        c > 0 ==> atoc_spec(ctoa_spec(c) + 1) == c,
{
    if c > 0 {
        vstd::arithmetic::div_mod::lemma_fundamental_div_mod_converse(2 * c - 1, 2, c - 1, 1);
        vstd::arithmetic::div_mod::lemma_fundamental_div_mod_converse(2 * c, 2, c, 0);
    }
}

} // verus!
