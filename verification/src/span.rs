//! Ranges of bits or of addresses, and the search for two that intersect.

use vstd::prelude::*;

verus! {

/// A range of `size` consecutive positions from `start` on.
#[derive(Clone, Copy, Debug, PartialEq, Eq, Structural)]
pub struct Span {
    pub start: u128,
    pub size: u128,
    /// Set where the range may be shared with others on purpose.
    pub shared: bool,
}

impl Span {
    /// The end of the range is a 128-bit number too.
    pub open spec fn fits(self) -> bool {
        self.start + self.size <= u128::MAX
    }

    /// The position `x` lies in the range.
    pub open spec fn holds(self, x: int) -> bool {
        self.start <= x < self.start + self.size
    }
}

/// Two ranges have a position in common.
pub open spec fn intersect(a: Span, b: Span) -> bool {
    &&& a.size > 0
    &&& b.size > 0
    &&& a.start < b.start + b.size
    &&& b.start < a.start + a.size
}

/// Two ranges have a position in common that neither may share.
pub open spec fn conflict(a: Span, b: Span) -> bool {
    intersect(a, b) && !a.shared && !b.shared
}

/// Two ranges intersect exactly if some position lies in both.
pub proof fn lemma_intersect_common_position(a: Span, b: Span)
    ensures
        intersect(a, b) <==> exists|x: int| #[trigger] a.holds(x) && b.holds(x),
{
    if intersect(a, b) {
        let x: int = if a.start >= b.start {
            a.start as int
        } else {
            b.start as int
        };
        assert(a.holds(x) && b.holds(x));
    }
}

/// No two ranges of the list are in conflict.
pub open spec fn conflict_free(spans: Seq<Span>) -> bool {
    forall|a: int, b: int| 0 <= a < b < spans.len() ==> !conflict(spans[a], spans[b])
}

/// The pair `(a, b)` comes before the pair `(i, j)`: pairs are ordered by
/// their later member, then by their earlier one.
pub open spec fn pair_before(a: int, b: int, i: int, j: int) -> bool {
    b < j || (b == j && a < i)
}

/// `j` is the first range that is in conflict with one declared before it,
/// and `i` is the first of those.
pub open spec fn is_first_conflict(spans: Seq<Span>, i: int, j: int) -> bool {
    &&& 0 <= i < j < spans.len()
    &&& conflict(spans[i], spans[j])
    &&& forall|a: int, b: int|
        0 <= a < b < spans.len() && pair_before(a, b, i, j) ==> !conflict(spans[a], spans[b])
}

/// The first pair of ranges in conflict, if there is one.
pub open spec fn first_conflict(spans: Seq<Span>) -> Option<(int, int)> {
    if conflict_free(spans) {
        None
    } else {
        let p = choose|p: (int, int)| is_first_conflict(spans, p.0, p.1);
        Some(p)
    }
}

/// At most one pair is the first in conflict.
pub proof fn lemma_first_conflict_unique(spans: Seq<Span>, i: int, j: int)
    requires
        is_first_conflict(spans, i, j),
    ensures
        first_conflict(spans) == Some((i, j)),
{
    assert(!conflict_free(spans));
    let w = (i, j);
    assert(is_first_conflict(spans, w.0, w.1));
    let p = choose|p: (int, int)| is_first_conflict(spans, p.0, p.1);
    assert(is_first_conflict(spans, p.0, p.1));
    if p != w {
        if pair_before(p.0, p.1, i, j) {
            assert(!conflict(spans[p.0], spans[p.1]));
        } else {
            assert(pair_before(i, j, p.0, p.1));
            assert(!conflict(spans[i], spans[j]));
        }
    }
}

fn in_conflict(a: Span, b: Span) -> (r: bool)
    requires
        a.fits(),
        b.fits(),
    ensures
        r == conflict(a, b),
{
    let a_end: u128 = a.start + a.size;
    let b_end: u128 = b.start + b.size;
    a.size > 0 && b.size > 0 && a.start < b_end && b.start < a_end && !a.shared && !b.shared
}

/// Looks for the first two ranges that are in conflict.
pub fn find_conflict(spans: &Vec<Span>) -> (found: Option<(usize, usize)>)
    requires
        forall|i: int| 0 <= i < spans.len() ==> (#[trigger] spans@[i]).fits(),
    ensures
        match found {
            None => first_conflict(spans@) is None,
            Some((i, j)) => first_conflict(spans@) == Some((i as int, j as int))
                && is_first_conflict(spans@, i as int, j as int),
        },
        found is None <==> conflict_free(spans@),
{
    let n: usize = spans.len();
    let mut j: usize = 0;
    while j < n
        invariant
            n == spans.len(),
            j <= n,
            forall|i: int| 0 <= i < spans.len() ==> (#[trigger] spans@[i]).fits(),
            forall|a: int, b: int| 0 <= a < b < j ==> !conflict(spans@[a], spans@[b]),
        decreases n - j,
    {
        let mut i: usize = 0;
        while i < j
            invariant
                n == spans.len(),
                j < n,
                i <= j,
                forall|i: int| 0 <= i < spans.len() ==> (#[trigger] spans@[i]).fits(),
                forall|a: int, b: int| 0 <= a < b < j ==> !conflict(spans@[a], spans@[b]),
                forall|a: int| 0 <= a < i ==> !conflict(spans@[a], spans@[j as int]),
            decreases j - i,
        {
            if in_conflict(spans[i], spans[j]) {
                proof {
                    assert(is_first_conflict(spans@, i as int, j as int));
                    lemma_first_conflict_unique(spans@, i as int, j as int);
                }
                return Some((i, j));
            }
            i = i + 1;
        }
        j = j + 1;
    }
    assert(conflict_free(spans@));
    None
}

proof fn lemma_search_first(spans: Seq<Span>, i: int, j: int)
    requires
        !conflict_free(spans),
        0 <= i <= j <= spans.len(),
        forall|a: int, b: int|
            0 <= a < b < spans.len() && pair_before(a, b, i, j) ==> !conflict(spans[a], spans[b]),
    ensures
        exists|p: (int, int)| is_first_conflict(spans, p.0, p.1),
    decreases spans.len() - j, j - i,
{
    if j == spans.len() {
        assert forall|a: int, b: int| 0 <= a < b < spans.len() implies !conflict(
            spans[a],
            spans[b],
        ) by {
            assert(pair_before(a, b, i, j));
        }
    } else if i == j {
        assert forall|a: int, b: int|
            0 <= a < b < spans.len() && pair_before(a, b, 0, j + 1) implies !conflict(
            spans[a],
            spans[b],
        ) by {
            assert(pair_before(a, b, i, j));
        }
        lemma_search_first(spans, 0, j + 1);
    } else if conflict(spans[i], spans[j]) {
        let p = (i, j);
        assert(is_first_conflict(spans, p.0, p.1));
    } else {
        assert forall|a: int, b: int|
            0 <= a < b < spans.len() && pair_before(a, b, i + 1, j) implies !conflict(
            spans[a],
            spans[b],
        ) by {
            if !(a == i && b == j) {
                assert(pair_before(a, b, i, j));
            }
        }
        lemma_search_first(spans, i + 1, j);
    }
}

/// Either no two ranges are in conflict, or there is a first pair that is.
pub proof fn lemma_first_conflict(spans: Seq<Span>)
    ensures
        match first_conflict(spans) {
            None => conflict_free(spans),
            Some((i, j)) => is_first_conflict(spans, i, j),
        },
{
    if !conflict_free(spans) {
        lemma_search_first(spans, 0, 0);
    }
}

} // verus!
