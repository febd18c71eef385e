//! Counting arguments shared by the compiler's stages.

use vstd::prelude::*;
use vstd::relations::injective_on;
use vstd::set_lib::*;

verus! {

/// Pigeonhole principle: a function that maps the `m` numbers below `m` to
/// distinct numbers below `n` exists only if `m <= n`.
pub proof fn lemma_pigeonhole(f: spec_fn(int) -> int, m: int, n: int)
    requires
        0 <= m,
        0 <= n,
        forall|k: int| 0 <= k < m ==> 0 <= #[trigger] f(k) < n,
        forall|j: int, k: int| 0 <= j < k < m ==> #[trigger] f(j) != #[trigger] f(k),
    ensures
        m <= n,
{
    let x = set_int_range(0, m);
    let y = x.map(f);
    let z = set_int_range(0, n);
    lemma_int_range(0, m);
    lemma_int_range(0, n);
    assert(injective_on(f, x)) by {
        assert forall|a: int, b: int| x.contains(a) && x.contains(b) && #[trigger] f(a)
            == #[trigger] f(b) implies a == b by {
            if a < b {
                assert(f(a) != f(b));
            } else if b < a {
                assert(f(b) != f(a));
            }
        }
    }
    lemma_map_size(x, y, f);
    assert(y.subset_of(z)) by {
        assert forall|v: int| y.contains(v) implies z.contains(v) by {
            let k = choose|k: int| x.contains(k) && f(k) == v;
            assert(0 <= f(k) < n);
        }
    }
    lemma_len_subset(y, z);
}

/// A sequence without duplicates whose items all lie in `[0, n)` has at
/// most `n` items.
pub proof fn lemma_distinct_bounded(s: Seq<int>, n: int)
    requires
        0 <= n,
        s.no_duplicates(),
        forall|i: int| 0 <= i < s.len() ==> 0 <= #[trigger] s[i] < n,
    ensures
        s.len() <= n,
{
    lemma_pigeonhole(|k: int| s[k], s.len() as int, n);
}

/// A sequence without duplicates that has `n` items, all in `[0, n)`, holds
/// every number of that range.
pub proof fn lemma_distinct_covers(s: Seq<int>, n: int, v: int)
    requires
        0 <= v < n,
        s.len() == n,
        s.no_duplicates(),
        forall|i: int| 0 <= i < s.len() ==> 0 <= #[trigger] s[i] < n,
    ensures
        s.contains(v),
{
    if !s.contains(v) {
        // Map every item above the missing value one down: still distinct,
        // now within `[0, n - 1)`.
        let t = Seq::new(s.len(), |i: int| if s[i] > v { s[i] - 1 } else { s[i] });
        assert forall|i: int| 0 <= i < t.len() implies 0 <= #[trigger] t[i] < n - 1 by {
            assert(s[i] != v);
            assert(0 <= s[i] < n);
        }
        assert forall|i: int, j: int| 0 <= i < t.len() && 0 <= j < t.len() && i != j implies t[i]
            != t[j] by {
            assert(s[i] != s[j]);
            assert(s[i] != v);
            assert(s[j] != v);
        }
        lemma_distinct_bounded(t, n - 1);
    }
}

} // verus!
