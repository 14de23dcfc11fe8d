//! Sums of numbered values.

use vstd::prelude::*;

verus! {

/// The sum of the first `n` values of `f`.
pub open spec fn sum(f: spec_fn(int) -> int, n: int) -> int
    decreases n,
{
    if n <= 0 {
        0
    } else {
        sum(f, n - 1) + f(n - 1)
    }
}

/// Changing one value changes the sum by as much.
pub proof fn lemma_sum_update(f: spec_fn(int) -> int, g: spec_fn(int) -> int, n: int, k: int)
    requires
        0 <= k < n,
        forall|i: int| 0 <= i < n && i != k ==> #[trigger] f(i) == g(i),
    ensures
        sum(g, n) == sum(f, n) + g(k) - f(k),
    decreases n,
{
    if k < n - 1 {
        lemma_sum_update(f, g, n - 1, k);
    } else {
        lemma_sum_equal(f, g, n - 1);
    }
}

/// Equal values have equal sums.
pub proof fn lemma_sum_equal(f: spec_fn(int) -> int, g: spec_fn(int) -> int, n: int)
    requires
        forall|i: int| 0 <= i < n ==> #[trigger] f(i) == g(i),
    ensures
        sum(f, n) == sum(g, n),
    decreases n,
{
    if n > 0 {
        lemma_sum_equal(f, g, n - 1);
    }
}

/// Larger values have larger sums.
pub proof fn lemma_sum_monotone(f: spec_fn(int) -> int, g: spec_fn(int) -> int, n: int)
    requires
        forall|i: int| 0 <= i < n ==> #[trigger] f(i) <= g(i),
    ensures
        sum(f, n) <= sum(g, n),
    decreases n,
{
    if n > 0 {
        lemma_sum_monotone(f, g, n - 1);
    }
}

/// A sum of values that are not negative is at least as large as any of them, and as the sum of
/// fewer of them.
pub proof fn lemma_sum_bounds(f: spec_fn(int) -> int, n: int, k: int)
    requires
        0 <= k <= n,
        forall|i: int| 0 <= i < n ==> 0 <= #[trigger] f(i),
    ensures
        0 <= sum(f, k) <= sum(f, n),
        forall|i: int| 0 <= i < n ==> #[trigger] f(i) <= sum(f, n),
    decreases n,
{
    if n > 0 {
        if k < n {
            lemma_sum_bounds(f, n - 1, k);
        } else {
            lemma_sum_bounds(f, n - 1, n - 1);
        }
    }
}

/// A sum of zeros is zero.
pub proof fn lemma_sum_zero(f: spec_fn(int) -> int, n: int)
    requires
        forall|i: int| 0 <= i < n ==> #[trigger] f(i) == 0,
    ensures
        sum(f, n) == 0,
    decreases n,
{
    if n > 0 {
        lemma_sum_zero(f, n - 1);
    }
}

/// The sum of doubled values is twice the sum of the values.
pub proof fn lemma_sum_double(f: spec_fn(int) -> int, g: spec_fn(int) -> int, n: int)
    requires
        forall|i: int| 0 <= i < n ==> #[trigger] g(i) == 2 * f(i),
    ensures
        sum(g, n) == 2 * sum(f, n),
    decreases n,
{
    if n > 0 {
        lemma_sum_double(f, g, n - 1);
    }
}

/// A sum starts at zero, and grows by each value in turn.
pub proof fn law_sums_grow_by_their_values(f: spec_fn(int) -> int, n: int)
    requires
        n >= 0,
    ensures
        sum(f, 0) == 0,
        sum(f, n + 1) - sum(f, n) == f(n),
{
}

} // verus!
