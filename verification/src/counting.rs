//! How many of the first numbers pass a test.

use vstd::prelude::*;

verus! {

/// How many numbers from zero up to, and not with, `n` pass a test.
pub open spec fn how_many(test: spec_fn(int) -> bool, n: int) -> int
    decreases n,
{
    if n <= 0 {
        0
    } else {
        how_many(test, n - 1) + if test(n - 1) {
            1int
        } else {
            0
        }
    }
}

/// No more numbers pass than there are, and none passes where none does.
pub proof fn at_most_all(test: spec_fn(int) -> bool, n: int)
    requires
        0 <= n,
    ensures
        0 <= how_many(test, n) <= n,
        (forall|i: int| 0 <= i < n ==> !(#[trigger] test(i))) ==> how_many(test, n) == 0,
        (forall|i: int| 0 <= i < n ==> #[trigger] test(i)) ==> how_many(test, n) == n,
    decreases n,
{
    if n > 0 {
        at_most_all(test, n - 1);
    }
}

/// Tests that agree on the numbers up to `n` count the same.
pub proof fn agreeing_tests_count_alike(
    one: spec_fn(int) -> bool,
    other: spec_fn(int) -> bool,
    n: int,
)
    requires
        forall|i: int| 0 <= i < n ==> #[trigger] one(i) == other(i),
    ensures
        how_many(one, n) == how_many(other, n),
    decreases n,
{
    if n > 0 {
        agreeing_tests_count_alike(one, other, n - 1);
        assert(one(n - 1) == other(n - 1));
    }
}

/// Where every number from `n` on passes, each counts.
pub proof fn all_of_the_rest_count(test: spec_fn(int) -> bool, n: int, m: int)
    requires
        0 <= n <= m,
        forall|i: int| n <= i < m ==> #[trigger] test(i),
    ensures
        how_many(test, m) == how_many(test, n) + (m - n),
    decreases m - n,
{
    if n < m {
        all_of_the_rest_count(test, n, m - 1);
        assert(test(m - 1));
    }
}

/// Where no number from `n` on passes, none counts.
pub proof fn none_of_the_rest_counts(test: spec_fn(int) -> bool, n: int, m: int)
    requires
        0 <= n <= m,
        forall|i: int| n <= i < m ==> !(#[trigger] test(i)),
    ensures
        how_many(test, m) == how_many(test, n),
    decreases m - n,
{
    if n < m {
        none_of_the_rest_counts(test, n, m - 1);
        assert(!test(m - 1));
    }
}

} // verus!
