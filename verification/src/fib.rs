use vstd::prelude::*;

verus! {

/// The Fibonacci numbers: 0, 1, 1, 2, 3, 5, ...
pub open spec fn spec_fib(n: nat) -> nat
    decreases n,
{
    if n == 0 {
        0
    } else if n == 1 {
        1
    } else {
        spec_fib((n - 2) as nat) + spec_fib((n - 1) as nat)
    }
}

/// The sequence never decreases, so a bound on a later value bounds every
/// earlier one.
proof fn lemma_fib_is_monotonic(i: nat, j: nat)
    requires
        i <= j,
    ensures
        spec_fib(i) <= spec_fib(j),
    decreases j - i,
{
    if i == j || j < 2 {
    } else if i + 1 == j {
        reveal_with_fuel(spec_fib, 2);
        lemma_fib_is_monotonic(i, (j - 1) as nat);
    } else {
        lemma_fib_is_monotonic(i, (j - 1) as nat);
        lemma_fib_is_monotonic(i, (j - 2) as nat);
    }
}

/// The `n`-th Fibonacci number, 0-indexed. Results that would not fit the
/// return type are excluded, as the doubly recursive sum has no other way
/// to report them.
pub fn fib(n: usize) -> (r: i32)
    requires
        spec_fib(n as nat) <= i32::MAX,
    ensures
        r == spec_fib(n as nat),
    decreases n,
{
    match n {
        0 => 0,
        1 => 1,
        _ => {
            proof {
                lemma_fib_is_monotonic((n - 1) as nat, n as nat);
                lemma_fib_is_monotonic((n - 2) as nat, n as nat);
            }
            fib(n - 1) + fib(n - 2)
        },
    }
}

} // verus!
