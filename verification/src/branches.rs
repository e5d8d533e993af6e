//! The Fibonacci numbers.

use vstd::prelude::*;

verus! {

/// The Fibonacci sequence, continued to the left of zero by the identity:
/// `fib(n) == n` for every `n <= 1`, and each later term is the sum of the two
/// before it.
pub open spec fn fib(n: int) -> int
    decreases n,
{
    if n <= 1 {
        n
    } else {
        fib(n - 1) + fib(n - 2)
    }
}

/// The largest index whose Fibonacci number fits in an `i32`.
pub const MAX_FIB_INDEX: i32 = 46;

/// From one on, the sequence is positive and never falls.
pub proof fn lemma_fib_monotonic(i: int, j: int)
    requires
        1 <= i <= j,
    ensures
        0 < fib(i) <= fib(j),
    decreases j,
{
    if j <= 2 {
        assert(fib(0) == 0);
        assert(fib(1) == 1);
        assert(fib(2) == 1);
    } else if i < j {
        lemma_fib_monotonic(1, j - 2);
        lemma_fib_monotonic(i, j - 1);
    } else {
        lemma_fib_monotonic(1, j - 2);
        lemma_fib_monotonic(1, j - 1);
    }
}

/// The number at the largest index. It fits in an `i32`; the next one, its
/// sum with `fib(45)`, does not.
pub proof fn lemma_fib_at_max_index()
    ensures
        fib(MAX_FIB_INDEX - 1) == 1134903170,
        fib(MAX_FIB_INDEX as int) == 1836311903,
        fib(MAX_FIB_INDEX as int) <= i32::MAX < fib(MAX_FIB_INDEX + 1),
{
    assert(fib(10) == 55 && fib(11) == 89) by {
        reveal_with_fuel(fib, 12);
    }
    assert(fib(20) == 6765 && fib(21) == 10946) by {
        reveal_with_fuel(fib, 11);
    }
    assert(fib(30) == 832040 && fib(31) == 1346269) by {
        reveal_with_fuel(fib, 11);
    }
    assert(fib(40) == 102334155 && fib(41) == 165580141) by {
        reveal_with_fuel(fib, 11);
    }
    assert(fib(45) == 1134903170 && fib(46) == 1836311903 && fib(47) == 2971215073) by {
        reveal_with_fuel(fib, 7);
    }
}

/// The `n`th Fibonacci number, for every `n` whose number fits in an `i32`.
/// It takes `n` additions.
pub fn gen_fib_number(n: i32) -> (r: i32)
    requires
        n <= MAX_FIB_INDEX,
    ensures
        r == fib(n as int),
{
    if n <= 1 {
        return n;
    }
    let mut prev: i32 = 0;
    let mut cur: i32 = 1;
    let mut i: i32 = 1;
    while i < n
        invariant
            1 <= i <= n <= MAX_FIB_INDEX,
            prev == fib(i - 1),
            cur == fib(i as int),
        decreases n - i,
    {
        proof {
            lemma_fib_monotonic(i + 1, MAX_FIB_INDEX as int);
            lemma_fib_at_max_index();
        }
        let next: i32 = prev + cur;
        prev = cur;
        cur = next;
        i = i + 1;
    }
    cur
}

} // verus!
