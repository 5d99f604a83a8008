//! The Fibonacci computations of the two Fibonacci services.
use vstd::prelude::*;

verus! {

/// The Fibonacci numbers: 0, 1, 1, 2, 3, 5, ...
pub open spec fn fib(n: nat) -> nat
    decreases n,
{
    if n == 0 {
        0
    } else if n == 1 {
        1
    } else {
        fib((n - 2) as nat) + fib((n - 1) as nat)
    }
}

/// The number of values of a `u64`.
pub open spec fn u64_modulus() -> nat {
    0x1_0000_0000_0000_0000
}

/// `fib(n)`, or `u64::MAX` where it does not fit.
pub open spec fn saturated_fib(n: nat) -> nat {
    if fib(n) > u64::MAX {
        u64::MAX as nat
    } else {
        fib(n)
    }
}

proof fn lemma_fib_monotone(i: nat, j: nat)
    requires
        i <= j,
    ensures
        fib(i) <= fib(j),
    decreases j - i,
{
    if i < j {
        lemma_fib_monotone(i, (j - 1) as nat);
        if j >= 2 {
            assert(fib(j) == fib((j - 2) as nat) + fib((j - 1) as nat));
        }
    }
}

/// The `n`-th Fibonacci number, computed with saturating additions: the
/// result is `fib(n)`, or `u64::MAX` where `fib(n)` does not fit in 64 bits.
pub fn fibonacci(n: u64) -> (result: u64)
    ensures
        result == saturated_fib(n as nat),
{
    if n == 0 {
        return 0;
    }
    let mut a: u64 = 0;
    let mut b: u64 = 1;
    let mut i: u64 = 0;
    while i < n
        invariant
            i <= n,
            a == saturated_fib(i as nat),
            b == saturated_fib(i as nat + 1),
        decreases n - i,
    {
        let temp = a.saturating_add(b);
        proof {
            let k = i as nat;
            assert(fib(k + 2) == fib(k) + fib(k + 1));
            lemma_fib_monotone(k, k + 1);
        }
        a = b;
        b = temp;
        i += 1;
    }
    a
}

proof fn lemma_mod_add(x: nat, y: nat)
    ensures
        ((x % u64_modulus()) + (y % u64_modulus())) % u64_modulus() == (x + y) % u64_modulus(),
{
    vstd::arithmetic::div_mod::lemma_add_mod_noop(x as int, y as int, u64_modulus() as int);
}

/// The `n`-th Fibonacci number, computed with wrapping additions: the result
/// is `fib(n)` modulo 2^64.
pub fn fibonacci_wrapping(n: u64) -> (result: u64)
    ensures
        result == fib(n as nat) % u64_modulus(),
{
    let mut a: u64 = 0;
    let mut b: u64 = 1;
    let mut i: u64 = 0;
    while i < n
        invariant
            i <= n,
            a == fib(i as nat) % u64_modulus(),
            b == fib(i as nat + 1) % u64_modulus(),
        decreases n - i,
    {
        let temp = a.wrapping_add(b);
        proof {
            let k = i as nat;
            assert(fib(k + 2) == fib(k) + fib(k + 1));
            lemma_mod_add(fib(k), fib(k + 1));
        }
        a = b;
        b = temp;
        i += 1;
    }
    a
}

} // verus!
