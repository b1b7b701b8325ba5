//! Sample computations shipped as a binary module alongside the engine:
//! small functions whose return codes the binary-module runner turns into
//! step results.

use vstd::prelude::*;

verus! {

/// The Fibonacci numbers.
pub open spec fn spec_fib(n: nat) -> nat
    decreases n,
{
    if n <= 1 {
        n
    } else {
        spec_fib((n - 1) as nat) + spec_fib((n - 2) as nat)
    }
}

/// Fibonacci grows monotonically.
pub proof fn lemma_fib_monotonic(a: nat, b: nat)
    requires
        a <= b,
    ensures
        spec_fib(a) <= spec_fib(b),
    decreases b,
{
    if a < b && 1 < b {
        lemma_fib_monotonic(a, (b - 1) as nat);
    }
}

/// The n-th Fibonacci number; inputs of one or less come back unchanged.
pub fn fibonacci(n: i32) -> (r: i32)
    requires
        1 < n ==> spec_fib(n as nat) <= i32::MAX,
    ensures
        n <= 1 ==> r == n,
        1 < n ==> r == spec_fib(n as nat),
    decreases (if 0 <= n { n } else { 0 }),
{
    if n <= 1 {
        n
    } else {
        proof {
            lemma_fib_monotonic((n - 1) as nat, n as nat);
            lemma_fib_monotonic((n - 2) as nat, n as nat);
        }
        let a = fibonacci(n - 1);
        let b = fibonacci(n - 2);
        proof {
            assert(a == spec_fib((n - 1) as nat));
            assert(b == spec_fib((n - 2) as nat));
            assert(spec_fib(n as nat) == spec_fib((n - 1) as nat) + spec_fib((n - 2) as nat));
        }
        a + b
    }
}

/// The conventional entry point of the sample module: zero for success.
pub fn run() -> (r: i32)
    ensures
        r == 0,
{
    proof {
        reveal_with_fuel(spec_fib, 11);
        assert(spec_fib(10) == 55);
    }
    let result = fibonacci(10);
    if result > 0 {
        0
    } else {
        1
    }
}

/// Sums a fixed sample and reports success when the sum is positive.
pub fn process_data() -> (r: i32)
    ensures
        r == 0,
{
    let data: Vec<i32> = vec![1, 2, 3, 4, 5];
    let mut sum: i32 = 0;
    let mut i: usize = 0;
    while i < data.len()
        invariant
            i <= data@.len(),
            data@ == seq![1i32, 2i32, 3i32, 4i32, 5i32],
            sum == seq![0i32, 1i32, 3i32, 6i32, 10i32, 15i32][i as int],
        decreases data@.len() - i,
    {
        sum = sum + data[i];
        i = i + 1;
    }
    if sum > 0 {
        0
    } else {
        1
    }
}

/// The n-th Fibonacci number, exported under the module's probe name.
pub fn compute_fibonacci(n: i32) -> (r: i32)
    requires
        1 < n ==> spec_fib(n as nat) <= i32::MAX,
    ensures
        n <= 1 ==> r == n,
        1 < n ==> r == spec_fib(n as nat),
{
    fibonacci(n)
}

/// The sum of two integers.
pub fn add(a: i32, b: i32) -> (r: i32)
    requires
        i32::MIN <= a + b <= i32::MAX,
    ensures
        r == a + b,
{
    a + b
}

/// The sum of the first hundred squares.
pub open spec fn spec_square_sum(n: nat) -> int
    decreases n,
{
    if n == 0 {
        0
    } else {
        spec_square_sum((n - 1) as nat) + n * n
    }
}

/// Sums the first hundred squares and reports whether the expected total
/// came out.
pub fn complex_computation() -> (r: i32)
    ensures
        r == 0,
{
    let mut sum: i64 = 0;
    let mut i: i64 = 1;
    while i <= 100
        invariant
            1 <= i <= 101,
            sum == spec_square_sum((i - 1) as nat),
            0 <= sum <= 338350,
        decreases 101 - i,
    {
        proof {
            lemma_square_sum_bound(i as nat);
        }
        sum = sum + i * i;
        i = i + 1;
    }
    proof {
        lemma_square_sum_exact();
    }
    if sum == 338350 {
        0
    } else {
        2
    }
}

/// The partial sums of squares stay within the final total.
proof fn lemma_square_sum_bound(n: nat)
    requires
        1 <= n <= 100,
    ensures
        spec_square_sum(n) <= 338350,
        spec_square_sum(n) == spec_square_sum((n - 1) as nat) + n * n,
    decreases n,
{
    lemma_square_sum_exact();
    lemma_square_sum_monotonic(n, 100);
}

/// Partial sums of squares grow with their length.
proof fn lemma_square_sum_monotonic(a: nat, b: nat)
    requires
        a <= b,
    ensures
        spec_square_sum(a) <= spec_square_sum(b),
    decreases b,
{
    if a < b {
        lemma_square_sum_monotonic(a, (b - 1) as nat);
    }
}

/// One step of the closed form for the sum of squares.
proof fn lemma_square_sum_step(s1: int, s2: int, n: int)
    requires
        n >= 1,
        s2 == s1 + n * n,
        6 * s1 == (n - 1) * n * (2 * n - 1),
    ensures
        6 * s2 == n * (n + 1) * (2 * n + 1),
{
    assert(6 * s2 == n * (n + 1) * (2 * n + 1)) by (nonlinear_arith)
        requires
            n >= 1,
            s2 == s1 + n * n,
            6 * s1 == (n - 1) * n * (2 * n - 1),
    ;
}

/// Six times the sum of the first squares, in closed form.
proof fn lemma_square_sum_formula(n: nat)
    ensures
        6 * spec_square_sum(n) == n * (n + 1) * (2 * n + 1),
    decreases n,
{
    if n > 0 {
        lemma_square_sum_formula((n - 1) as nat);
        assert(6 * spec_square_sum((n - 1) as nat) == (n - 1) * n * (2 * n - 1)) by (nonlinear_arith)
            requires
                n >= 1,
                6 * spec_square_sum((n - 1) as nat) == ((n - 1) as nat) * (((n - 1) as nat)
                    + 1) * (2 * ((n - 1) as nat) + 1),
        ;
        lemma_square_sum_step(spec_square_sum((n - 1) as nat), spec_square_sum(n), n as int);
        assert(6 * spec_square_sum(n) == (n as int) * ((n as int) + 1) * (2 * (n as int) + 1));
        assert((n as int) * ((n as int) + 1) * (2 * (n as int) + 1) == n * (n + 1) * (2 * n + 1));
    } else {
        assert(spec_square_sum(0) == 0);
        assert(n * (n + 1) * (2 * n + 1) == 0) by (nonlinear_arith)
            requires
                n == 0,
        ;
    }
}

/// The sum of the first hundred squares is 338350.
proof fn lemma_square_sum_exact()
    ensures
        spec_square_sum(100) == 338350,
{
    lemma_square_sum_formula(100);
    assert(6 * spec_square_sum(100) == 100 * (100 + 1) * (2 * 100 + 1));
    assert(100 * (100 + 1) * (2 * 100 + 1) == 2030100) by (nonlinear_arith);
}

} // verus!
