use vstd::prelude::*;

verus! {

/// The `i`-th Fibonacci term in 64-bit unsigned arithmetic, where each sum
/// wraps around modulo 2^64.
pub open spec fn fib_wrapping(i: nat) -> u64
    decreases i,
{
    if i == 0 {
        0
    } else if i == 1 {
        1
    } else {
        ((fib_wrapping((i - 2) as nat) as int + fib_wrapping((i - 1) as nat) as int)
            % 0x1_0000_0000_0000_0000) as u64
    }
}

/// The first `n` Fibonacci terms, starting 0, 1; sums wrap silently on overflow.
pub fn fibonacci_sequence(n: u32) -> (r: Vec<u64>)
    ensures
        r@.len() == n as nat,
        forall|i: int| 0 <= i < n ==> #[trigger] r@[i] == fib_wrapping(i as nat),
{
    let mut fib: Vec<u64> = Vec::with_capacity(n as usize);
    if n >= 1 {
        fib.push(0);
    }
    if n >= 2 {
        fib.push(1);
    }
    let mut i: u32 = 2;
    while i < n
        invariant
            2 <= i,
            n >= 2 ==> i <= n,
            fib@.len() == if n < 2 { n as nat } else { i as nat },
            forall|k: int| 0 <= k < fib@.len() ==> #[trigger] fib@[k] == fib_wrapping(k as nat),
        decreases n - i,
    {
        let prev2 = fib[(i - 2) as usize];
        let prev1 = fib[(i - 1) as usize];
        let next = prev1.wrapping_add(prev2);
        assert(next == fib_wrapping(i as nat));
        fib.push(next);
        i = i + 1;
    }
    fib
}

} // verus!
