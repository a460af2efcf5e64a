use vstd::prelude::*;
use vstd::arithmetic::div_mod::{lemma_fundamental_div_mod, lemma_mod_multiples_basic};

verus! {

/// `n` is prime: at least 2, with no divisor strictly between 1 and `n`.
pub open spec fn is_prime(n: int) -> bool {
    n >= 2 && forall|d: int| 2 <= d < n ==> #[trigger] (n % d) != 0
}

/// `j` is at least 2 and no `d` in `[2, bound)` with `d * d <= j` divides it:
/// what the sieve table says of `j` once every `d` below `bound` is done.
pub open spec fn survives(j: int, bound: int) -> bool {
    j >= 2 && forall|d: int| 2 <= d < bound && d * d <= j ==> #[trigger] (j % d) != 0
}

proof fn lemma_divides_trans(d: int, i: int, j: int)
    requires
        d > 0,
        i > 0,
        j >= 0,
        i % d == 0,
        j % i == 0,
    ensures
        j % d == 0,
{
    lemma_fundamental_div_mod(i, d);
    lemma_fundamental_div_mod(j, i);
    let p = i / d;
    let q = j / i;
    assert(j == (p * q) * d) by (nonlinear_arith)
        requires
            i == d * p,
            j == i * q,
    ;
    lemma_mod_multiples_basic(p * q, d);
}

/// A number with a divisor in `[2, j)` has one whose square is at most `j`.
proof fn lemma_small_divisor(j: int, d: int) -> (e: int)
    requires
        2 <= d < j,
        j % d == 0,
    ensures
        2 <= e,
        e * e <= j,
        j % e == 0,
{
    if d * d <= j {
        d
    } else {
        lemma_fundamental_div_mod(j, d);
        let e = j / d;
        assert(j == e * d);
        assert(e < d) by (nonlinear_arith)
            requires
                j == e * d,
                d * d > j,
                d > 0,
        ;
        assert(e >= 2) by (nonlinear_arith)
            requires
                j == e * d,
                d < j,
                d > 0,
        ;
        assert(e * e <= j) by (nonlinear_arith)
            requires
                j == e * d,
                e < d,
                e >= 0,
        ;
        lemma_mod_multiples_basic(d, e);
        assert(d * e == j) by (nonlinear_arith)
            requires
                j == e * d,
        ;
        e
    }
}

/// Once every `d` whose square is at most `j` has been sieved, `j` survives
/// exactly when it is prime.
proof fn lemma_survivor_is_prime(j: int, bound: int)
    requires
        j < bound * bound,
        bound >= 0,
    ensures
        survives(j, bound) == is_prime(j),
{
    if survives(j, bound) {
        assert forall|d: int| 2 <= d < j implies #[trigger] (j % d) != 0 by {
            if j % d == 0 {
                let e = lemma_small_divisor(j, d);
                assert(e < bound) by (nonlinear_arith)
                    requires
                        e * e <= j,
                        j < bound * bound,
                        e >= 0,
                        bound >= 0,
                ;
                assert(j % e != 0);
            }
        }
    }
    if is_prime(j) {
        assert forall|d: int| 2 <= d < bound && d * d <= j implies #[trigger] (j % d) != 0 by {
            if d >= j {
                assert(d * d > j) by (nonlinear_arith)
                    requires
                        d >= j,
                        j >= 2,
                ;
            }
        }
    }
}

/// All primes up to and including `limit`, in ascending order (sieve of
/// Eratosthenes). Empty when `limit < 2`.
///
/// The table holds `limit + 1` entries, so `limit` itself must be below the
/// largest `u32`.
pub fn prime_sieve(limit: u32) -> (r: Vec<u32>)
    requires
        limit < u32::MAX,
    ensures
        forall|k: int| 0 <= k < r@.len() ==> #[trigger] is_prime(r@[k] as int) && r@[k] <= limit,
        forall|k: int, m: int| 0 <= k < m < r@.len() ==> r@[k] < r@[m],
        forall|p: u32| p <= limit && is_prime(p as int) ==> r@.contains(p),
{
    if limit < 2 {
        return Vec::new();
    }
    let n: usize = limit as usize + 1;
    let mut table: Vec<bool> = vec![true; n];
    table.set(0, false);
    table.set(1, false);
    assert forall|j: int| 0 <= j < n implies #[trigger] table@[j] == survives(j, 2) by {}

    let mut i: u64 = 2;
    while i * i <= limit as u64
        invariant
            2 <= i <= 65536,
            i * i <= 0x1_0000_0000,
            n == limit + 1,
            table@.len() == n,
            forall|j: int| 0 <= j < n ==> #[trigger] table@[j] == survives(j, i as int),
        decreases 65537 - i,
    {
        assert(i <= limit && i < 65536) by (nonlinear_arith)
            requires
                i * i <= limit as int,
                i >= 2,
                limit < 0x1_0000_0000,
        ;
        if table[i as usize] {
            let mut j: u64 = i * i;
            proof {
                lemma_mod_multiples_basic(i as int, i as int);
            }
            while j <= limit as u64
                invariant
                    2 <= i <= 65536,
                    i * i <= j <= limit as u64 + i,
                    j % i == 0,
                    n == limit + 1,
                    table@.len() == n,
                    forall|k: int|
                        0 <= k < n ==> #[trigger] table@[k] == (survives(k, i as int) && !(
                        i * i <= k < j && k % (i as int) == 0)),
                decreases limit as u64 + i - j,
            {
                table.set(j as usize, false);
                let ghost jj = j as int;
                let ghost ii = i as int;
                assert forall|k: int| jj < k < jj + ii implies #[trigger] (k % ii) != 0 by {
                    lemma_fundamental_div_mod(k, ii);
                    lemma_fundamental_div_mod(jj, ii);
                    assert(k % ii != 0) by (nonlinear_arith)
                        requires
                            k == ii * (k / ii) + k % ii,
                            jj == ii * (jj / ii),
                            jj < k < jj + ii,
                            ii > 0,
                            0 <= k % ii < ii,
                    ;
                }
                proof {
                    lemma_fundamental_div_mod(jj, ii);
                    let q = jj / ii;
                    assert(jj + ii == (q + 1) * ii) by (nonlinear_arith)
                        requires
                            jj == ii * q + jj % ii,
                            jj % ii == 0,
                    ;
                    lemma_mod_multiples_basic(q + 1, ii);
                }
                j = j + i;
            }
        } else {
            let ghost ii = i as int;
            assert(!survives(ii, ii));
            let ghost d = choose|d: int| 2 <= d < ii && d * d <= ii && #[trigger] (ii % d) == 0;
            assert forall|k: int| 0 <= k < n && ii * ii <= k && k % ii == 0 implies !survives(
                k,
                ii,
            ) by {
                lemma_divides_trans(d, ii, k);
                assert(d * d <= k) by (nonlinear_arith)
                    requires
                        d * d <= ii,
                        ii * ii <= k,
                        ii >= 2,
                ;
                assert(k % d == 0);
            }
        }
        assert forall|k: int| 0 <= k < n implies #[trigger] table@[k] == survives(k, i + 1) by {
            if survives(k, i as int) && !(i * i <= k && k % (i as int) == 0) {
                assert forall|d: int| 2 <= d < i + 1 && d * d <= k implies #[trigger] (k % d)
                    != 0 by {
                    if d == i {
                    }
                }
            }
        }
        assert((i + 1) * (i + 1) <= 0x1_0000_0000) by (nonlinear_arith)
            requires
                i < 65536,
        ;
        i = i + 1;
    }
    assert forall|j: int| 0 <= j < n implies #[trigger] table@[j] == is_prime(j) by {
        lemma_survivor_is_prime(j, i as int);
    }

    let mut primes: Vec<u32> = Vec::new();
    let mut k: u32 = 2;
    while k <= limit
        invariant
            2 <= k <= limit as int + 1,
            limit < u32::MAX,
            n == limit + 1,
            table@.len() == n,
            forall|j: int| 0 <= j < n ==> #[trigger] table@[j] == is_prime(j),
            forall|m: int| 0 <= m < primes@.len() ==> is_prime(#[trigger] primes@[m] as int),
            forall|m: int| 0 <= m < primes@.len() ==> #[trigger] primes@[m] < k,
            forall|m: int, q: int| 0 <= m < q < primes@.len() ==> primes@[m] < primes@[q],
            forall|p: u32| p < k && is_prime(p as int) ==> primes@.contains(p),
        decreases limit as int + 1 - k,
    {
        let ghost before = primes@;
        if table[k as usize] {
            primes.push(k);
            assert(primes@[primes@.len() - 1] == k);
            assert forall|m: int, q: int| 0 <= m < q < primes@.len() implies primes@[m]
                < primes@[q] by {
                assert(primes@[m] == before[m]);
                assert(before[m] < k);
                if q < before.len() {
                    assert(primes@[q] == before[q]);
                }
            }
        }
        assert forall|p: u32| p < k + 1 && is_prime(p as int) implies primes@.contains(p) by {
            if p == k {
                assert(primes@[primes@.len() - 1] == k);
            } else {
                assert(before.contains(p));
                let w = choose|w: int| 0 <= w < before.len() && before[w] == p;
                assert(primes@[w] == p);
            }
        }
        k = k + 1;
    }
    primes
}

} // verus!
