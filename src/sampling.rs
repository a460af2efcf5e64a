use vstd::prelude::*;
use vstd::arithmetic::mul::lemma_mul_upper_bound;

verus! {

/// Starting state of the sample generator.
pub const LCG_SEED: u64 = 12345;

/// Multiplier of the linear-congruential step.
pub const LCG_MULTIPLIER: u64 = 1103515245;

/// Increment of the linear-congruential step.
pub const LCG_INCREMENT: u64 = 12345;

/// A coordinate is the generator state modulo this number, read as a
/// fraction of it.
pub const SAMPLE_MODULUS: u64 = 2147483647;

/// One generator step: `state * multiplier + increment`, each operation
/// wrapping modulo 2^64.
pub open spec fn lcg_step(state: u64) -> u64 {
    (((state as int * LCG_MULTIPLIER as int) % 0x1_0000_0000_0000_0000 + LCG_INCREMENT as int)
        % 0x1_0000_0000_0000_0000) as u64
}

/// The generator state after `n` steps from the seed.
pub open spec fn lcg_state(n: nat) -> u64
    decreases n,
{
    if n == 0 {
        LCG_SEED
    } else {
        lcg_step(lcg_state((n - 1) as nat))
    }
}

/// The `i`-th sample point, as two coordinates in `[0, SAMPLE_MODULUS)`;
/// a coordinate `c` stands for `2 c / SAMPLE_MODULUS - 1` in `[-1, 1]`.
pub open spec fn sample_point(i: nat) -> (u64, u64) {
    (
        (lcg_state(2 * i + 1) % SAMPLE_MODULUS) as u64,
        (lcg_state(2 * i + 2) % SAMPLE_MODULUS) as u64,
    )
}

/// The point that coordinates `(a, b)` stand for lies in the closed unit
/// disc: `x^2 + y^2 <= 1`, scaled by `SAMPLE_MODULUS^2`.
pub open spec fn in_unit_disc(a: u64, b: u64) -> bool {
    let dx = 2 * a as int - SAMPLE_MODULUS as int;
    let dy = 2 * b as int - SAMPLE_MODULUS as int;
    dx * dx + dy * dy <= SAMPLE_MODULUS as int * SAMPLE_MODULUS as int
}

/// How many of the first `n` sample points lie in the unit disc.
pub open spec fn inside_count(n: nat) -> nat
    decreases n,
{
    if n == 0 {
        0
    } else {
        inside_count((n - 1) as nat) + if in_unit_disc(
            sample_point((n - 1) as nat).0,
            sample_point((n - 1) as nat).1,
        ) {
            1nat
        } else {
            0nat
        }
    }
}

/// A linear-congruential generator, held as a value and threaded through
/// the sampling loop.
pub struct Lcg {
    pub state: u64,
}

impl Lcg {
    /// A generator at the fixed seed.
    pub fn new() -> (r: Lcg)
        ensures
            r.state == LCG_SEED,
    {
        Lcg { state: LCG_SEED }
    }

    /// Advances the generator one step and returns the next coordinate.
    pub fn next_coordinate(&mut self) -> (r: u64)
        ensures
            final(self).state == lcg_step(old(self).state),
            r == final(self).state % SAMPLE_MODULUS,
            r < SAMPLE_MODULUS,
    {
        self.state = self.state.wrapping_mul(LCG_MULTIPLIER).wrapping_add(LCG_INCREMENT);
        self.state % SAMPLE_MODULUS
    }
}

/// Distance of coordinate `c` from the centre of `[0, SAMPLE_MODULUS)`,
/// doubled: `|2 c - SAMPLE_MODULUS|`.
fn centre_offset(c: u64) -> (r: u64)
    requires
        c < SAMPLE_MODULUS,
    ensures
        r <= SAMPLE_MODULUS,
        r as int * r as int == (2 * c as int - SAMPLE_MODULUS as int) * (2 * c as int
            - SAMPLE_MODULUS as int),
{
    let r = if 2 * c >= SAMPLE_MODULUS {
        2 * c - SAMPLE_MODULUS
    } else {
        SAMPLE_MODULUS - 2 * c
    };
    assert(r as int * r as int == (2 * c as int - SAMPLE_MODULUS as int) * (2 * c as int
        - SAMPLE_MODULUS as int)) by (nonlinear_arith)
        requires
            r as int == 2 * c as int - SAMPLE_MODULUS as int || r as int == SAMPLE_MODULUS as int
                - 2 * c as int,
    ;
    r
}

/// Whether the point that coordinates `(a, b)` stand for lies in the closed
/// unit disc.
pub fn point_in_disc(a: u64, b: u64) -> (r: bool)
    requires
        a < SAMPLE_MODULUS,
        b < SAMPLE_MODULUS,
    ensures
        r == in_unit_disc(a, b),
{
    let da = centre_offset(a);
    let db = centre_offset(b);
    proof {
        lemma_mul_upper_bound(da as int, 0x7fff_ffff, da as int, 0x7fff_ffff);
        lemma_mul_upper_bound(db as int, 0x7fff_ffff, db as int, 0x7fff_ffff);
    }
    da * da + db * db <= SAMPLE_MODULUS * SAMPLE_MODULUS
}

/// Draws the next sample point from `rng` and says whether it lies in the
/// unit disc.
fn draw_inside(rng: &mut Lcg) -> (r: bool)
    ensures
        final(rng).state == lcg_step(lcg_step(old(rng).state)),
        r == in_unit_disc(
            (lcg_step(old(rng).state) % SAMPLE_MODULUS) as u64,
            (lcg_step(lcg_step(old(rng).state)) % SAMPLE_MODULUS) as u64,
        ),
{
    let a = rng.next_coordinate();
    let b = rng.next_coordinate();
    point_in_disc(a, b)
}

/// How many of the first `iterations` sample points of the seeded generator
/// fall in the unit disc. Four times this count over `iterations` estimates
/// pi.
pub fn monte_carlo_inside(iterations: u32) -> (r: u32)
    ensures
        r as nat == inside_count(iterations as nat),
        r <= iterations,
{
    let mut rng = Lcg::new();
    let mut inside: u32 = 0;
    let mut i: u32 = 0;
    while i < iterations
        invariant
            i <= iterations,
            inside <= i,
            inside as nat == inside_count(i as nat),
            rng.state == lcg_state(2 * i as nat),
        decreases iterations - i,
    {
        let ghost k = i as nat;
        let hit = draw_inside(&mut rng);
        assert(lcg_state(2 * k + 1) == lcg_step(lcg_state(2 * k)));
        assert(lcg_state(2 * k + 2) == lcg_step(lcg_state(2 * k + 1)));
        assert(rng.state == lcg_state(2 * (k + 1)));
        assert(hit == in_unit_disc(sample_point(k).0, sample_point(k).1));
        assert(inside_count(k + 1) == inside_count(k) + if hit { 1nat } else { 0nat });
        if hit {
            inside = inside + 1;
        }
        i = i + 1;
    }
    inside
}

} // verus!
