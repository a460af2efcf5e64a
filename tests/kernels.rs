use wasm_sorter::{
    fibonacci_sequence, fill_raster, hash_computation, monte_carlo_inside, point_in_disc,
    prime_sieve, product_len, Lcg,
};

#[test]
fn monte_carlo_zero_iterations() {
    assert_eq!(monte_carlo_inside(0), 0);
}

#[test]
fn monte_carlo_small_counts() {
    assert_eq!(monte_carlo_inside(1), 1);
    assert_eq!(monte_carlo_inside(10), 8);
    assert_eq!(monte_carlo_inside(100), 81);
    assert_eq!(monte_carlo_inside(1000), 793);
}

#[test]
fn monte_carlo_converges_to_pi() {
    let n: u32 = 1_000_000;
    let inside = monte_carlo_inside(n);
    assert_eq!(inside, 784850);
    let estimate = 4.0 * inside as f64 / n as f64;
    assert!((estimate - std::f64::consts::PI).abs() < 0.05);
}

#[test]
fn lcg_first_steps() {
    let mut g = Lcg::new();
    assert_eq!(g.state, 12345);
    let a = g.next_coordinate();
    let s1 = 12345u64.wrapping_mul(1103515245).wrapping_add(12345);
    assert_eq!(g.state, s1);
    assert_eq!(a, s1 % 2147483647);
    let b = g.next_coordinate();
    let s2 = s1.wrapping_mul(1103515245).wrapping_add(12345);
    assert_eq!(b, s2 % 2147483647);
}

#[test]
fn disc_membership() {
    let m: u64 = 2147483647;
    assert!(point_in_disc(m / 2, m / 2));
    assert!(!point_in_disc(0, 0));
    assert!(!point_in_disc(0, m / 2 - 1000));
    assert!(!point_in_disc(m / 2, 0));
    assert!(point_in_disc(m / 4, m / 2));
}

#[test]
fn raster_dimensions() {
    let r = fill_raster(3, 2, |x: u32, y: u32| x + 10 * y);
    assert_eq!(r, vec![0, 1, 2, 10, 11, 12]);
    assert!(fill_raster(0, 5, |_: u32, _: u32| 1).is_empty());
    assert!(fill_raster(5, 0, |_: u32, _: u32| 1).is_empty());
    assert_eq!(fill_raster(4, 4, |_: u32, _: u32| 100).len(), 16);
}

#[test]
fn primes_small_limits() {
    assert_eq!(prime_sieve(1), Vec::<u32>::new());
    assert_eq!(prime_sieve(0), Vec::<u32>::new());
    assert_eq!(prime_sieve(2), vec![2]);
    assert_eq!(prime_sieve(10), vec![2, 3, 5, 7]);
    assert_eq!(prime_sieve(30), vec![2, 3, 5, 7, 11, 13, 17, 19, 23, 29]);
}

#[test]
fn primes_count_to_ten_thousand() {
    let p = prime_sieve(10_000);
    assert_eq!(p.len(), 1229);
    assert_eq!(*p.last().unwrap(), 9973);
}

#[test]
fn matrix_shapes() {
    assert_eq!(product_len(4, 4, 2, 2, 2), Some(4));
    assert_eq!(product_len(6, 12, 2, 3, 4), Some(8));
    assert_eq!(product_len(3, 4, 2, 2, 2), None);
    assert_eq!(product_len(4, 3, 2, 2, 2), None);
    assert_eq!(product_len(0, 0, 0, 0, 0), Some(0));
    assert_eq!(product_len(usize::MAX, usize::MAX, usize::MAX, 1, 2), None);
}

#[test]
fn fibonacci_edges() {
    assert_eq!(fibonacci_sequence(0), Vec::<u64>::new());
    assert_eq!(fibonacci_sequence(1), vec![0]);
    assert_eq!(fibonacci_sequence(2), vec![0, 1]);
    assert_eq!(fibonacci_sequence(10), vec![0, 1, 1, 2, 3, 5, 8, 13, 21, 34]);
}

#[test]
fn fibonacci_wraps() {
    let f = fibonacci_sequence(100);
    assert_eq!(f.len(), 100);
    assert_eq!(f[93], 12200160415121876738);
    assert_eq!(f[94], f[93].wrapping_add(f[92]));
    assert!(f[94] < f[93]);
}

#[test]
fn hash_known_values() {
    assert_eq!(hash_computation("abc", 1), 1273390447);
    assert_eq!(hash_computation("abc", 2), 2694291618);
    assert_eq!(hash_computation("hello", 3), 3974483134);
    assert_eq!(hash_computation("", 5), 0);
    assert_eq!(hash_computation("a", 0), 0);
}

#[test]
fn hash_deterministic() {
    assert_eq!(hash_computation("data", 7), hash_computation("data", 7));
    assert_ne!(hash_computation("data", 7), hash_computation("data", 8));
}
