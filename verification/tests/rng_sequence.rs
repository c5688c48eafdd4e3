use mad_dog_sim::rng::{ushr, Rng};

fn unit(u: u32) -> f64 {
    (u as f64) / 4294967296.0
}

#[test]
fn rng_sequence_seed_1768() {
    let a = 1768u32.wrapping_add(0x6d2b79f5) as i32;
    assert_eq!(a, 1831567581);
    let mut rng = Rng::new(1768);
    let v = unit(rng.next_u32());
    assert!((v - 0.122_922_855_895_012_6).abs() < 1e-10, "got {v}");
}

#[test]
fn rng_matches_mulberry32_first_values() {
    let mut rng = Rng::new(12345);
    let a = unit(rng.next_u32());
    assert!((a - 0.979_728_267_760_947_3).abs() < 1e-10);
}

#[test]
fn rng_is_deterministic_per_seed() {
    let mut a = Rng::new(42);
    let mut b = Rng::new(42);
    for _ in 0..16 {
        assert_eq!(a.next_u32(), b.next_u32());
    }
    let mut c = Rng::new(43);
    let mut a = Rng::new(42);
    assert_ne!(a.next_u32(), c.next_u32());
}

#[test]
fn ushr_is_javascript_unsigned_shift() {
    assert_eq!(ushr(-1, 28), 15);
    assert_eq!(ushr(-8, 1), 0x7fff_fffc);
    assert_eq!(ushr(256, 4), 16);
    // shift counts are taken modulo 32
    assert_eq!(ushr(256, 36), 16);
}
