use primg::sampler::{scale_normal, Sampler};
use rand::{SeedableRng, StdRng};

fn sampler(seed: usize, budget: u64) -> Sampler {
    let seed = [seed, 2, 3, 4];
    let rng: StdRng = SeedableRng::from_seed(&seed[..]);
    Sampler::new(rng, budget)
}

fn by_float(x: f64, k: u8) -> i32 {
    (x * k as f64) as i32
}

#[test]
fn scale_normal_takes_the_whole_part() {
    assert_eq!(scale_normal(1.0f64.to_bits(), 16), 16);
    assert_eq!(scale_normal(0.5f64.to_bits(), 31), 15);
    assert_eq!(scale_normal((-0.5f64).to_bits(), 31), -15);
    assert_eq!(scale_normal((-2.5f64).to_bits(), 16), -40);
    assert_eq!(scale_normal(0.06f64.to_bits(), 16), 0);
    assert_eq!(scale_normal((-0.06f64).to_bits(), 16), 0);
    assert_eq!(scale_normal(0.0625f64.to_bits(), 16), 1);
    assert_eq!(scale_normal(3.999999f64.to_bits(), 32), 127);
    assert_eq!(scale_normal(0.0f64.to_bits(), 32), 0);
    assert_eq!(scale_normal((-0.0f64).to_bits(), 32), 0);
    assert_eq!(scale_normal(1.75f64.to_bits(), 0), 0);
}

#[test]
fn scale_normal_stays_in_range() {
    assert_eq!(scale_normal(1e300f64.to_bits(), 16), i32::MAX);
    assert_eq!(scale_normal((-1e300f64).to_bits(), 16), i32::MIN);
    assert_eq!(scale_normal(f64::INFINITY.to_bits(), 1), i32::MAX);
    assert_eq!(scale_normal(f64::NEG_INFINITY.to_bits(), 1), i32::MIN);
    assert_eq!(scale_normal(f64::INFINITY.to_bits(), 0), 0);
    assert_eq!(scale_normal(f64::NAN.to_bits(), 16), 0);
    assert_eq!(scale_normal(2147483647.0f64.to_bits(), 1), i32::MAX);
    assert_eq!(scale_normal(2147483648.0f64.to_bits(), 1), i32::MAX);
    assert_eq!(scale_normal((-2147483648.0f64).to_bits(), 1), i32::MIN);
    assert_eq!(scale_normal((-2147483649.0f64).to_bits(), 1), i32::MIN);
    assert_eq!(scale_normal(134217727.9f64.to_bits(), 16), 2147483646);
    assert_eq!(scale_normal(5e-324f64.to_bits(), 255), 0);
    assert_eq!(scale_normal(f64::MIN_POSITIVE.to_bits(), 255), 0);
    assert_eq!(scale_normal(9007199254740992.0f64.to_bits(), 1), i32::MAX);
}

#[test]
fn scale_normal_agrees_with_the_product_of_numbers() {
    let mut x: u64 = 0x9e37_79b9_7f4a_7c15;
    for i in 0..20000u32 {
        x ^= x << 13;
        x ^= x >> 7;
        x ^= x << 17;
        // a number of a few units at most, as a normal draw is
        let v = ((x >> 11) as f64 / (1u64 << 53) as f64 - 0.5) * 12.0;
        for k in [16u8, 31, 32] {
            assert_eq!(scale_normal(v.to_bits(), k), by_float(v, k), "{} times {} ({})", v, k, i);
        }
    }
}

#[test]
fn uniform_draws_lie_in_the_range_and_vary() {
    let mut s = sampler(1, 10);
    let mut seen = [false; 7];
    for _ in 0..500 {
        let v = s.uniform(-3, 4);
        assert!((-3..4).contains(&v));
        seen[(v + 3) as usize] = true;
    }
    assert!(seen.iter().all(|&b| b));
    for _ in 0..100 {
        assert_eq!(s.uniform(5, 6), 5);
    }
    assert_eq!(s.left(), 10);
}

#[test]
fn normal_offsets_vary_about_zero() {
    let mut s = sampler(2, 0);
    let (mut below, mut above, mut far) = (0, 0, 0);
    let mut sum: i64 = 0;
    for _ in 0..4000 {
        let v = s.offset(16);
        if v < 0 {
            below += 1;
        }
        if v > 0 {
            above += 1;
        }
        if v.abs() > 16 * 6 {
            far += 1;
        }
        sum += v as i64;
    }
    assert!(below > 1500 && above > 1500);
    assert_eq!(far, 0);
    assert!(sum.abs() < 4000);
    assert_eq!(s.left(), 0);
}

#[test]
fn the_same_seed_gives_the_same_draws() {
    let mut a = sampler(7, 5);
    let mut b = sampler(7, 5);
    let mut c = sampler(8, 5);
    let mut differs = false;
    for _ in 0..50 {
        let (x, y, z) = (a.offset(31), b.offset(31), c.offset(31));
        assert_eq!(x, y);
        differs |= x != z;
        assert_eq!(a.uniform(0, 1000), b.uniform(0, 1000));
    }
    assert!(differs);
}

#[test]
fn the_budget_is_spent_one_by_one() {
    let mut s = sampler(3, 2);
    assert_eq!(s.left(), 2);
    assert!(s.spend());
    assert_eq!(s.left(), 1);
    assert!(s.spend());
    assert_eq!(s.left(), 0);
    assert!(!s.spend());
    assert_eq!(s.left(), 0);
    s.refill(9);
    assert_eq!(s.left(), 9);
}

#[test]
fn an_offset_scaled_by_nothing_is_nothing() {
    let mut s = sampler(4, 3);
    for _ in 0..200 {
        assert_eq!(s.offset(0), 0);
    }
    assert_eq!(s.left(), 3);
}

#[test]
fn an_offset_is_the_whole_part_of_the_scaled_draw() {
    // the same draws, scaled by 1 and by 32: the one is the whole part of
    // a number of which the other is the whole part of 32 times it
    let mut a = sampler(9, 0);
    let mut b = sampler(9, 0);
    let mut bound = 0;
    for _ in 0..2000 {
        let one = a.offset(1) as i64;
        let many = b.offset(32) as i64;
        if many >= 0 {
            assert!(32 * one <= many && many < 32 * (one + 1), "{} and {}", one, many);
        } else {
            assert!(32 * (one - 1) < many && many <= 32 * one, "{} and {}", one, many);
        }
        bound += 1;
    }
    assert_eq!(bound, 2000);
}
