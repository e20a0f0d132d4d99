use cartesian_distance::cartesian::{
    cartesian_par_batch_simd, cartesian_par_elementwise, cartesian_par_simd, cartesian_seq_simd,
    cartesian_simd,
};
use num_traits::Float;

fn distance<T: Float>(lhs_x: T, lhs_y: T, rhs_x: T, rhs_y: T) -> T {
    let diff_x = rhs_x - lhs_x;
    let diff_y = rhs_y - lhs_y;
    (diff_x * diff_x + diff_y * diff_y).sqrt()
}

fn distance_fused<T: Float>(lhs_x: T, lhs_y: T, rhs_x: T, rhs_y: T) -> T {
    let diff_x = rhs_x - lhs_x;
    let diff_y = rhs_y - lhs_y;
    diff_x.mul_add(diff_x, diff_y * diff_y).sqrt()
}

fn within_tolerance(a: f64, b: f64) -> bool {
    (a - b).abs() <= 1e-9 * a.abs().max(b.abs()).max(1.0)
}

fn coordinates(n: usize, seed: u64) -> Vec<f64> {
    let mut state = seed;
    let mut out = Vec::with_capacity(n);
    for _ in 0..n {
        state = state.wrapping_mul(6364136223846793005).wrapping_add(1442695040888963407);
        out.push(((state >> 11) as f64) / ((1u64 << 53) as f64) * 200.0 - 100.0);
    }
    out
}

fn one_by_one(lhs_x: &[f64], lhs_y: &[f64], rhs_x: &[f64], rhs_y: &[f64]) -> Vec<f64> {
    (0..lhs_x.len()).map(|i| distance(lhs_x[i], lhs_y[i], rhs_x[i], rhs_y[i])).collect()
}

#[test]
fn every_strategy_equals_one_by_one() {
    let n = 5 * 256 + 77;
    let lhs_x = coordinates(n, 11);
    let lhs_y = coordinates(n, 12);
    let rhs_x = coordinates(n, 13);
    let rhs_y = coordinates(n, 14);
    let scalar = one_by_one(&lhs_x, &lhs_y, &rhs_x, &rhs_y);

    let seq = cartesian_seq_simd::<f64, _, 64>(&lhs_x, &lhs_y, &rhs_x, &rhs_y, &distance::<f64>);
    assert_eq!(seq.len(), 1344);
    assert_eq!(seq[..], scalar[..1344]);

    let par =
        cartesian_par_elementwise::<f64, _, 256>(&lhs_x, &lhs_y, &rhs_x, &rhs_y, &distance::<f64>);
    assert_eq!(par.len(), 1280);
    assert_eq!(par[..], scalar[..1280]);

    let simd =
        cartesian_par_simd::<f64, _, 256, 64>(&lhs_x, &lhs_y, &rhs_x, &rhs_y, &distance::<f64>);
    assert_eq!(simd, par);

    let batch = cartesian_par_batch_simd::<f64, _, 256, 64>(
        &lhs_x,
        &lhs_y,
        &rhs_x,
        &rhs_y,
        &distance::<f64>,
    );
    assert_eq!(batch, par);
}

#[test]
fn fused_strategies_equal_one_by_one_within_tolerance() {
    let n = 3 * 128 + 9;
    let lhs_x = coordinates(n, 21);
    let lhs_y = coordinates(n, 22);
    let rhs_x = coordinates(n, 23);
    let rhs_y = coordinates(n, 24);
    let scalar = one_by_one(&lhs_x, &lhs_y, &rhs_x, &rhs_y);
    let seq =
        cartesian_seq_simd::<f64, _, 64>(&lhs_x, &lhs_y, &rhs_x, &rhs_y, &distance_fused::<f64>);
    let simd = cartesian_par_simd::<f64, _, 64, 64>(
        &lhs_x,
        &lhs_y,
        &rhs_x,
        &rhs_y,
        &distance_fused::<f64>,
    );
    let batch = cartesian_par_batch_simd::<f64, _, 128, 64>(
        &lhs_x,
        &lhs_y,
        &rhs_x,
        &rhs_y,
        &distance_fused::<f64>,
    );
    assert_eq!(seq.len(), 384);
    assert_eq!(simd.len(), 384);
    assert_eq!(batch.len(), 384);
    for i in 0..384 {
        assert!(within_tolerance(seq[i], scalar[i]));
        assert_eq!(simd[i], seq[i]);
        assert_eq!(batch[i], seq[i]);
    }
}

#[test]
fn a_batch_equals_its_lanes_one_by_one() {
    let lhs_x = coordinates(8, 31);
    let lhs_y = coordinates(8, 32);
    let rhs_x = coordinates(8, 33);
    let rhs_y = coordinates(8, 34);
    let mut a = [0.0f64; 8];
    let mut b = [0.0f64; 8];
    let mut c = [0.0f64; 8];
    let mut d = [0.0f64; 8];
    a.copy_from_slice(&lhs_x);
    b.copy_from_slice(&lhs_y);
    c.copy_from_slice(&rhs_x);
    d.copy_from_slice(&rhs_y);
    let out = cartesian_simd::<f64, _, 8>(a, b, c, d, &distance::<f64>);
    assert_eq!(out.to_vec(), one_by_one(&lhs_x, &lhs_y, &rhs_x, &rhs_y));
}

#[test]
fn exchanging_the_point_sets_changes_nothing() {
    let n = 300;
    let lhs_x = coordinates(n, 41);
    let lhs_y = coordinates(n, 42);
    let rhs_x = coordinates(n, 43);
    let rhs_y = coordinates(n, 44);
    for i in 0..n {
        assert_eq!(
            distance(lhs_x[i], lhs_y[i], rhs_x[i], rhs_y[i]),
            distance(rhs_x[i], rhs_y[i], lhs_x[i], lhs_y[i])
        );
        assert_eq!(
            distance_fused(lhs_x[i], lhs_y[i], rhs_x[i], rhs_y[i]),
            distance_fused(rhs_x[i], rhs_y[i], lhs_x[i], lhs_y[i])
        );
    }
    let there = cartesian_par_batch_simd::<f64, _, 100, 10>(
        &lhs_x,
        &lhs_y,
        &rhs_x,
        &rhs_y,
        &distance_fused::<f64>,
    );
    let back = cartesian_par_batch_simd::<f64, _, 100, 10>(
        &rhs_x,
        &rhs_y,
        &lhs_x,
        &lhs_y,
        &distance_fused::<f64>,
    );
    assert_eq!(there.len(), 300);
    assert_eq!(there, back);
    let there = cartesian_seq_simd::<f64, _, 64>(&lhs_x, &lhs_y, &rhs_x, &rhs_y, &distance::<f64>);
    let back = cartesian_seq_simd::<f64, _, 64>(&rhs_x, &rhs_y, &lhs_x, &lhs_y, &distance::<f64>);
    assert_eq!(there.len(), 256);
    assert_eq!(there, back);
}

#[test]
fn distances_are_not_negative() {
    let n = 512;
    let lhs_x = coordinates(n, 51);
    let lhs_y = coordinates(n, 52);
    let rhs_x = coordinates(n, 53);
    let rhs_y = coordinates(n, 54);
    let seq = cartesian_seq_simd::<f64, _, 64>(&lhs_x, &lhs_y, &rhs_x, &rhs_y, &distance::<f64>);
    let par =
        cartesian_par_elementwise::<f64, _, 128>(&lhs_x, &lhs_y, &rhs_x, &rhs_y, &distance::<f64>);
    let simd = cartesian_par_simd::<f64, _, 128, 64>(
        &lhs_x,
        &lhs_y,
        &rhs_x,
        &rhs_y,
        &distance_fused::<f64>,
    );
    let batch = cartesian_par_batch_simd::<f64, _, 128, 64>(
        &lhs_x,
        &lhs_y,
        &rhs_x,
        &rhs_y,
        &distance_fused::<f64>,
    );
    for out in [seq, par, simd, batch] {
        assert_eq!(out.len(), 512);
        assert!(out.iter().all(|d| *d >= 0.0));
    }
}

#[test]
fn coincident_points_are_at_distance_zero() {
    let n = 512;
    let x = coordinates(n, 61);
    let y = coordinates(n, 62);
    let seq = cartesian_seq_simd::<f64, _, 64>(&x, &y, &x, &y, &distance_fused::<f64>);
    let par = cartesian_par_elementwise::<f64, _, 128>(&x, &y, &x, &y, &distance::<f64>);
    let simd = cartesian_par_simd::<f64, _, 128, 64>(&x, &y, &x, &y, &distance_fused::<f64>);
    let batch = cartesian_par_batch_simd::<f64, _, 128, 64>(&x, &y, &x, &y, &distance_fused::<f64>);
    for out in [seq, par, simd, batch] {
        assert_eq!(out, vec![0.0; 512]);
    }
}
