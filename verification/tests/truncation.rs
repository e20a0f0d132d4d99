use cartesian_distance::cartesian::{
    cartesian_par_batch_simd, cartesian_par_elementwise, cartesian_par_simd, cartesian_remainder,
    cartesian_seq_simd,
};

fn manhattan(lhs_x: i64, lhs_y: i64, rhs_x: i64, rhs_y: i64) -> i64 {
    (rhs_x - lhs_x).abs() + (rhs_y - lhs_y).abs()
}

fn ramp(n: usize, step: i64) -> Vec<i64> {
    (0..n as i64).map(|i| i * step).collect()
}

fn lengths_for(n: usize) -> (usize, usize, usize, usize) {
    let lhs_x = ramp(n, 1);
    let lhs_y = ramp(n, -2);
    let rhs_x = ramp(n, 3);
    let rhs_y = ramp(n, 5);
    let seq = cartesian_seq_simd::<i64, _, 8>(&lhs_x, &lhs_y, &rhs_x, &rhs_y, &manhattan);
    let par = cartesian_par_elementwise::<i64, _, 24>(&lhs_x, &lhs_y, &rhs_x, &rhs_y, &manhattan);
    let simd = cartesian_par_simd::<i64, _, 24, 8>(&lhs_x, &lhs_y, &rhs_x, &rhs_y, &manhattan);
    let batch =
        cartesian_par_batch_simd::<i64, _, 24, 8>(&lhs_x, &lhs_y, &rhs_x, &rhs_y, &manhattan);
    for (i, value) in seq.iter().enumerate() {
        assert_eq!(*value, 9 * i as i64);
    }
    for (i, value) in par.iter().enumerate() {
        assert_eq!(*value, 9 * i as i64);
    }
    assert_eq!(simd, par);
    assert_eq!(batch, par);
    (seq.len(), par.len(), simd.len(), batch.len())
}

#[test]
fn no_points_give_no_results() {
    assert_eq!(lengths_for(0), (0, 0, 0, 0));
}

#[test]
fn less_than_one_chunk_gives_no_results() {
    assert_eq!(lengths_for(7), (0, 0, 0, 0));
}

#[test]
fn one_window_and_no_block() {
    assert_eq!(lengths_for(8), (8, 0, 0, 0));
    assert_eq!(lengths_for(23), (16, 0, 0, 0));
}

#[test]
fn exact_multiples_are_kept_whole() {
    assert_eq!(lengths_for(24), (24, 24, 24, 24));
    assert_eq!(lengths_for(240), (240, 240, 240, 240));
}

#[test]
fn remainders_are_left_out() {
    assert_eq!(lengths_for(25), (24, 24, 24, 24));
    assert_eq!(lengths_for(47), (40, 24, 24, 24));
    assert_eq!(lengths_for(1000), (1000, 984, 984, 984));
    assert_eq!(lengths_for(1007), (1000, 984, 984, 984));
}

#[test]
fn chunks_of_one_keep_everything() {
    let lhs_x = ramp(37, 1);
    let lhs_y = ramp(37, 1);
    let rhs_x = ramp(37, 2);
    let rhs_y = ramp(37, 3);
    let expected: Vec<i64> = (0..37).map(|i| 3 * i).collect();
    let seq = cartesian_seq_simd::<i64, _, 1>(&lhs_x, &lhs_y, &rhs_x, &rhs_y, &manhattan);
    assert_eq!(seq, expected);
    let par = cartesian_par_elementwise::<i64, _, 1>(&lhs_x, &lhs_y, &rhs_x, &rhs_y, &manhattan);
    assert_eq!(par, expected);
    let simd = cartesian_par_simd::<i64, _, 1, 1>(&lhs_x, &lhs_y, &rhs_x, &rhs_y, &manhattan);
    assert_eq!(simd, expected);
    let batch =
        cartesian_par_batch_simd::<i64, _, 1, 1>(&lhs_x, &lhs_y, &rhs_x, &rhs_y, &manhattan);
    assert_eq!(batch, expected);
}

#[test]
fn two_levels_drop_at_both() {
    // Blocks of 10 in batches of 4 keep 8 of every block: 3 blocks of 35.
    let lhs_x = ramp(35, 1);
    let lhs_y = ramp(35, 0);
    let rhs_x = ramp(35, 0);
    let rhs_y = ramp(35, 0);
    let simd = cartesian_par_simd::<i64, _, 10, 4>(&lhs_x, &lhs_y, &rhs_x, &rhs_y, &manhattan);
    assert_eq!(simd.len(), 24);
    let kept_pairs: Vec<i64> = (0..30).filter(|i| i % 10 < 8).collect();
    assert_eq!(simd, kept_pairs);
    let batch =
        cartesian_par_batch_simd::<i64, _, 10, 4>(&lhs_x, &lhs_y, &rhs_x, &rhs_y, &manhattan);
    assert_eq!(batch, kept_pairs);
}

#[test]
fn the_remainder_can_be_added() {
    let n = 64 * 2 + 5;
    let lhs_x = ramp(n, 1);
    let lhs_y = ramp(n, -2);
    let rhs_x = ramp(n, 3);
    let rhs_y = ramp(n, 5);
    let mut out = cartesian_seq_simd::<i64, _, 64>(&lhs_x, &lhs_y, &rhs_x, &rhs_y, &manhattan);
    assert_eq!(out.len(), 128);
    cartesian_remainder(&lhs_x, &lhs_y, &rhs_x, &rhs_y, &manhattan, &mut out);
    let expected: Vec<i64> = (0..133).map(|i| 9 * i).collect();
    assert_eq!(out, expected);
    cartesian_remainder(&lhs_x, &lhs_y, &rhs_x, &rhs_y, &manhattan, &mut out);
    assert_eq!(out, expected);
}

#[test]
fn the_remainder_of_nothing_is_everything() {
    let lhs_x = ramp(10, 1);
    let lhs_y = ramp(10, 1);
    let rhs_x = ramp(10, 2);
    let rhs_y = ramp(10, 3);
    let mut out: Vec<i64> = Vec::new();
    cartesian_remainder(&lhs_x, &lhs_y, &rhs_x, &rhs_y, &manhattan, &mut out);
    let expected: Vec<i64> = (0..10).map(|i| 3 * i).collect();
    assert_eq!(out, expected);
}
