use cartesian_distance::cartesian::{
    cartesian_par_batch_simd, cartesian_par_elementwise, cartesian_par_simd, cartesian_seq_simd,
};

/// A kernel on integers whose result tells which pair of points it was given.
fn tag(lhs_x: u64, lhs_y: u64, rhs_x: u64, rhs_y: u64) -> u64 {
    lhs_x * 1_000_000 + rhs_x + (lhs_y - rhs_y)
}

fn numbered(n: usize) -> (Vec<u64>, Vec<u64>, Vec<u64>, Vec<u64>) {
    let lhs_x: Vec<u64> = (0..n as u64).collect();
    let lhs_y: Vec<u64> = vec![9; n];
    let rhs_x: Vec<u64> = (0..n as u64).map(|i| 2 * i + 1).collect();
    let rhs_y: Vec<u64> = vec![9; n];
    (lhs_x, lhs_y, rhs_x, rhs_y)
}

fn tag_of(i: usize) -> u64 {
    let i = i as u64;
    i * 1_000_000 + 2 * i + 1
}

#[test]
fn seq_simd_keeps_input_order() {
    let (lhs_x, lhs_y, rhs_x, rhs_y) = numbered(1000);
    let out = cartesian_seq_simd::<u64, _, 64>(&lhs_x, &lhs_y, &rhs_x, &rhs_y, &tag);
    assert_eq!(out.len(), 960);
    for (i, value) in out.iter().enumerate() {
        assert_eq!(*value, tag_of(i));
    }
}

#[test]
fn par_elementwise_keeps_input_order() {
    let (lhs_x, lhs_y, rhs_x, rhs_y) = numbered(100_003);
    let out = cartesian_par_elementwise::<u64, _, 7>(&lhs_x, &lhs_y, &rhs_x, &rhs_y, &tag);
    assert_eq!(out.len(), 100_002);
    for (i, value) in out.iter().enumerate() {
        assert_eq!(*value, tag_of(i));
    }
}

#[test]
fn par_simd_keeps_input_order() {
    let (lhs_x, lhs_y, rhs_x, rhs_y) = numbered(100_003);
    let out = cartesian_par_simd::<u64, _, 64, 64>(&lhs_x, &lhs_y, &rhs_x, &rhs_y, &tag);
    assert_eq!(out.len(), 99_968);
    for (i, value) in out.iter().enumerate() {
        assert_eq!(*value, tag_of(i));
    }
}

#[test]
fn par_batch_simd_keeps_input_order() {
    let (lhs_x, lhs_y, rhs_x, rhs_y) = numbered(100_003);
    let out = cartesian_par_batch_simd::<u64, _, 1024, 64>(&lhs_x, &lhs_y, &rhs_x, &rhs_y, &tag);
    assert_eq!(out.len(), 99_328);
    for (i, value) in out.iter().enumerate() {
        assert_eq!(*value, tag_of(i));
    }
}

#[test]
fn par_elementwise_with_large_blocks() {
    let n = 2 * 128_000 + 100;
    let (lhs_x, lhs_y, rhs_x, rhs_y) = numbered(n);
    let out = cartesian_par_elementwise::<u64, _, 128_000>(&lhs_x, &lhs_y, &rhs_x, &rhs_y, &tag);
    assert_eq!(out.len(), 256_000);
    for (i, value) in out.iter().enumerate() {
        assert_eq!(*value, tag_of(i));
    }
}

#[test]
fn par_batch_simd_with_large_blocks() {
    let n = 2 * 128_000 + 100;
    let (lhs_x, lhs_y, rhs_x, rhs_y) = numbered(n);
    let out =
        cartesian_par_batch_simd::<u64, _, 128_000, 64>(&lhs_x, &lhs_y, &rhs_x, &rhs_y, &tag);
    assert_eq!(out.len(), 256_000);
    for (i, value) in out.iter().enumerate() {
        assert_eq!(*value, tag_of(i));
    }
}

#[test]
fn nested_chunks_that_do_not_fill_a_block() {
    // Blocks of 5 cut into batches of 2: of each block the last pair is left
    // out, and of the 12 pairs the last 2.
    let (lhs_x, lhs_y, rhs_x, rhs_y) = numbered(12);
    let expected: Vec<u64> = [0usize, 1, 2, 3, 5, 6, 7, 8].iter().map(|i| tag_of(*i)).collect();
    let simd = cartesian_par_simd::<u64, _, 5, 2>(&lhs_x, &lhs_y, &rhs_x, &rhs_y, &tag);
    assert_eq!(simd, expected);
    let batch = cartesian_par_batch_simd::<u64, _, 5, 2>(&lhs_x, &lhs_y, &rhs_x, &rhs_y, &tag);
    assert_eq!(batch, expected);
}

#[test]
fn nested_chunks_wider_than_a_block() {
    let (lhs_x, lhs_y, rhs_x, rhs_y) = numbered(12);
    let simd = cartesian_par_simd::<u64, _, 3, 4>(&lhs_x, &lhs_y, &rhs_x, &rhs_y, &tag);
    assert!(simd.is_empty());
    let batch = cartesian_par_batch_simd::<u64, _, 3, 4>(&lhs_x, &lhs_y, &rhs_x, &rhs_y, &tag);
    assert!(batch.is_empty());
}
