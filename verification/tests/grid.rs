use optics_bench::grid::{fftshift2, grid_size, transpose_square};

fn grid(n: usize) -> Vec<usize> {
    (0..n * n).collect()
}

#[test]
fn shift_moves_the_origin_to_the_centre() {
    let mut g = grid(4);
    fftshift2(&mut g, 4);
    assert_eq!(g, vec![10, 11, 8, 9, 14, 15, 12, 13, 2, 3, 0, 1, 6, 7, 4, 5]);
    assert_eq!(g[2 * 4 + 2], 0);
}

#[test]
fn shift_twice_is_the_identity_on_even_grids() {
    for n in [0usize, 2, 4, 6, 8] {
        let mut g = grid(n);
        fftshift2(&mut g, n);
        fftshift2(&mut g, n);
        assert_eq!(g, grid(n));
    }
}

#[test]
fn shift_on_an_odd_grid_keeps_the_last_row() {
    let mut g = grid(3);
    fftshift2(&mut g, 3);
    // h = 1: rows 0 and 1 trade places, shifted by one column; row 2 stays
    assert_eq!(g, vec![4, 5, 3, 2, 0, 1, 6, 7, 8]);
    assert_eq!(g[1 * 3 + 1], 0);
}

#[test]
fn shift_leaves_data_beyond_the_grid() {
    let mut g: Vec<usize> = (0..7).collect();
    fftshift2(&mut g, 2);
    assert_eq!(g, vec![3, 2, 1, 0, 4, 5, 6]);
}

#[test]
fn transpose_and_back() {
    let a: Vec<u8> = (0..9).collect();
    let mut t = vec![0u8; 9];
    transpose_square(&a, &mut t, 3);
    assert_eq!(t, vec![0, 3, 6, 1, 4, 7, 2, 5, 8]);
    let mut back = vec![0u8; 9];
    transpose_square(&t, &mut back, 3);
    assert_eq!(back, a);
    let big: Vec<u32> = (0..64 * 64).collect();
    let mut tb = vec![0u32; 64 * 64];
    transpose_square(&big, &mut tb, 64);
    assert_eq!(tb[5 * 64 + 7], big[7 * 64 + 5]);
}

#[test]
fn grid_sizes_are_kept_between_64_and_2048() {
    assert_eq!(grid_size(0), 64);
    assert_eq!(grid_size(63), 64);
    assert_eq!(grid_size(512), 512);
    assert_eq!(grid_size(2048), 2048);
    assert_eq!(grid_size(4096), 2048);
}
