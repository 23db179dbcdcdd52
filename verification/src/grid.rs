//! Index arithmetic of the centred 2D discrete Fourier transform on an
//! n x n grid stored row by row: the quadrant swap that moves the zero
//! frequency to the centre, and the transposition between the row and the
//! column passes.

use vstd::prelude::*;

verus! {

/// Position of row `r`, column `c` in a grid of width `n` stored row by row.
pub open spec fn idx(n: int, r: int, c: int) -> int {
    r * n + c
}

/// The column that column `c` is moved to: half a width further, wrapping round.
pub open spec fn shift_col(n: int, h: int, c: int) -> int {
    if c + h < n {
        c + h
    } else {
        c + h - n
    }
}

/// The column that lands on column `d`: the inverse of `shift_col`.
pub open spec fn unshift_col(n: int, h: int, d: int) -> int {
    if d >= h {
        d - h
    } else {
        d + n - h
    }
}

/// Where the element that `fftshift2` puts at row `r`, column `c` comes from:
/// the rows of the upper half trade places with those of the lower half, each
/// shifted by half a width; with an odd width the last row stays.
pub open spec fn shift_source(n: int, r: int, c: int) -> int {
    let h = n / 2;
    if r < h {
        idx(n, r + h, shift_col(n, h, c))
    } else if r < 2 * h {
        idx(n, r - h, unshift_col(n, h, c))
    } else {
        idx(n, r, c)
    }
}

/// `after` is `before` with its leading n x n grid quadrant-swapped by `fftshift2`.
pub open spec fn is_fftshift2<T>(before: Seq<T>, after: Seq<T>, n: int) -> bool {
    &&& after.len() == before.len()
    &&& forall|r: int, c: int|
        0 <= r < n && 0 <= c < n ==> #[trigger] after[idx(n, r, c)] == before[shift_source(n, r, c)]
    &&& forall|k: int| n * n <= k < before.len() ==> #[trigger] after[k] == before[k]
}

/// The grid size the 4f bench computes with: the requested size, kept
/// between 64 and 2048.
pub fn grid_size(requested: usize) -> (n: usize)
    ensures
        n == if requested < 64 {
            64
        } else if requested > 2048 {
            2048
        } else {
            requested
        },
{
    if requested < 64 {
        64
    } else if requested > 2048 {
        2048
    } else {
        requested
    }
}

/// Two grid positions are equal only for equal rows and columns.
pub proof fn lemma_idx_injective(n: int, r1: int, c1: int, r2: int, c2: int)
    requires
        0 <= c1 < n,
        0 <= c2 < n,
        0 <= r1,
        0 <= r2,
    ensures
        idx(n, r1, c1) == idx(n, r2, c2) <==> (r1 == r2 && c1 == c2),
        r1 < r2 ==> idx(n, r1, c1) < idx(n, r2, c2),
{
    if r1 < r2 {
        assert(r1 * n + n <= r2 * n) by (nonlinear_arith)
            requires
                r1 < r2,
                0 <= c1 < n,
        ;
    } else if r2 < r1 {
        assert(r2 * n + n <= r1 * n) by (nonlinear_arith)
            requires
                r2 < r1,
                0 <= c1 < n,
        ;
    }
}

/// Every position of the grid lies below n * n.
pub proof fn lemma_idx_bound(n: int, r: int, c: int)
    requires
        0 <= r < n,
        0 <= c < n,
    ensures
        0 <= idx(n, r, c) < n * n,
        idx(n, r, c) + 1 <= n * n,
{
    assert(0 <= r * n + c < n * n) by (nonlinear_arith)
        requires
            0 <= r < n,
            0 <= c < n,
    ;
}

/// Every position below n * n is some row and column of the grid.
pub proof fn lemma_idx_split(n: int, k: int)
    requires
        0 <= n,
        0 <= k < n * n,
    ensures
        0 <= k / n < n,
        0 <= k % n < n,
        k == idx(n, k / n, k % n),
{
    assert(n > 0) by (nonlinear_arith)
        requires
            0 <= n,
            0 <= k < n * n,
    ;
    vstd::arithmetic::div_mod::lemma_fundamental_div_mod(k, n);
    assert(0 <= k % n < n) by (nonlinear_arith)
        requires
            n > 0,
    ;
    assert(0 <= k / n < n) by (nonlinear_arith)
        requires
            n > 0,
            0 <= k < n * n,
            k == n * (k / n) + k % n,
            0 <= k % n < n,
    ;
    assert(k == (k / n) * n + k % n) by (nonlinear_arith)
        requires
            k == n * (k / n) + k % n,
    ;
}

/// Law: on a grid of even width, swapping the quadrants twice gives back the
/// data it started from (`fftshift2` is its own inverse).
pub proof fn lemma_fftshift2_twice<T>(a: Seq<T>, b: Seq<T>, c: Seq<T>, n: int)
    requires
        n >= 0,
        n % 2 == 0,
        n * n <= a.len(),
        is_fftshift2(a, b, n),
        is_fftshift2(b, c, n),
    ensures
        c == a,
{
    let h = n / 2;
    assert forall|k: int| 0 <= k < a.len() implies #[trigger] c[k] == a[k] by {
        if k < n * n {
            lemma_idx_split(n, k);
            let r = k / n;
            let col = k % n;
            assert(c[idx(n, r, col)] == b[shift_source(n, r, col)]);
            if r < h {
                let c2 = shift_col(n, h, col);
                assert(0 <= c2 < n);
                assert(b[idx(n, r + h, c2)] == a[shift_source(n, r + h, c2)]);
                assert(unshift_col(n, h, c2) == col);
            } else {
                let c2 = unshift_col(n, h, col);
                assert(0 <= c2 < n);
                assert(b[idx(n, r - h, c2)] == a[shift_source(n, r - h, c2)]);
                assert(shift_col(n, h, c2) == col);
            }
        }
    }
    assert(c =~= a);
}

/// Law: the element at row 0, column 0 (the zero frequency of an unshifted
/// transform) lands on row n / 2, column n / 2, the centre of the grid.
pub proof fn lemma_fftshift2_centres_origin<T>(a: Seq<T>, b: Seq<T>, n: int)
    requires
        n >= 1,
        n * n <= a.len(),
        is_fftshift2(a, b, n),
    ensures
        b[idx(n, n / 2, n / 2)] == a[idx(n, 0, 0)],
{
    let h = n / 2;
    assert(0 <= h < n);
    assert(b[idx(n, h, h)] == a[shift_source(n, h, h)]);
}

/// Swaps the quadrants of the n x n grid at the start of `data` so that the
/// element at row 0, column 0 moves to the centre (`fftshift` in both axes).
pub fn fftshift2<T: Copy>(data: &mut Vec<T>, n: usize)
    requires
        n * n <= old(data)@.len(),
    ensures
        is_fftshift2(old(data)@, final(data)@, n as int),
{
    let ghost orig = data@;
    let ghost ni = n as int;
    let len = data.len();
    proof {
        if n >= 2 {
            assert(n + n <= n * n) by (nonlinear_arith)
                requires
                    n >= 2,
            ;
        }
    }
    let h = n / 2;
    let mut j: usize = 0;
    while j < h
        invariant
            h == n / 2,
            j <= h,
            n * n <= orig.len(),
            orig.len() == len,
            n < 2 || n + n <= n * n,
            data@.len() == orig.len(),
            ni == n,
            forall|r: int, c: int|
                0 <= r < j && 0 <= c < n ==> #[trigger] data@[idx(ni, r, c)] == orig[idx(
                    ni,
                    r + h,
                    shift_col(ni, h as int, c),
                )],
            forall|r: int, c: int|
                h <= r < h + j && 0 <= c < n ==> #[trigger] data@[idx(ni, r, c)] == orig[idx(
                    ni,
                    r - h,
                    unshift_col(ni, h as int, c),
                )],
            forall|r: int, c: int|
                ((j <= r < h) || (h + j <= r < n)) && 0 <= c < n ==> #[trigger] data@[idx(
                    ni,
                    r,
                    c,
                )] == orig[idx(ni, r, c)],
            forall|k: int| n * n <= k < orig.len() ==> #[trigger] data@[k] == orig[k],
        decreases h - j,
    {
        let mut i: usize = 0;
        while i < n
            invariant
                h == n / 2,
                j < h,
                i <= n,
                n * n <= orig.len(),
                orig.len() == len,
                n < 2 || n + n <= n * n,
                data@.len() == orig.len(),
                ni == n,
                forall|r: int, c: int|
                    0 <= r < j && 0 <= c < n ==> #[trigger] data@[idx(ni, r, c)] == orig[idx(
                        ni,
                        r + h,
                        shift_col(ni, h as int, c),
                    )],
                forall|r: int, c: int|
                    h <= r < h + j && 0 <= c < n ==> #[trigger] data@[idx(ni, r, c)] == orig[idx(
                        ni,
                        r - h,
                        unshift_col(ni, h as int, c),
                    )],
                forall|r: int, c: int|
                    ((j + 1 <= r < h) || (h + j + 1 <= r < n)) && 0 <= c < n
                        ==> #[trigger] data@[idx(ni, r, c)] == orig[idx(ni, r, c)],
                forall|c: int|
                    0 <= c < i ==> #[trigger] data@[idx(ni, j as int, c)] == orig[idx(
                        ni,
                        j + h,
                        shift_col(ni, h as int, c),
                    )],
                forall|c: int|
                    i <= c < n ==> #[trigger] data@[idx(ni, j as int, c)] == orig[idx(
                        ni,
                        j as int,
                        c,
                    )],
                forall|d: int|
                    0 <= d < n && unshift_col(ni, h as int, d) < i ==> #[trigger] data@[idx(
                        ni,
                        j + h,
                        d,
                    )] == orig[idx(ni, j as int, unshift_col(ni, h as int, d))],
                forall|d: int|
                    0 <= d < n && unshift_col(ni, h as int, d) >= i ==> #[trigger] data@[idx(
                        ni,
                        j + h,
                        d,
                    )] == orig[idx(ni, j + h, d)],
                forall|k: int| n * n <= k < orig.len() ==> #[trigger] data@[k] == orig[k],
            decreases n - i,
        {
            let c2 = if i + h < n {
                i + h
            } else {
                i + h - n
            };
            proof {
                lemma_idx_bound(ni, j as int, i as int);
                lemma_idx_bound(ni, (j + h) as int, c2 as int);
            }
            let a = j * n + i;
            let b = (j + h) * n + c2;
            let ghost before = data@;
            let va = data[a];
            let vb = data[b];
            data.set(a, vb);
            data.set(b, va);
            proof {
                assert(a == idx(ni, j as int, i as int));
                assert(b == idx(ni, j + h, c2 as int));
                assert(c2 == shift_col(ni, h as int, i as int));
                assert(unshift_col(ni, h as int, c2 as int) == i);
                assert forall|r: int, c: int|
                    0 <= r < n && 0 <= c < n && !(r == j && c == i) && !(r == j + h && c == c2)
                        implies #[trigger] data@[idx(ni, r, c)] == before[idx(ni, r, c)] by {
                    lemma_idx_injective(ni, r, c, j as int, i as int);
                    lemma_idx_injective(ni, r, c, (j + h) as int, c2 as int);
                    lemma_idx_bound(ni, r, c);
                }
                assert forall|d: int|
                    0 <= d < n && unshift_col(ni, h as int, d) < i + 1 implies #[trigger] data@[idx(
                        ni,
                        j + h,
                        d,
                    )] == orig[idx(ni, j as int, unshift_col(ni, h as int, d))] by {
                    if d != c2 {
                        assert(data@[idx(ni, j + h, d)] == before[idx(ni, j + h, d)]);
                    }
                }
                assert forall|d: int|
                    0 <= d < n && unshift_col(ni, h as int, d) >= i + 1 implies #[trigger] data@[idx(
                        ni,
                        j + h,
                        d,
                    )] == orig[idx(ni, j + h, d)] by {
                    assert(data@[idx(ni, j + h, d)] == before[idx(ni, j + h, d)]);
                }
                assert forall|c: int| 0 <= c < i + 1 implies #[trigger] data@[idx(ni, j as int, c)]
                    == orig[idx(ni, j + h, shift_col(ni, h as int, c))] by {
                    if c != i {
                        assert(data@[idx(ni, j as int, c)] == before[idx(ni, j as int, c)]);
                    }
                }
                assert forall|c: int| i + 1 <= c < n implies #[trigger] data@[idx(
                    ni,
                    j as int,
                    c,
                )] == orig[idx(ni, j as int, c)] by {
                    assert(data@[idx(ni, j as int, c)] == before[idx(ni, j as int, c)]);
                }
                assert forall|r: int, c: int| 0 <= r < j && 0 <= c < n implies #[trigger] data@[idx(
                    ni,
                    r,
                    c,
                )] == orig[idx(ni, r + h, shift_col(ni, h as int, c))] by {
                    assert(data@[idx(ni, r, c)] == before[idx(ni, r, c)]);
                }
                assert forall|r: int, c: int| h <= r < h + j && 0 <= c < n implies #[trigger] data@[idx(
                    ni,
                    r,
                    c,
                )] == orig[idx(ni, r - h, unshift_col(ni, h as int, c))] by {
                    assert(data@[idx(ni, r, c)] == before[idx(ni, r, c)]);
                }
                assert forall|r: int, c: int|
                    ((j + 1 <= r < h) || (h + j + 1 <= r < n)) && 0 <= c < n implies #[trigger] data@[idx(
                        ni,
                        r,
                        c,
                    )] == orig[idx(ni, r, c)] by {
                    assert(data@[idx(ni, r, c)] == before[idx(ni, r, c)]);
                }
            }
            i += 1;
        }
        proof {
            assert forall|r: int, c: int| 0 <= r < j + 1 && 0 <= c < n implies #[trigger] data@[idx(
                ni,
                r,
                c,
            )] == orig[idx(ni, r + h, shift_col(ni, h as int, c))] by {
                if r == j {
                }
            }
            assert forall|r: int, c: int| h <= r < h + j + 1 && 0 <= c < n implies #[trigger] data@[idx(
                ni,
                r,
                c,
            )] == orig[idx(ni, r - h, unshift_col(ni, h as int, c))] by {
                if r == j + h {
                    assert(unshift_col(ni, h as int, c) < n);
                    assert(data@[idx(ni, j + h, c)] == orig[idx(
                        ni,
                        j as int,
                        unshift_col(ni, h as int, c),
                    )]);
                }
            }
        }
        j += 1;
    }
}

/// `after` holds `before` (a `width` x `height` grid, row by row) transposed
/// into a `height` x `width` grid.
pub open spec fn is_transpose<T>(before: Seq<T>, after: Seq<T>, width: int, height: int) -> bool {
    &&& after.len() == before.len()
    &&& forall|x: int, y: int|
        0 <= x < width && 0 <= y < height ==> #[trigger] after[idx(height, x, y)] == before[idx(
            width,
            y,
            x,
        )]
}

/// `transpose::transpose` from the transpose crate: the element at column x,
/// row y of the `width` x `height` input (index x + y * width) is written to
/// index y + x * height of the output, which has the input's length.
/// The crate panics unless both slices hold exactly width * height elements,
/// hence the requirement.
#[verifier::external_body]
fn transpose_into<T: Copy>(input: &[T], output: &mut [T], width: usize, height: usize)
    requires
        input@.len() == width * height,
        old(output)@.len() == input@.len(),
    ensures
        is_transpose(input@, final(output)@, width as int, height as int),
{
    transpose::transpose(input, output, width, height)
}

/// Transposes the n x n grid `input` into `output`, which must have the same size.
pub fn transpose_square<T: Copy>(input: &Vec<T>, output: &mut Vec<T>, n: usize)
    requires
        input@.len() == n * n,
        old(output)@.len() == n * n,
    ensures
        is_transpose(input@, final(output)@, n as int, n as int),
{
    transpose_into(input.as_slice(), output.as_mut_slice(), n, n);
}

/// Law: transposing a square grid twice gives back the grid it started from.
pub proof fn lemma_transpose_twice<T>(a: Seq<T>, b: Seq<T>, c: Seq<T>, n: int)
    requires
        n >= 0,
        a.len() == n * n,
        is_transpose(a, b, n, n),
        is_transpose(b, c, n, n),
    ensures
        c == a,
{
    assert forall|k: int| 0 <= k < a.len() implies #[trigger] c[k] == a[k] by {
        lemma_idx_split(n, k);
        let r = k / n;
        let col = k % n;
        assert(c[idx(n, r, col)] == b[idx(n, col, r)]);
        assert(b[idx(n, col, r)] == a[idx(n, r, col)]);
    }
    assert(c =~= a);
}

} // verus!
