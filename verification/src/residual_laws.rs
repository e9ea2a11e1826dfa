//! Laws of residuals.
use crate::geometry::LUMA_4X4_XY;
use crate::math::{ints, p2};
use crate::motion_laws::z_order;
use crate::recon_blocks::{mosaic, PlaneCtx};
use crate::recon_intra::{ac_block, chroma_dcs_of, chroma_residual, dc_of_16x16, residual_16x16};
use crate::recon_mb_inter::{inter_block4, inter_block8, inter_residual, mosaic8};
use crate::residual::{coded_before, levels4, levels8, zeros};
use crate::scan::{order4, order8, scan_pos4, scan_pos8, unscan4};
use crate::transform::{
    chroma_dc_420, chroma_dc_422, chroma_qp, core4x4, core8x8, dc422_matrix, dpcm, had4, inv4, inv8,
    luma_dc, norm4, residual4x4, residual4x4_ac, rows4, scale4x4,
};
use vstd::prelude::*;

verus! {

/// Twice the value at place `i` of basis function `k` of the four-point inverse transform.
pub open spec fn basis4(k: int, i: int) -> int {
    if k == 0 {
        2
    } else if k == 1 {
        seq![2int, 1, -1, -2][i]
    } else if k == 2 {
        seq![2int, -2, -2, 2][i]
    } else {
        seq![1int, -2, 2, -1][i]
    }
}

/// Sum over a row of coefficients, each times its basis function at column `j`.
pub open spec fn row_sum4(d: Seq<int>, k: int, j: int) -> int {
    d[4 * k] * basis4(0, j) + d[4 * k + 1] * basis4(1, j) + d[4 * k + 2] * basis4(2, j) + d[4 * k
        + 3] * basis4(3, j)
}

/// Products with small constants.
proof fn lemma_times(n: int, v: int)
    ensures
        n == 1 ==> n * v == 1 * v && v * n == 1 * v,
        n == -1 ==> n * v == -1 * v && v * n == -1 * v,
        n == 2 ==> n * v == 2 * v && v * n == 2 * v,
        n == -2 ==> n * v == -2 * v && v * n == -2 * v,
        n == 3 ==> n * v == 3 * v && v * n == 3 * v,
        n == -3 ==> n * v == -3 * v && v * n == -3 * v,
        n == 4 ==> n * v == 4 * v && v * n == 4 * v,
        n == -4 ==> n * v == -4 * v && v * n == -4 * v,
        n == 6 ==> n * v == 6 * v && v * n == 6 * v,
        n == -6 ==> n * v == -6 * v && v * n == -6 * v,
        n == 8 ==> n * v == 8 * v && v * n == 8 * v,
        n == -8 ==> n * v == -8 * v && v * n == -8 * v,
        n == 10 ==> n * v == 10 * v && v * n == 10 * v,
        n == -10 ==> n * v == -10 * v && v * n == -10 * v,
        n == 12 ==> n * v == 12 * v && v * n == 12 * v,
        n == -12 ==> n * v == -12 * v && v * n == -12 * v,
{
    if n == 1 {
        assert(n * v == 1 * v && v * n == 1 * v) by (nonlinear_arith)
            requires
                n == 1,
        ;
    }
    if n == -1 {
        assert(n * v == -1 * v && v * n == -1 * v) by (nonlinear_arith)
            requires
                n == -1,
        ;
    }
    if n == 2 {
        assert(n * v == 2 * v && v * n == 2 * v) by (nonlinear_arith)
            requires
                n == 2,
        ;
    }
    if n == -2 {
        assert(n * v == -2 * v && v * n == -2 * v) by (nonlinear_arith)
            requires
                n == -2,
        ;
    }
    if n == 3 {
        assert(n * v == 3 * v && v * n == 3 * v) by (nonlinear_arith)
            requires
                n == 3,
        ;
    }
    if n == -3 {
        assert(n * v == -3 * v && v * n == -3 * v) by (nonlinear_arith)
            requires
                n == -3,
        ;
    }
    if n == 4 {
        assert(n * v == 4 * v && v * n == 4 * v) by (nonlinear_arith)
            requires
                n == 4,
        ;
    }
    if n == -4 {
        assert(n * v == -4 * v && v * n == -4 * v) by (nonlinear_arith)
            requires
                n == -4,
        ;
    }
    if n == 6 {
        assert(n * v == 6 * v && v * n == 6 * v) by (nonlinear_arith)
            requires
                n == 6,
        ;
    }
    if n == -6 {
        assert(n * v == -6 * v && v * n == -6 * v) by (nonlinear_arith)
            requires
                n == -6,
        ;
    }
    if n == 8 {
        assert(n * v == 8 * v && v * n == 8 * v) by (nonlinear_arith)
            requires
                n == 8,
        ;
    }
    if n == -8 {
        assert(n * v == -8 * v && v * n == -8 * v) by (nonlinear_arith)
            requires
                n == -8,
        ;
    }
    if n == 10 {
        assert(n * v == 10 * v && v * n == 10 * v) by (nonlinear_arith)
            requires
                n == 10,
        ;
    }
    if n == -10 {
        assert(n * v == -10 * v && v * n == -10 * v) by (nonlinear_arith)
            requires
                n == -10,
        ;
    }
    if n == 12 {
        assert(n * v == 12 * v && v * n == 12 * v) by (nonlinear_arith)
            requires
                n == 12,
        ;
    }
    if n == -12 {
        assert(n * v == -12 * v && v * n == -12 * v) by (nonlinear_arith)
            requires
                n == -12,
        ;
    }
}

proof fn lemma_rows(d: Seq<int>, k: int, j: int)
    requires
        d.len() == 16,
        forall|n: int| 0 <= n < 16 ==> #[trigger] d[n] % 4 == 0,
        0 <= k < 4,
        0 <= j < 4,
    ensures
        2 * rows4(d)[4 * k + j] == row_sum4(d, k, j),
        rows4(d)[4 * k + j] % 2 == 0,
{
    let n = 4 * k + j;
    assert(n / 4 == k && n % 4 == j);
    assert(d[4 * k] % 4 == 0 && d[4 * k + 1] % 4 == 0 && d[4 * k + 2] % 4 == 0 && d[4 * k + 3] % 4
        == 0);
    lemma_times(basis4(0, j), d[4 * k]);
    lemma_times(basis4(1, j), d[4 * k + 1]);
    lemma_times(basis4(2, j), d[4 * k + 2]);
    lemma_times(basis4(3, j), d[4 * k + 3]);
    if j == 0 {
    } else if j == 1 {
    } else if j == 2 {
    } else {
    }
}

/// The inverse 4x4 transform is a sum of products of basis functions, one along the rows and one
/// along the columns, rounded once to sample units. (Coefficients that are multiples of four are
/// halved without loss.)
pub proof fn law_inverse_4x4(d: Seq<int>, i: int, j: int)
    requires
        d.len() == 16,
        forall|n: int| 0 <= n < 16 ==> #[trigger] d[n] % 4 == 0,
        0 <= i < 4,
        0 <= j < 4,
    ensures
        core4x4(d)[4 * i + j] == (basis4(0, i) * row_sum4(d, 0, j) + basis4(1, i) * row_sum4(d, 1, j)
            + basis4(2, i) * row_sum4(d, 2, j) + basis4(3, i) * row_sum4(d, 3, j) + 128) / 256,
{
    lemma_rows(d, 0, j);
    lemma_rows(d, 1, j);
    lemma_rows(d, 2, j);
    lemma_rows(d, 3, j);
    let n = 4 * i + j;
    assert(n / 4 == i && n % 4 == j);
    let f = rows4(d);
    assert(f[j] == f[4 * 0 + j] && f[4 + j] == f[4 * 1 + j]);
    assert(f[8 + j] == f[4 * 2 + j] && f[12 + j] == f[4 * 3 + j]);
    let v = inv4(f[j], f[4 + j], f[8 + j], f[12 + j], i);
    lemma_column(f[j], f[4 + j], f[8 + j], f[12 + j], i);
}

proof fn lemma_column(a: int, b: int, c: int, d: int, i: int)
    requires
        b % 2 == 0,
        d % 2 == 0,
        0 <= i < 4,
    ensures
        2 * inv4(a, b, c, d, i) == basis4(0, i) * a + basis4(1, i) * b + basis4(2, i) * c + basis4(
            3,
            i,
        ) * d,
        basis4(0, i) * (2 * a) == 2 * (basis4(0, i) * a),
        basis4(1, i) * (2 * b) == 2 * (basis4(1, i) * b),
        basis4(2, i) * (2 * c) == 2 * (basis4(2, i) * c),
        basis4(3, i) * (2 * d) == 2 * (basis4(3, i) * d),
{
    lemma_times(basis4(0, i), a);
    lemma_times(basis4(1, i), b);
    lemma_times(basis4(2, i), c);
    lemma_times(basis4(3, i), d);
    if i == 0 {
    } else if i == 1 {
    } else if i == 2 {
    } else {
    }
    assert(basis4(0, i) * (2 * a) == 2 * (basis4(0, i) * a)) by (nonlinear_arith);
    assert(basis4(1, i) * (2 * b) == 2 * (basis4(1, i) * b)) by (nonlinear_arith);
    assert(basis4(2, i) * (2 * c) == 2 * (basis4(2, i) * c)) by (nonlinear_arith);
    assert(basis4(3, i) * (2 * d) == 2 * (basis4(3, i) * d)) by (nonlinear_arith);
}

/// Scale of a level at a row and column of a 4x4 block, for the six residues of the parameter.
pub open spec fn step4(m: int, row: int, column: int) -> int {
    if row % 2 == 0 && column % 2 == 0 {
        seq![10int, 11, 13, 14, 16, 18][m]
    } else if row % 2 == 1 && column % 2 == 1 {
        seq![16int, 18, 20, 23, 25, 29][m]
    } else {
        seq![13int, 14, 16, 18, 20, 23][m]
    }
}

/// A level is scaled by its weight and by the step at its place; six more of the parameter double
/// it. The unit is 1/16 of the weight.
pub proof fn law_levels_are_scaled(c: Seq<int>, qp: int, w: Seq<int>, row: int, column: int)
    requires
        0 <= qp,
        0 <= row < 4,
        0 <= column < 4,
    ensures
        ({
            let k = 4 * row + column;
            let v = c[k] * (w[k] * step4(qp % 6, row, column));
            scale4x4(c, qp, w)[k] == if qp >= 24 {
                v * p2(qp / 6 - 4)
            } else {
                (v + p2(3 - qp / 6)) / p2(4 - qp / 6)
            }
        }),
        scale4x4(c, qp + 24, w)[4 * row + column] == c[4 * row + column] * (w[4 * row + column]
            * step4(qp % 6, row, column)) * p2(qp / 6),
{
    let k = 4 * row + column;
    assert(k / 4 == row && k % 4 == column);
    assert((qp + 24) % 6 == qp % 6 && (qp + 24) / 6 == qp / 6 + 4);
    assert(norm4(qp % 6, k) == step4(qp % 6, row, column));
}

/// The residual of a 4x4 block is the inverse transform of its scaled levels.
pub proof fn law_residual_4x4(c: Seq<int>, qp: int, w: Seq<int>)
    ensures
        residual4x4(c, qp, w) == core4x4(scale4x4(c, qp, w)),
        residual4x4_ac(c, qp, w) == core4x4(scale4x4(c, qp, w).update(0, c[0])),
{
    reveal(residual4x4);
    reveal(residual4x4_ac);
    assert(crate::transform::scale4x4_ac(c, qp, w) =~= scale4x4(c, qp, w).update(0, c[0]));
}

/// Eight times the value at place `i` of basis function `k` of the eight-point inverse transform.
pub open spec fn basis8(k: int, i: int) -> int {
    if k == 0 {
        8
    } else if k == 1 {
        seq![12int, 10, 6, 3, -3, -6, -10, -12][i]
    } else if k == 2 {
        seq![8int, 4, -4, -8, -8, -4, 4, 8][i]
    } else if k == 3 {
        seq![10int, -3, -12, -6, 6, 12, 3, -10][i]
    } else if k == 4 {
        seq![8int, -8, -8, 8, 8, -8, -8, 8][i]
    } else if k == 5 {
        seq![6int, -12, 3, 10, -10, -3, 12, -6][i]
    } else if k == 6 {
        seq![4int, -8, 8, -4, -4, 8, -8, 4][i]
    } else {
        seq![3int, -6, 10, -12, 12, -10, 6, -3][i]
    }
}

/// Sum of eight coefficients, each times its basis function at place `i`.
pub open spec fn sum8(d: Seq<int>, i: int) -> int {
    d[0] * basis8(0, i) + d[1] * basis8(1, i) + d[2] * basis8(2, i) + d[3] * basis8(3, i) + d[4]
        * basis8(4, i) + d[5] * basis8(5, i) + d[6] * basis8(6, i) + d[7] * basis8(7, i)
}

/// The eight-point inverse transform is a sum of basis functions.
pub proof fn law_inverse_8(d: Seq<int>, i: int)
    requires
        d.len() == 8,
        forall|n: int| 0 <= n < 8 ==> #[trigger] d[n] % 8 == 0,
        0 <= i < 8,
    ensures
        8 * inv8(d, i) == sum8(d, i),
{
    assert(d[0] % 8 == 0 && d[1] % 8 == 0 && d[2] % 8 == 0 && d[3] % 8 == 0);
    assert(d[4] % 8 == 0 && d[5] % 8 == 0 && d[6] % 8 == 0 && d[7] % 8 == 0);
    let (e0, e1, e2, e3) = (d[0] / 8, d[1] / 8, d[2] / 8, d[3] / 8);
    let (e4, e5, e6, e7) = (d[4] / 8, d[5] / 8, d[6] / 8, d[7] / 8);
    lemma_inv8_exact(d, e0, e1, e2, e3, e4, e5, e6, e7, i);
    lemma_sum8(d, i);
}

proof fn lemma_sum8(d: Seq<int>, i: int)
    requires
        d.len() == 8,
        0 <= i < 8,
    ensures
        i == 0 ==> sum8(d, i) == 8 * d[0] + 12 * d[1] + 8 * d[2] + 10 * d[3] + 8 * d[4] + 6 * d[5]
            + 4 * d[6] + 3 * d[7],
        i == 1 ==> sum8(d, i) == 8 * d[0] + 10 * d[1] + 4 * d[2] - 3 * d[3] - 8 * d[4] - 12 * d[5]
            - 8 * d[6] - 6 * d[7],
        i == 2 ==> sum8(d, i) == 8 * d[0] + 6 * d[1] - 4 * d[2] - 12 * d[3] - 8 * d[4] + 3 * d[5]
            + 8 * d[6] + 10 * d[7],
        i == 3 ==> sum8(d, i) == 8 * d[0] + 3 * d[1] - 8 * d[2] - 6 * d[3] + 8 * d[4] + 10 * d[5]
            - 4 * d[6] - 12 * d[7],
        i == 4 ==> sum8(d, i) == 8 * d[0] - 3 * d[1] - 8 * d[2] + 6 * d[3] + 8 * d[4] - 10 * d[5]
            - 4 * d[6] + 12 * d[7],
        i == 5 ==> sum8(d, i) == 8 * d[0] - 6 * d[1] - 4 * d[2] + 12 * d[3] - 8 * d[4] - 3 * d[5]
            + 8 * d[6] - 10 * d[7],
        i == 6 ==> sum8(d, i) == 8 * d[0] - 10 * d[1] + 4 * d[2] + 3 * d[3] - 8 * d[4] + 12 * d[5]
            - 8 * d[6] + 6 * d[7],
        i == 7 ==> sum8(d, i) == 8 * d[0] - 12 * d[1] + 8 * d[2] - 10 * d[3] + 8 * d[4] - 6 * d[5]
            + 4 * d[6] - 3 * d[7],
{
    lemma_times(basis8(0, i), d[0]);
    lemma_times(basis8(1, i), d[1]);
    lemma_times(basis8(2, i), d[2]);
    lemma_times(basis8(3, i), d[3]);
    lemma_times(basis8(4, i), d[4]);
    lemma_times(basis8(5, i), d[5]);
    lemma_times(basis8(6, i), d[6]);
    lemma_times(basis8(7, i), d[7]);
}

proof fn lemma_inv8_exact(
    d: Seq<int>,
    e0: int,
    e1: int,
    e2: int,
    e3: int,
    e4: int,
    e5: int,
    e6: int,
    e7: int,
    i: int,
)
    requires
        d.len() == 8,
        d[0] == 8 * e0 && d[1] == 8 * e1 && d[2] == 8 * e2 && d[3] == 8 * e3,
        d[4] == 8 * e4 && d[5] == 8 * e5 && d[6] == 8 * e6 && d[7] == 8 * e7,
        0 <= i < 8,
    ensures
        i == 0 ==> inv8(d, i) == 8 * e0 + 12 * e1 + 8 * e2 + 10 * e3 + 8 * e4 + 6 * e5 + 4 * e6 + 3
            * e7,
        i == 1 ==> inv8(d, i) == 8 * e0 + 10 * e1 + 4 * e2 - 3 * e3 - 8 * e4 - 12 * e5 - 8 * e6 - 6
            * e7,
        i == 2 ==> inv8(d, i) == 8 * e0 + 6 * e1 - 4 * e2 - 12 * e3 - 8 * e4 + 3 * e5 + 8 * e6 + 10
            * e7,
        i == 3 ==> inv8(d, i) == 8 * e0 + 3 * e1 - 8 * e2 - 6 * e3 + 8 * e4 + 10 * e5 - 4 * e6 - 12
            * e7,
        i == 4 ==> inv8(d, i) == 8 * e0 - 3 * e1 - 8 * e2 + 6 * e3 + 8 * e4 - 10 * e5 - 4 * e6 + 12
            * e7,
        i == 5 ==> inv8(d, i) == 8 * e0 - 6 * e1 - 4 * e2 + 12 * e3 - 8 * e4 - 3 * e5 + 8 * e6 - 10
            * e7,
        i == 6 ==> inv8(d, i) == 8 * e0 - 10 * e1 + 4 * e2 + 3 * e3 - 8 * e4 + 12 * e5 - 8 * e6 + 6
            * e7,
        i == 7 ==> inv8(d, i) == 8 * e0 - 12 * e1 + 8 * e2 - 10 * e3 + 8 * e4 - 6 * e5 + 4 * e6 - 3
            * e7,
{
    let a1 = -d[3] + d[5] - d[7] - d[7] / 2;
    let a3 = d[1] + d[7] - d[3] - d[3] / 2;
    let a5 = -d[1] + d[7] + d[5] + d[5] / 2;
    let a7 = d[3] + d[5] + d[1] + d[1] / 2;
    assert(a1 == 4 * (-2 * e3 + 2 * e5 - 3 * e7));
    assert(a3 == 4 * (2 * e1 + 2 * e7 - 3 * e3));
    assert(a5 == 4 * (-2 * e1 + 2 * e7 + 3 * e5));
    assert(a7 == 4 * (2 * e3 + 2 * e5 + 3 * e1));
    assert(a1 / 4 == -2 * e3 + 2 * e5 - 3 * e7);
    assert(a3 / 4 == 2 * e1 + 2 * e7 - 3 * e3);
    assert(a5 / 4 == -2 * e1 + 2 * e7 + 3 * e5);
    assert(a7 / 4 == 2 * e3 + 2 * e5 + 3 * e1);
    assert(d[2] / 2 == 4 * e2 && d[6] / 2 == 4 * e6);
}

/// The inverse 8x8 transform goes along the rows, then along the columns, and rounds once to sample
/// units.
pub proof fn law_inverse_8x8(d: Seq<int>, e: Seq<int>, i: int, j: int)
    requires
        d.len() == 64,
        e.len() == 8,
        0 <= i < 8,
        0 <= j < 8,
        forall|k: int|
            0 <= k < 8 ==> #[trigger] e[k] == inv8(Seq::new(8, |l: int| d[8 * k + l]), j),
    ensures
        core8x8(d)[8 * i + j] == (inv8(e, i) + 32) / 64,
{
    let n = 8 * i + j;
    assert(n / 8 == i && n % 8 == j);
    let f = crate::transform::rows8(d);
    let c = crate::transform::col8(f, j);
    assert forall|k: int| 0 <= k < 8 implies #[trigger] c[k] == e[k] by {
        let m = 8 * k + j;
        assert(m / 8 == k && m % 8 == j);
        assert(crate::transform::row8(d, k) =~= Seq::new(8, |l: int| d[8 * k + l]));
    }
    assert(c =~= e);
}

/// Sign of entry `(i, k)` of the four-point Hadamard matrix.
pub open spec fn sign4(i: int, k: int) -> int {
    if i == 0 {
        1
    } else if i == 1 {
        seq![1int, 1, -1, -1][k]
    } else if i == 2 {
        seq![1int, -1, -1, 1][k]
    } else {
        seq![1int, -1, 1, -1][k]
    }
}

/// Sum over a row of a 4x4 matrix with the signs of Hadamard column `j`.
pub open spec fn signed_row4(c: Seq<int>, k: int, j: int) -> int {
    c[4 * k] * sign4(j, 0) + c[4 * k + 1] * sign4(j, 1) + c[4 * k + 2] * sign4(j, 2) + c[4 * k + 3]
        * sign4(j, 3)
}

/// The DC coefficients of an Intra_16x16 macroblock are the Hadamard transform of the matrix of DC
/// levels in both directions, scaled as levels in the corner of a block are, in units four times
/// as fine.
pub proof fn law_luma_dc(c: Seq<int>, qp: int, w: Seq<int>, i: int, j: int)
    requires
        c.len() == 16,
        0 <= qp,
        0 <= i < 4,
        0 <= j < 4,
    ensures
        ({
            let f = sign4(i, 0) * signed_row4(c, 0, j) + sign4(i, 1) * signed_row4(c, 1, j)
                + sign4(i, 2) * signed_row4(c, 2, j) + sign4(i, 3) * signed_row4(c, 3, j);
            let v = f * (w[0] * step4(qp % 6, 0, 0));
            luma_dc(c, qp, w)[4 * i + j] == if qp >= 36 {
                v * p2(qp / 6 - 6)
            } else {
                (v + p2(5 - qp / 6)) / p2(6 - qp / 6)
            }
        }),
{
    reveal(luma_dc);
    let n = 4 * i + j;
    assert(n / 4 == i && n % 4 == j);
    let f = crate::transform::had_rows4(c);
    lemma_had_row(c, 0, j);
    lemma_had_row(c, 1, j);
    lemma_had_row(c, 2, j);
    lemma_had_row(c, 3, j);
    assert(f[j] == f[4 * 0 + j] && f[4 + j] == f[4 * 1 + j]);
    assert(f[8 + j] == f[4 * 2 + j] && f[12 + j] == f[4 * 3 + j]);
    lemma_had_column(f[j], f[4 + j], f[8 + j], f[12 + j], i);
    assert(norm4(qp % 6, 0) == step4(qp % 6, 0, 0));
}

proof fn lemma_had_row(c: Seq<int>, k: int, j: int)
    requires
        c.len() == 16,
        0 <= k < 4,
        0 <= j < 4,
    ensures
        crate::transform::had_rows4(c)[4 * k + j] == signed_row4(c, k, j),
{
    let n = 4 * k + j;
    assert(n / 4 == k && n % 4 == j);
    lemma_times(sign4(j, 0), c[4 * k]);
    lemma_times(sign4(j, 1), c[4 * k + 1]);
    lemma_times(sign4(j, 2), c[4 * k + 2]);
    lemma_times(sign4(j, 3), c[4 * k + 3]);
    if j == 0 {
    } else if j == 1 {
    } else if j == 2 {
    } else {
    }
}

proof fn lemma_had_column(a: int, b: int, c: int, d: int, i: int)
    requires
        0 <= i < 4,
    ensures
        had4(a, b, c, d, i) == sign4(i, 0) * a + sign4(i, 1) * b + sign4(i, 2) * c + sign4(i, 3) * d,
{
    lemma_times(sign4(i, 0), a);
    lemma_times(sign4(i, 1), b);
    lemma_times(sign4(i, 2), c);
    lemma_times(sign4(i, 3), d);
    if i == 0 {
    } else if i == 1 {
    } else if i == 2 {
    } else {
    }
}

pub proof fn lemma_mosaic16(blocks: Seq<Seq<int>>, x: int, y: int)
    requires
        0 <= x < 16,
        0 <= y < 16,
    ensures
        mosaic(blocks, 16, 256)[16 * y + x] == blocks[z_order(x / 4, y / 4)][4 * (y % 4) + x % 4],
        0 <= z_order(x / 4, y / 4) < 16,
{
    reveal(mosaic);
    let k = 16 * y + x;
    assert(k % 16 == x && k / 16 == y);
}

/// In an Intra_16x16 plane without AC levels, the residual of the samples of a 4x4 block is that of
/// the entry of the DC matrix in the row and column of the block: what the rows of the matrix have
/// in common, the rows of the residual have in common.
pub proof fn law_dc_is_placed_by_row_and_column(
    c: PlaneCtx,
    mode_idx: u8,
    dc: Seq<i32>,
    acs: Seq<[i32; 16]>,
    w: Seq<int>,
    x: int,
    y: int,
)
    requires
        !c.bypass,
        0 <= c.qp,
        0 <= x < 16,
        0 <= y < 16,
    ensures
        ({
            let m = luma_dc(ints(unscan4(dc, c.field_scan)), c.qp as int, w);
            residual_16x16(c, mode_idx, dc, acs, false, w)[16 * y + x] == (m[4 * (y / 4) + x / 4]
                + 32) / 64
        }),
{
    reveal(residual_16x16);
    let blocks = crate::recon_intra::blocks_of_16x16(c, dc, acs, false, w);
    lemma_mosaic16(blocks, x, y);
    let z = z_order(x / 4, y / 4);
    assert(LUMA_4X4_XY[z].0 == 4 * (x / 4) && LUMA_4X4_XY[z].1 == 4 * (y / 4));
    let m = dc_of_16x16(c, dc, w);
    let v = m[4 * (y / 4) + x / 4];
    lemma_dc_only(v, c.qp as int, w, 4 * (y % 4) + x % 4);
}

proof fn lemma_dc_only(v: int, qp: int, w: Seq<int>, k: int)
    requires
        0 <= qp,
        0 <= k < 16,
    ensures
        residual4x4_ac(ints(zeros(16)).update(0, v), qp, w)[k] == (v + 32) / 64,
{
    reveal(residual4x4_ac);
    let c = ints(zeros(16)).update(0, v);
    let d = crate::transform::scale4x4_ac(c, qp, w);
    assert forall|n: int| 1 <= n < 16 implies #[trigger] d[n] == 0 by {
        crate::transform::lemma_zero_scaled(w[n] * norm4(qp % 6, n), qp, 4);
    }
    assert(d[0] == v);
    let f = rows4(d);
    let j = k % 4;
    lemma_first_row(d, v, j);
    lemma_zero_rows(d, 1, j);
    lemma_zero_rows(d, 2, j);
    lemma_zero_rows(d, 3, j);
    assert(f[4 * 1 + j] == 0 && f[4 * 2 + j] == 0 && f[4 * 3 + j] == 0);
    assert(f[4 + j] == 0 && f[8 + j] == 0 && f[12 + j] == 0 && f[j] == v);
}

proof fn lemma_first_row(d: Seq<int>, v: int, j: int)
    requires
        d.len() == 16,
        d[0] == v,
        d[1] == 0 && d[2] == 0 && d[3] == 0,
        0 <= j < 4,
    ensures
        rows4(d)[j] == v,
{
}

proof fn lemma_zero_rows(d: Seq<int>, k: int, j: int)
    requires
        d.len() == 16,
        forall|n: int| 1 <= n < 16 ==> #[trigger] d[n] == 0,
        1 <= k < 4,
        0 <= j < 4,
    ensures
        rows4(d)[4 * k + j] == 0,
{
    let n = 4 * k + j;
    assert(n / 4 == k && n % 4 == j);
    assert(d[4 * k] == 0 && d[4 * k + 1] == 0 && d[4 * k + 2] == 0 && d[4 * k + 3] == 0);
}

/// The AC levels of a 4x4 block of an Intra_16x16 plane are those of the block with its number,
/// counted four to a quarter of the macroblock.
pub proof fn law_16x16_blocks_are_placed(
    c: PlaneCtx,
    mode_idx: u8,
    dc: Seq<i32>,
    acs: Seq<[i32; 16]>,
    w: Seq<int>,
    x: int,
    y: int,
)
    requires
        !c.bypass,
        0 <= x < 16,
        0 <= y < 16,
        acs.len() == 16,
    ensures
        ({
            let m = luma_dc(ints(unscan4(dc, c.field_scan)), c.qp as int, w);
            let z = z_order(x / 4, y / 4);
            let levels = Seq::new(
                16,
                |p: int|
                    if p == 0 {
                        m[4 * (y / 4) + x / 4]
                    } else {
                        acs[z]@[crate::scan::scan_pos4(c.field_scan, p) - 1] as int
                    },
            );
            residual_16x16(c, mode_idx, dc, acs, true, w)[16 * y + x] == residual4x4_ac(
                levels,
                c.qp as int,
                w,
            )[4 * (y % 4) + x % 4]
        }),
{
    reveal(residual_16x16);
    let blocks = crate::recon_intra::blocks_of_16x16(c, dc, acs, true, w);
    lemma_mosaic16(blocks, x, y);
    let z = z_order(x / 4, y / 4);
    assert(LUMA_4X4_XY[z].0 == 4 * (x / 4) && LUMA_4X4_XY[z].1 == 4 * (y / 4));
    let m = dc_of_16x16(c, dc, w);
    let levels = Seq::new(
        16,
        |p: int|
            if p == 0 {
                m[4 * (y / 4) + x / 4]
            } else {
                acs[z]@[crate::scan::scan_pos4(c.field_scan, p) - 1] as int
            },
    );
    assert(ac_block(c, acs, true, z).update(0, m[4 * (y / 4) + x / 4]) =~= levels);
}

/// The residual of an inter plane is made of its blocks, 4x4 blocks four to a quarter, 8x8 blocks
/// one to a quarter.
pub proof fn law_inter_blocks_are_placed(
    c: PlaneCtx,
    blocks: Seq<[i32; 16]>,
    cbp: int,
    w4: Seq<int>,
    w8: Seq<int>,
    x: int,
    y: int,
)
    requires
        0 <= x < 16,
        0 <= y < 16,
    ensures
        inter_residual(c, false, blocks, cbp, w4, w8)[16 * y + x] == inter_block4(
            c,
            levels4(blocks, cbp, z_order(x / 4, y / 4)),
            w4,
        )[4 * (y % 4) + x % 4],
        inter_residual(c, true, blocks, cbp, w4, w8)[16 * y + x] == inter_block8(
            c,
            levels8(blocks, cbp, 2 * (y / 8) + x / 8),
            w8,
        )[8 * (y % 8) + x % 8],
{
    reveal(inter_residual);
    reveal(mosaic8);
    let b4 = Seq::new(16, |b: int| inter_block4(c, levels4(blocks, cbp, b), w4));
    lemma_mosaic16(b4, x, y);
    let k = 16 * y + x;
    assert(k % 16 == x && k / 16 == y);
}

/// Levels are coded for the quarters of a macroblock whose bit is set, four lists to a quarter, one
/// quarter after the other: the lists of a quarter follow those of the coded quarters before it.
pub proof fn law_levels_of_coded_quarters(blocks: Seq<[i32; 16]>, cbp: int, b: int, k: int)
    requires
        0 <= cbp < 16,
        0 <= b < 16,
        0 <= k < 16,
    ensures
        ({
            let bit = seq![cbp % 2, (cbp / 2) % 2, (cbp / 4) % 2, (cbp / 8) % 2];
            let before = seq![0, bit[0], bit[0] + bit[1], bit[0] + bit[1] + bit[2]];
            let at = 4 * before[b / 4] + b % 4;
            let level = if bit[b / 4] == 1 && at < blocks.len() {
                blocks[at]@[k] as int
            } else {
                0
            };
            &&& levels4(blocks, cbp, b)[k] == level
            &&& levels8(blocks, cbp, b / 4)[16 * (b % 4) + k] == level
        }),
{
    reveal_with_fuel(p2, 5);
    reveal_with_fuel(coded_before, 5);
    let q = b / 4;
    let n = 16 * (b % 4) + k;
    assert(n / 16 == b % 4 && n % 16 == k);
    if q == 0 {
    } else if q == 1 {
    } else if q == 2 {
    } else {
    }
}

/// The chroma DC coefficients in 4:2:0 are sums and differences of the four levels along rows and
/// columns, scaled in units twice as fine as levels are.
pub proof fn law_chroma_dc_420(c: Seq<int>, qp: int, w: Seq<int>, i: int, j: int)
    requires
        c.len() == 4,
        0 <= qp,
        0 <= i < 2,
        0 <= j < 2,
    ensures
        ({
            let f = c[0] + (1 - 2 * j) * c[1] + (1 - 2 * i) * c[2] + (1 - 2 * i) * (1 - 2 * j) * c[3];
            chroma_dc_420(c, qp, w)[2 * i + j] == (f * (w[0] * step4(qp % 6, 0, 0)) * p2(qp / 6))
                / 32
        }),
{
    reveal(chroma_dc_420);
    lemma_times(1 - 2 * j, c[1]);
    lemma_times(1 - 2 * i, c[2]);
    lemma_times(1 - 2 * i, 1 - 2 * j);
    lemma_times((1 - 2 * i) * (1 - 2 * j), c[3]);
    if i == 0 && j == 0 {
    } else if i == 0 {
    } else if j == 0 {
    } else {
    }
    assert(norm4(qp % 6, 0) == step4(qp % 6, 0, 0));
}

/// The chroma DC coefficients in 4:2:2: the eight levels fill a matrix of four rows in their own
/// order; it is transformed along its columns as luma DC is, and along its rows, and scaled as
/// luma DC is, three steps coarser.
pub proof fn law_chroma_dc_422(c: Seq<int>, qp: int, w: Seq<int>, i: int, j: int)
    requires
        c.len() == 8,
        0 <= qp,
        0 <= i < 4,
        0 <= j < 2,
    ensures
        ({
            let s = 1 - 2 * j;
            let f = sign4(i, 0) * (c[0] + s * c[2]) + sign4(i, 1) * (c[1] + s * c[5]) + sign4(i, 2)
                * (c[3] + s * c[6]) + sign4(i, 3) * (c[4] + s * c[7]);
            let v = f * (w[0] * step4((qp + 3) % 6, 0, 0));
            chroma_dc_422(c, qp, w)[2 * i + j] == if qp + 3 >= 36 {
                v * p2((qp + 3) / 6 - 6)
            } else {
                (v + p2(5 - (qp + 3) / 6)) / p2(6 - (qp + 3) / 6)
            }
        }),
{
    reveal(chroma_dc_422);
    let m = dc422_matrix(c);
    assert(m[0] == c[0] && m[1] == c[2] && m[2] == c[1] && m[3] == c[5]);
    assert(m[4] == c[3] && m[5] == c[6] && m[6] == c[4] && m[7] == c[7]);
    let n = 2 * i + j;
    assert(n / 2 == i && n % 2 == j);
    lemma_times(1 - 2 * j, c[2]);
    lemma_times(1 - 2 * j, c[5]);
    lemma_times(1 - 2 * j, c[6]);
    lemma_times(1 - 2 * j, c[7]);
    if j == 0 {
        lemma_had_column(m[0] + m[1], m[2] + m[3], m[4] + m[5], m[6] + m[7], i);
    } else {
        lemma_had_column(m[0] - m[1], m[2] - m[3], m[4] - m[5], m[6] - m[7], i);
    }
    assert(norm4((qp + 3) % 6, 0) == step4((qp + 3) % 6, 0, 0));
}

/// In a chroma plane without AC levels, the residual of the samples of a 4x4 block is that of the
/// DC coefficient in its row and column of blocks.
pub proof fn law_chroma_dc_is_placed(
    c: PlaneCtx,
    h: int,
    cbp: int,
    dc: Seq<i32>,
    acs: Seq<[i32; 16]>,
    w: Seq<int>,
    x: int,
    y: int,
)
    requires
        h == 8 || h == 16,
        !c.bypass,
        0 <= c.qp,
        cbp == 1,
        0 <= x < 8,
        0 <= y < h,
        dc.len() == h / 2,
    ensures
        ({
            let levels = ints(dc);
            let m = if h == 8 {
                chroma_dc_420(levels, c.qp as int, w)
            } else {
                chroma_dc_422(levels, c.qp as int, w)
            };
            chroma_residual(c, h, cbp, dc, acs, w)[8 * y + x] == (m[2 * (y / 4) + x / 4] + 32) / 64
        }),
{
    reveal(chroma_residual);
    reveal(mosaic);
    let k = 8 * y + x;
    assert(k % 8 == x && k / 8 == y);
    assert(crate::recon_intra::dc_list(dc, true, h / 2) =~= ints(dc));
    let b = 2 * (y / 4) + x / 4;
    let v = chroma_dcs_of(c, h, true, dc, w)[b];
    lemma_dc_only(v, c.qp as int, w, 4 * (y % 4) + x % 4);
}

/// A chroma block of a macroblock that codes no chroma levels has no residual.
pub proof fn law_chroma_without_levels(
    c: PlaneCtx,
    h: int,
    dc: Seq<i32>,
    acs: Seq<[i32; 16]>,
    w: Seq<int>,
    x: int,
    y: int,
)
    requires
        h == 8 || h == 16,
        !c.bypass,
        0 <= c.qp,
        0 <= x < 8,
        0 <= y < h,
    ensures
        chroma_residual(c, h, 0, dc, acs, w)[8 * y + x] == 0,
{
    reveal(chroma_residual);
    reveal(mosaic);
    let k = 8 * y + x;
    assert(k % 8 == x && k / 8 == y);
    lemma_dc_only(0, c.qp as int, w, 4 * (y % 4) + x % 4);
}

/// Chroma quantisation follows luma up to 29, then lags behind, to 39 at 51; the offset is added
/// before, and the sum limited.
pub proof fn law_chroma_qp(qp_y: int, offset: int, bd: int)
    requires
        0 <= bd,
    ensures
        ({
            let i = if qp_y + offset < -bd {
                -bd
            } else if qp_y + offset > 51 {
                51
            } else {
                qp_y + offset
            };
            chroma_qp(qp_y, offset, bd) == if i < 30 {
                i
            } else {
                seq![
                    29int,
                    30,
                    31,
                    32,
                    32,
                    33,
                    34,
                    34,
                    35,
                    35,
                    36,
                    36,
                    37,
                    37,
                    37,
                    38,
                    38,
                    38,
                    39,
                    39,
                    39,
                    39,
                ][i - 30]
            }
        }),
{
}

/// Lossless residuals of blocks predicted along rows or columns accumulate: each sample is the one
/// before it in that direction plus its coded difference.
pub proof fn law_differences_accumulate(r: Seq<int>, w: int, hor: bool, x: int, y: int)
    requires
        w == 4 || w == 8 || w == 16,
        0 <= x < w,
        0 <= y < 16,
        y * w + x < r.len(),
    ensures
        ({
            let d = dpcm(r, w, hor);
            let k = y * w + x;
            &&& d.len() == r.len()
            &&& hor && x == 0 ==> d[k] == r[k]
            &&& !hor && y == 0 ==> d[k] == r[k]
            &&& hor && x > 0 ==> d[k] == d[k - 1] + r[k]
            &&& !hor && y > 0 ==> d[k] == d[k - w] + r[k]
        }),
{
    reveal(dpcm);
    let k = y * w + x;
    if w == 4 {
        assert(k % 4 == x && k / 4 == y);
    } else if w == 8 {
        assert(k % 8 == x && k / 8 == y);
    } else {
        assert(k % 16 == x && k / 16 == y);
    }
    crate::transform::lemma_run_length(k, w, 16, hor);
}

/// Zig-zag order starts in the corner, goes right first, and then moves along diagonals, from one
/// position to a neighbouring one.
pub proof fn law_zigzag(k: int)
    requires
        0 <= k < 63,
    ensures
        order8(false, 0) == 0,
        order8(false, 1) == 1,
        ({
            let (a, b) = (order8(false, k), order8(false, k + 1));
            let (r, c) = (b / 8 - a / 8, b % 8 - a % 8);
            &&& -1 <= r <= 1 && -1 <= c <= 1
            &&& a / 8 + a % 8 <= b / 8 + b % 8
        }),
        k < 15 ==> ({
            let (a, b) = (order4(false, k), order4(false, k + 1));
            let (r, c) = (b / 4 - a / 4, b % 4 - a % 4);
            &&& order4(false, 0) == 0
            &&& order4(false, 1) == 1
            &&& -1 <= r <= 1 && -1 <= c <= 1
            &&& a / 4 + a % 4 <= b / 4 + b % 4
        }),
{
}

/// Field scan order of 4x4 blocks goes down the columns first.
pub proof fn law_field_scan_4x4(k: int)
    requires
        0 <= k < 16,
    ensures
        order4(true, k) == seq![0int, 4, 1, 8, 12, 5, 9, 13, 2, 6, 10, 14, 3, 7, 11, 15][k],
{
}

/// Every scan goes outwards: a position comes before the one to its right and the one below it.
pub proof fn law_scans_go_outwards(field: bool, row: int, column: int)
    requires
        0 <= row < 8,
        0 <= column < 8,
    ensures
        column < 7 ==> scan_pos8(field, 8 * row + column) < scan_pos8(field, 8 * row + column + 1),
        row < 7 ==> scan_pos8(field, 8 * row + column) < scan_pos8(field, 8 * row + column + 8),
        row < 4 && column < 3 ==> scan_pos4(field, 4 * row + column) < scan_pos4(
            field,
            4 * row + column + 1,
        ),
        row < 3 && column < 4 ==> scan_pos4(field, 4 * row + column) < scan_pos4(
            field,
            4 * row + column + 4,
        ),
{
}

/// Field scan order of 8x8 blocks goes down the columns first.
pub proof fn law_field_scan_8x8(k: int)
    requires
        0 <= k < 64,
    ensures
        order8(true, k) == seq![
            0int, 8, 16, 1, 9, 24, 32, 17,
            2, 25, 40, 48, 56, 33, 10, 3,
            18, 41, 49, 57, 26, 11, 4, 19,
            34, 42, 50, 58, 27, 12, 5, 20,
            35, 43, 51, 59, 28, 13, 6, 21,
            36, 44, 52, 60, 29, 14, 22, 37,
            45, 53, 61, 30, 7, 15, 38, 46,
            54, 62, 23, 31, 39, 47, 55, 63,
        ][k],
{
}

} // verus!
