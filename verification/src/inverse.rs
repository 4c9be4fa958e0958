//! Inversion of the correlation matrix.
//!
//! The inverse is found by Gauss-Jordan elimination in fixed-point
//! arithmetic and then certified: the candidate is accepted only when
//! its product with the input matrix, in both orders, is within `TOL`
//! of the identity in every cell.  The whole pipeline is mirrored by
//! the spec function `gauss_jordan_spec`, so the contracts say
//! exactly when inversion succeeds (`gj_certifies`) and which matrix
//! it returns.  A matrix whose elimination hits a zero pivot, grows
//! past the `SAFE` magnitude cap, or fails the residual check is
//! reported singular.

use vstd::prelude::*;
use crate::fixed::{SCALE, SAFE, TOL, tdiv_any, sdiv, abs_i};
use crate::sums::{cell, wf_data, col_count};
use crate::matrix::{MatrixKind, MatrixError, calculate_matrix, corr_cell, lemma_correlation_range};

verus! {

/// The correlation matrix of the data, as a sequence of rows.
pub open spec fn corr_matrix(d: Seq<Seq<i128>>, c: int) -> Seq<Seq<i128>> {
    Seq::new(c as nat, |i: int| Seq::new(c as nat, |j: int| corr_cell(d, i, j) as i128))
}

/// The inverse of the correlation matrix, with the variable ordering.
#[derive(Debug)]
pub struct InverseCorrelationMatrix {
    pub inverse_correlations: Vec<Vec<i128>>,
    pub variable_order: Vec<String>,
}

/// Magnitude cap on stored elimination entries.
pub const BOUND: i128 = 0x1000000000000000000000000000000;

/// `a` is an `r x c` matrix.
pub open spec fn sq_shape(a: Seq<Seq<i128>>, r: int, c: int) -> bool {
    &&& a.len() == r
    &&& forall|p: int| 0 <= p < r ==> (#[trigger] a[p]).len() == c
}

/// Every entry of `a` has magnitude at most `b`.
pub open spec fn entries_within(a: Seq<Seq<i128>>, b: int) -> bool {
    forall|p: int, q: int|
        0 <= p < a.len() && 0 <= q < a[p].len() ==> -b <= #[trigger] a[p][q] <= b
}

/// Every entry of the row has magnitude at most `b`.
pub open spec fn row_within(row: Seq<i128>, b: int) -> bool {
    forall|q: int| 0 <= q < row.len() ==> -b <= #[trigger] row[q] <= b
}

/// Fixed-point dot product of row `i` of `m` with column `j` of `a`,
/// over the first `k` terms: each product is rescaled by `SCALE`.
pub open spec fn dot_scaled_pfx(
    m: Seq<Seq<i128>>,
    a: Seq<Seq<i128>>,
    i: int,
    j: int,
    k: int,
) -> int
    decreases k,
{
    if k <= 0 {
        0
    } else {
        dot_scaled_pfx(m, a, i, j, k - 1) + tdiv_any(m[i][k - 1] * a[k - 1][j], SCALE as int)
    }
}

/// The identity cell: `SCALE` on the diagonal, zero elsewhere.
pub open spec fn ident_cell(i: int, j: int) -> int {
    if i == j {
        SCALE as int
    } else {
        0
    }
}

/// `a` is an acceptable approximate inverse of the `c x c` matrix `m`:
/// right shape, entries within `SAFE`, and every cell of `m * a` and
/// of `a * m` within `TOL` of the identity.
pub open spec fn is_approx_inverse(m: Seq<Seq<i128>>, a: Seq<Seq<i128>>, c: int) -> bool {
    &&& sq_shape(a, c, c)
    &&& entries_within(a, SAFE as int)
    &&& forall|i: int, j: int|
        0 <= i < c && 0 <= j < c ==> abs_i(
            #[trigger] dot_scaled_pfx(m, a, i, j, c) - ident_cell(i, j),
        ) <= TOL
    &&& forall|i: int, j: int|
        0 <= i < c && 0 <= j < c ==> abs_i(
            #[trigger] dot_scaled_pfx(a, m, i, j, c) - ident_cell(i, j),
        ) <= TOL
}

/// The row of a present option, or the empty row.
pub open spec fn some_row(o: Option<Seq<i128>>) -> Seq<i128> {
    match o {
        Option::Some(v) => v,
        Option::None => Seq::empty(),
    }
}

/// One entry of a row divided by the pivot, rescaled by `SCALE`.
pub open spec fn scaled_elem(e: i128, piv: int) -> i128 {
    (tdiv_any(e * SCALE, piv)) as i128
}

/// One entry of the target row after subtracting `f / SCALE` times
/// the normalized entry.
pub open spec fn elim_elem(t: i128, nq: i128, f: int) -> i128 {
    (t - tdiv_any(f * nq, SCALE as int)) as i128
}

/// Divide a whole row by the pivot: fails iff some entry exceeds the
/// `SAFE` magnitude cap.
pub open spec fn scale_row_spec(row: Seq<i128>, piv: int) -> Option<Seq<i128>> {
    if row_within(row, SAFE as int) {
        Some(Seq::new(row.len(), |q: int| scaled_elem(row[q], piv)))
    } else {
        None
    }
}

/// Subtract `f / SCALE` times the normalized row from the target row:
/// fails iff some entry of either row exceeds the `SAFE` cap.
pub open spec fn elim_row_spec(target: Seq<i128>, norm: Seq<i128>, f: int) -> Option<Seq<i128>> {
    if row_within(target, SAFE as int) && row_within(norm, SAFE as int) {
        Some(Seq::new(target.len(), |q: int| elim_elem(target[q], norm[q], f)))
    } else {
        None
    }
}

/// Row `r` survives the elimination step with pivot row `p`: its
/// pivot-column entry is within `SAFE` and the row update succeeds.
pub open spec fn pass_row_ok(aug: Seq<Seq<i128>>, norm: Seq<i128>, p: int, r: int) -> bool {
    &&& -SAFE <= aug[r][p] <= SAFE
    &&& elim_row_spec(aug[r], norm, aug[r][p] as int) is Some
}

/// One elimination pass on pivot column `p` of the `c`-row augmented
/// matrix: normalize the pivot row, subtract it from every other row.
pub open spec fn one_pass(aug: Seq<Seq<i128>>, p: int, c: int) -> Option<Seq<Seq<i128>>> {
    let piv = aug[p][p] as int;
    if piv == 0 {
        None
    } else if scale_row_spec(aug[p], piv) is None {
        None
    } else {
        let norm = some_row(scale_row_spec(aug[p], piv));
        if forall|r: int| 0 <= r < c && r != p ==> #[trigger] pass_row_ok(aug, norm, p, r) {
            Some(
                Seq::new(
                    c as nat,
                    |r: int|
                        if r == p {
                            norm
                        } else {
                            some_row(elim_row_spec(aug[r], norm, aug[r][p] as int))
                        },
                ),
            )
        } else {
            None
        }
    }
}

/// The augmented matrix after running passes `p, p+1, ..., c-1`.
pub open spec fn gj_from(aug: Seq<Seq<i128>>, p: int, c: int) -> Option<Seq<Seq<i128>>>
    decreases c - p,
{
    if p >= c {
        Some(aug)
    } else {
        match one_pass(aug, p, c) {
            Option::None => None,
            Option::Some(next) => gj_from(next, p + 1, c),
        }
    }
}

/// The `c x 2c` augmented matrix `[m | SCALE * I]`.
pub open spec fn init_aug(m: Seq<Seq<i128>>, c: int) -> Seq<Seq<i128>> {
    Seq::new(
        c as nat,
        |i: int|
            Seq::new(
                (2 * c) as nat,
                |j: int|
                    if j < c {
                        m[i][j]
                    } else if j == c + i {
                        SCALE
                    } else {
                        0
                    },
            ),
    )
}

/// The right half of the augmented matrix.
pub open spec fn extract_inv(aug: Seq<Seq<i128>>, c: int) -> Seq<Seq<i128>> {
    Seq::new(c as nat, |i: int| Seq::new(c as nat, |j: int| aug[i][c + j]))
}

/// The candidate inverse that Gauss-Jordan elimination without row
/// exchanges produces for the `c x c` matrix `m`, or `None` when a
/// pivot is zero or an entry grows past `SAFE`.
pub open spec fn gauss_jordan_spec(m: Seq<Seq<i128>>, c: int) -> Option<Seq<Seq<i128>>> {
    match gj_from(init_aug(m, c), 0, c) {
        Option::None => None,
        Option::Some(aug) => Some(extract_inv(aug, c)),
    }
}

/// Inversion of `m` succeeds: the elimination completes and its
/// candidate passes the two-sided residual certification.
pub open spec fn gj_certifies(m: Seq<Seq<i128>>, c: int) -> bool {
    match gauss_jordan_spec(m, c) {
        Option::None => false,
        Option::Some(a) => is_approx_inverse(m, a, c),
    }
}

/// Divide a whole row by the pivot, rescaling by `SCALE`.
fn scale_row(row: &Vec<i128>, piv: i128) -> (r: Option<Vec<i128>>)
    requires
        piv != 0,
        -BOUND <= piv <= BOUND,
    ensures
        r is Some <==> scale_row_spec(row@, piv as int) is Some,
        r matches Some(v) ==> {
            &&& scale_row_spec(row@, piv as int) == Some(v@)
            &&& v.len() == row.len()
            &&& forall|q: int| 0 <= q < v.len() ==> -BOUND <= #[trigger] v@[q] <= BOUND
        },
{
    let mut out: Vec<i128> = Vec::new();
    let mut q: usize = 0;
    while q < row.len()
        invariant
            piv != 0,
            -BOUND <= piv <= BOUND,
            q <= row.len(),
            out.len() == q,
            forall|t: int| 0 <= t < q ==> -SAFE <= #[trigger] row@[t] <= SAFE,
            forall|t: int| 0 <= t < q ==> #[trigger] out@[t] == scaled_elem(row@[t], piv as int),
            forall|t: int| 0 <= t < q ==> -BOUND <= #[trigger] out@[t] <= BOUND,
        decreases row.len() - q,
    {
        let e = row[q];
        if e > SAFE || e < -SAFE {
            proof {
                assert(!row_within(row@, SAFE as int));
            }
            return None;
        }
        let v = sdiv(e * SCALE, piv);
        proof {
            assert(v as int == tdiv_any((e * SCALE) as int, piv as int));
            assert(v == scaled_elem(e, piv as int));
        }
        out.push(v);
        q = q + 1;
    }
    proof {
        assert(row_within(row@, SAFE as int));
        assert(out@ =~= Seq::new(row@.len(), |t: int| scaled_elem(row@[t], piv as int)));
    }
    Some(out)
}

/// Subtract `f / SCALE` times the normalized row from the target row.
fn elim_row(target: &Vec<i128>, norm: &Vec<i128>, f: i128) -> (r: Option<Vec<i128>>)
    requires
        norm.len() == target.len(),
        -SAFE <= f <= SAFE,
    ensures
        r is Some <==> elim_row_spec(target@, norm@, f as int) is Some,
        r matches Some(v) ==> {
            &&& elim_row_spec(target@, norm@, f as int) == Some(v@)
            &&& v.len() == target.len()
            &&& forall|q: int| 0 <= q < v.len() ==> -BOUND <= #[trigger] v@[q] <= BOUND
        },
{
    let mut out: Vec<i128> = Vec::new();
    let mut q: usize = 0;
    while q < target.len()
        invariant
            norm.len() == target.len(),
            -SAFE <= f <= SAFE,
            q <= target.len(),
            out.len() == q,
            forall|t: int| 0 <= t < q ==> -SAFE <= #[trigger] norm@[t] <= SAFE,
            forall|t: int| 0 <= t < q ==> -SAFE <= #[trigger] target@[t] <= SAFE,
            forall|t: int|
                0 <= t < q ==> #[trigger] out@[t] == elim_elem(target@[t], norm@[t], f as int),
            forall|t: int| 0 <= t < q ==> -BOUND <= #[trigger] out@[t] <= BOUND,
        decreases target.len() - q,
    {
        let nq = norm[q];
        if nq > SAFE || nq < -SAFE {
            proof {
                assert(!row_within(norm@, SAFE as int));
            }
            return None;
        }
        let tq = target[q];
        if tq > SAFE || tq < -SAFE {
            proof {
                assert(!row_within(target@, SAFE as int));
            }
            return None;
        }
        proof {
            assert(-0x4000_0000_0000_0000_0000_0000_0000_0000 <= (f as int) * (nq as int)
                <= 0x4000_0000_0000_0000_0000_0000_0000_0000) by (nonlinear_arith)
                requires
                    -SAFE <= f <= SAFE && -SAFE <= nq <= SAFE && SAFE == 0x800_0000_0000_0000i128;
        }
        let t = sdiv(f * nq, SCALE);
        let v = tq - t;
        proof {
            assert(t as int == tdiv_any((f * nq) as int, SCALE as int));
            assert(v == elim_elem(tq, nq, f as int));
        }
        out.push(v);
        q = q + 1;
    }
    proof {
        assert(row_within(norm@, SAFE as int));
        assert(row_within(target@, SAFE as int));
        assert(out@ =~= Seq::new(
            target@.len(),
            |t: int| elim_elem(target@[t], norm@[t], f as int),
        ));
    }
    Some(out)
}

/// Gauss-Jordan elimination without row exchanges: returns exactly
/// the candidate that `gauss_jordan_spec` describes.
fn try_invert(m: &Vec<Vec<i128>>) -> (r: Option<Vec<Vec<i128>>>)
    requires
        sq_shape(m.deep_view(), m.len() as int, m.len() as int),
        entries_within(m.deep_view(), SCALE as int),
        m.len() <= 1024,
    ensures
        r is Some <==> gauss_jordan_spec(m.deep_view(), m.len() as int) is Some,
        r matches Some(a) ==> {
            &&& gauss_jordan_spec(m.deep_view(), m.len() as int) == Some(a.deep_view())
            &&& sq_shape(a.deep_view(), m.len() as int, m.len() as int)
        },
{
    let c: usize = m.len();
    let ghost m_dv = m.deep_view();
    let mut aug: Vec<Vec<i128>> = Vec::new();
    let mut i: usize = 0;
    while i < c
        invariant
            sq_shape(m_dv, c as int, c as int),
            entries_within(m_dv, SCALE as int),
            m_dv == m.deep_view(),
            c == m.len(),
            c <= 1024,
            i <= c,
            aug.len() == i,
            forall|p: int| 0 <= p < i ==> #[trigger] aug@[p]@ == init_aug(m_dv, c as int)[p],
        decreases c - i,
    {
        let mut row: Vec<i128> = Vec::new();
        let mut j: usize = 0;
        while j < c
            invariant
                sq_shape(m_dv, c as int, c as int),
                entries_within(m_dv, SCALE as int),
                m_dv == m.deep_view(),
                c == m.len(),
                i < c,
                j <= c,
                row.len() == j,
                forall|t: int| 0 <= t < j ==> #[trigger] row@[t] == m_dv[i as int][t],
            decreases c - j,
        {
            row.push(cell(m, i, j));
            j = j + 1;
        }
        let mut j2: usize = 0;
        while j2 < c
            invariant
                c <= 1024,
                i < c,
                j2 <= c,
                row.len() == c + j2,
                forall|t: int| 0 <= t < c ==> #[trigger] row@[t] == m_dv[i as int][t],
                forall|t: int|
                    c <= t < c + j2 ==> #[trigger] row@[t] == (if t == c + i {
                        SCALE
                    } else {
                        0i128
                    }),
            decreases c - j2,
        {
            if j2 == i {
                row.push(SCALE);
            } else {
                row.push(0);
            }
            j2 = j2 + 1;
        }
        proof {
            assert(row@ =~= init_aug(m_dv, c as int)[i as int]);
        }
        aug.push(row);
        i = i + 1;
    }
    proof {
        assert forall|t: int| 0 <= t < c implies #[trigger] aug.deep_view()[t] == init_aug(
            m_dv,
            c as int,
        )[t] by {
            assert(aug.deep_view()[t] =~= aug@[t].deep_view());
            assert(aug@[t].deep_view() =~= aug@[t]@);
        }
        assert(aug.deep_view() =~= init_aug(m_dv, c as int));
    }
    let mut p: usize = 0;
    while p < c
        invariant
            c <= 1024,
            c == m.len(),
            m_dv == m.deep_view(),
            p <= c,
            aug.len() == c,
            forall|r0: int| 0 <= r0 < c ==> (#[trigger] aug@[r0])@.len() == 2 * c,
            forall|r0: int, q: int|
                0 <= r0 < c && 0 <= q < 2 * c ==> -BOUND <= #[trigger] aug@[r0]@[q] <= BOUND,
            gj_from(init_aug(m_dv, c as int), 0, c as int) == gj_from(
                aug.deep_view(),
                p as int,
                c as int,
            ),
        decreases c - p,
    {
        let ghost aug_dv = aug.deep_view();
        proof {
            assert forall|t: int| 0 <= t < c implies (#[trigger] aug_dv[t]).len() == 2 * c
                && aug_dv[t] == aug@[t]@ by {
                assert(aug_dv[t] =~= aug@[t].deep_view());
                assert(aug@[t].deep_view() =~= aug@[t]@);
            }
        }
        let piv = cell(&aug, p, p);
        if piv == 0 {
            proof {
                assert(one_pass(aug_dv, p as int, c as int) is None);
                assert(gj_from(aug_dv, p as int, c as int) is None);
                assert(gauss_jordan_spec(m_dv, c as int) is None);
            }
            return None;
        }
        let norm = match scale_row(&aug[p], piv) {
            Some(v) => v,
            None => {
                proof {
                    assert(aug@[p as int]@ == aug_dv[p as int]);
                    assert(scale_row_spec(aug_dv[p as int], piv as int) is None);
                    assert(one_pass(aug_dv, p as int, c as int) is None);
                    assert(gj_from(aug_dv, p as int, c as int) is None);
                    assert(gauss_jordan_spec(m_dv, c as int) is None);
                }
                return None;
            },
        };
        proof {
            assert(aug@[p as int]@ == aug_dv[p as int]);
            assert(scale_row_spec(aug_dv[p as int], piv as int) == Some(norm@));
        }
        let mut next: Vec<Vec<i128>> = Vec::new();
        let mut r0: usize = 0;
        while r0 < c
            invariant
                c <= 1024,
                p < c,
                piv != 0,
                -BOUND <= piv <= BOUND,
                r0 <= c,
                aug.len() == c,
                c == m.len(),
                aug_dv == aug.deep_view(),
                m_dv == m.deep_view(),
                gj_from(init_aug(m_dv, c as int), 0, c as int) == gj_from(
                    aug_dv,
                    p as int,
                    c as int,
                ),
                piv == aug_dv[p as int][p as int],
                forall|t: int| 0 <= t < c ==> (#[trigger] aug@[t])@.len() == 2 * c,
                forall|t: int| 0 <= t < c ==> #[trigger] aug_dv[t] == aug@[t]@,
                forall|t: int, q: int|
                    0 <= t < c && 0 <= q < 2 * c ==> -BOUND <= #[trigger] aug@[t]@[q] <= BOUND,
                norm.len() == 2 * c,
                forall|q: int| 0 <= q < norm.len() ==> -BOUND <= #[trigger] norm@[q] <= BOUND,
                scale_row_spec(aug_dv[p as int], piv as int) == Some(norm@),
                next.len() == r0,
                forall|t: int| 0 <= t < r0 ==> (#[trigger] next@[t])@.len() == 2 * c,
                forall|t: int, q: int|
                    0 <= t < r0 && 0 <= q < 2 * c ==> -BOUND <= #[trigger] next@[t]@[q] <= BOUND,
                forall|t: int|
                    0 <= t < r0 && t != p ==> #[trigger] pass_row_ok(aug_dv, norm@, p as int, t),
                forall|t: int|
                    0 <= t < r0 ==> #[trigger] next@[t]@ == (if t == p {
                        norm@
                    } else {
                        some_row(elim_row_spec(aug_dv[t], norm@, aug_dv[t][p as int] as int))
                    }),
            decreases c - r0,
        {
            if r0 == p {
                let v = match scale_row(&aug[p], piv) {
                    Some(v) => v,
                    None => {
                        proof {
                            assert(aug@[p as int]@ == aug_dv[p as int]);
                            assert(false);
                        }
                        return None;
                    },
                };
                proof {
                    assert(aug@[p as int]@ == aug_dv[p as int]);
                    assert(v@ == norm@);
                }
                next.push(v);
            } else {
                let f = cell(&aug, r0, p);
                if f > SAFE || f < -SAFE {
                    proof {
                        assert(!pass_row_ok(aug_dv, norm@, p as int, r0 as int));
                        assert(one_pass(aug_dv, p as int, c as int) is None);
                        assert(gj_from(aug_dv, p as int, c as int) is None);
                        assert(gauss_jordan_spec(m_dv, c as int) is None);
                    }
                    return None;
                }
                let v = match elim_row(&aug[r0], &norm, f) {
                    Some(v) => v,
                    None => {
                        proof {
                            assert(aug@[r0 as int]@ == aug_dv[r0 as int]);
                            assert(elim_row_spec(aug_dv[r0 as int], norm@, f as int) is None);
                            assert(!pass_row_ok(aug_dv, norm@, p as int, r0 as int));
                            assert(one_pass(aug_dv, p as int, c as int) is None);
                            assert(gj_from(aug_dv, p as int, c as int) is None);
                            assert(gauss_jordan_spec(m_dv, c as int) is None);
                        }
                        return None;
                    },
                };
                proof {
                    assert(aug@[r0 as int]@ == aug_dv[r0 as int]);
                    assert(elim_row_spec(aug_dv[r0 as int], norm@, f as int) == Some(v@));
                    assert(pass_row_ok(aug_dv, norm@, p as int, r0 as int));
                }
                next.push(v);
            }
            r0 = r0 + 1;
        }
        proof {
            let pp = p as int;
            let cc = c as int;
            assert(forall|r: int|
                0 <= r < cc && r != pp ==> #[trigger] pass_row_ok(aug_dv, norm@, pp, r));
            let rows = Seq::new(
                cc as nat,
                |r: int|
                    if r == pp {
                        norm@
                    } else {
                        some_row(elim_row_spec(aug_dv[r], norm@, aug_dv[r][pp] as int))
                    },
            );
            assert(one_pass(aug_dv, pp, cc) == Some(rows));
            assert forall|t: int| 0 <= t < cc implies #[trigger] next.deep_view()[t]
                == rows[t] by {
                assert(next.deep_view()[t] =~= next@[t].deep_view());
                assert(next@[t].deep_view() =~= next@[t]@);
            }
            assert(next.deep_view() =~= rows);
            assert(gj_from(aug_dv, pp, cc) == gj_from(next.deep_view(), pp + 1, cc));
        }
        aug = next;
        p = p + 1;
    }
    proof {
        assert(gj_from(aug.deep_view(), c as int, c as int) == Some(aug.deep_view()));
        assert(gj_from(init_aug(m_dv, c as int), 0, c as int) == Some(aug.deep_view()));
    }
    let ghost aug_final = aug.deep_view();
    let mut inv: Vec<Vec<i128>> = Vec::new();
    let mut i2: usize = 0;
    while i2 < c
        invariant
            c <= 1024,
            c == m.len(),
            m_dv == m.deep_view(),
            gj_from(init_aug(m_dv, c as int), 0, c as int) == Some(aug_final),
            i2 <= c,
            aug.len() == c,
            aug_final == aug.deep_view(),
            forall|t: int| 0 <= t < c ==> (#[trigger] aug@[t])@.len() == 2 * c,
            inv.len() == i2,
            forall|t: int| 0 <= t < i2 ==> #[trigger] inv@[t]@ == extract_inv(
                aug_final,
                c as int,
            )[t],
        decreases c - i2,
    {
        let mut row: Vec<i128> = Vec::new();
        let mut j: usize = 0;
        while j < c
            invariant
                c <= 1024,
                i2 < c,
                j <= c,
                aug.len() == c,
                aug_final == aug.deep_view(),

                forall|t: int| 0 <= t < c ==> (#[trigger] aug@[t])@.len() == 2 * c,
                row.len() == j,
                forall|t: int| 0 <= t < j ==> #[trigger] row@[t] == aug_final[i2 as int][c + t],
            decreases c - j,
        {
            row.push(cell(&aug, i2, c + j));
            j = j + 1;
        }
        proof {
            assert(row@ =~= extract_inv(aug_final, c as int)[i2 as int]);
        }
        inv.push(row);
        i2 = i2 + 1;
    }
    proof {
        assert forall|t: int| 0 <= t < c implies #[trigger] inv.deep_view()[t] == extract_inv(
            aug_final,
            c as int,
        )[t] by {
            assert(inv.deep_view()[t] =~= inv@[t].deep_view());
            assert(inv@[t].deep_view() =~= inv@[t]@);
        }
        assert(inv.deep_view() =~= extract_inv(aug_final, c as int));
        assert(gauss_jordan_spec(m_dv, c as int) == Some(inv.deep_view()));
    }
    Some(inv)
}

/// Decide whether `a` certifies as an approximate inverse of `m`:
/// entries within `SAFE` and both residuals within `TOL`.
fn residual_ok(m: &Vec<Vec<i128>>, a: &Vec<Vec<i128>>) -> (r: bool)
    requires
        sq_shape(m.deep_view(), m.len() as int, m.len() as int),
        entries_within(m.deep_view(), SCALE as int),
        sq_shape(a.deep_view(), m.len() as int, m.len() as int),
        m.len() <= 1024,
    ensures
        r == is_approx_inverse(m.deep_view(), a.deep_view(), m.len() as int),
{
    let c: usize = m.len();
    let mut i: usize = 0;
    while i < c
        invariant
            sq_shape(a.deep_view(), c as int, c as int),
            c == m.len(),
            i <= c,
            forall|p: int, q: int|
                0 <= p < i && 0 <= q < c ==> -SAFE <= #[trigger] a.deep_view()[p][q] <= SAFE,
        decreases c - i,
    {
        let mut j: usize = 0;
        while j < c
            invariant
                sq_shape(a.deep_view(), c as int, c as int),
                c == m.len(),
                i < c,
                j <= c,
                forall|p: int, q: int|
                    0 <= p < i && 0 <= q < c ==> -SAFE <= #[trigger] a.deep_view()[p][q] <= SAFE,
                forall|q: int|
                    0 <= q < j ==> -SAFE <= #[trigger] a.deep_view()[i as int][q] <= SAFE,
            decreases c - j,
        {
            let e = cell(a, i, j);
            if e > SAFE || e < -SAFE {
                return false;
            }
            j = j + 1;
        }
        i = i + 1;
    }
    let mut i2: usize = 0;
    while i2 < c
        invariant
            sq_shape(m.deep_view(), c as int, c as int),
            entries_within(m.deep_view(), SCALE as int),
            sq_shape(a.deep_view(), c as int, c as int),
            entries_within(a.deep_view(), SAFE as int),
            c == m.len(),
            c <= 1024,
            i2 <= c,
            forall|p: int, q: int|
                0 <= p < i2 && 0 <= q < c ==> abs_i(
                    #[trigger] dot_scaled_pfx(m.deep_view(), a.deep_view(), p, q, c as int)
                        - ident_cell(p, q),
                ) <= TOL,
        decreases c - i2,
    {
        let mut j2: usize = 0;
        while j2 < c
            invariant
                sq_shape(m.deep_view(), c as int, c as int),
                entries_within(m.deep_view(), SCALE as int),
                sq_shape(a.deep_view(), c as int, c as int),
                entries_within(a.deep_view(), SAFE as int),
                c == m.len(),
                c <= 1024,
                i2 < c,
                j2 <= c,
                forall|p: int, q: int|
                    0 <= p < i2 && 0 <= q < c ==> abs_i(
                        #[trigger] dot_scaled_pfx(m.deep_view(), a.deep_view(), p, q, c as int)
                            - ident_cell(p, q),
                    ) <= TOL,
                forall|q: int|
                    0 <= q < j2 ==> abs_i(
                        #[trigger] dot_scaled_pfx(
                            m.deep_view(),
                            a.deep_view(),
                            i2 as int,
                            q,
                            c as int,
                        ) - ident_cell(i2 as int, q),
                    ) <= TOL,
            decreases c - j2,
        {
            let mut acc: i128 = 0;
            let mut k: usize = 0;
            while k < c
                invariant
                    sq_shape(m.deep_view(), c as int, c as int),
                    entries_within(m.deep_view(), SCALE as int),
                    sq_shape(a.deep_view(), c as int, c as int),
                    entries_within(a.deep_view(), SAFE as int),
                    c == m.len(),
                    c <= 1024,
                    i2 < c,
                    j2 < c,
                    k <= c,
                    acc == dot_scaled_pfx(
                        m.deep_view(),
                        a.deep_view(),
                        i2 as int,
                        j2 as int,
                        k as int,
                    ),
                    -(k * SCALE * SAFE) <= acc <= k * SCALE * SAFE,
                decreases c - k,
            {
                let mk = cell(m, i2, k);
                let ak = cell(a, k, j2);
                proof {
                    assert(-(SCALE * SAFE) <= (mk as int) * (ak as int) <= SCALE * SAFE)
                        by (nonlinear_arith)
                        requires
                            -SCALE <= mk <= SCALE && -SAFE <= ak <= SAFE && SCALE == 4096i128
                                && SAFE == 0x800_0000_0000_0000i128;
                    assert((k + 1) * SCALE * SAFE == k * SCALE * SAFE + SCALE * SAFE)
                        by (nonlinear_arith);
                }
                let term = sdiv(mk * ak, SCALE);
                acc = acc + term;
                k = k + 1;
            }
            let target: i128 = if i2 == j2 {
                SCALE
            } else {
                0
            };
            let diff = acc - target;
            if diff > TOL || diff < -TOL {
                return false;
            }
            j2 = j2 + 1;
        }
        i2 = i2 + 1;
    }
    let mut i3: usize = 0;
    while i3 < c
        invariant
            sq_shape(m.deep_view(), c as int, c as int),
            entries_within(m.deep_view(), SCALE as int),
            sq_shape(a.deep_view(), c as int, c as int),
            entries_within(a.deep_view(), SAFE as int),
            c == m.len(),
            c <= 1024,
            i3 <= c,
            forall|p: int, q: int|
                0 <= p < c && 0 <= q < c ==> abs_i(
                    #[trigger] dot_scaled_pfx(m.deep_view(), a.deep_view(), p, q, c as int)
                        - ident_cell(p, q),
                ) <= TOL,
            forall|p: int, q: int|
                0 <= p < i3 && 0 <= q < c ==> abs_i(
                    #[trigger] dot_scaled_pfx(a.deep_view(), m.deep_view(), p, q, c as int)
                        - ident_cell(p, q),
                ) <= TOL,
        decreases c - i3,
    {
        let mut j3: usize = 0;
        while j3 < c
            invariant
                sq_shape(m.deep_view(), c as int, c as int),
                entries_within(m.deep_view(), SCALE as int),
                sq_shape(a.deep_view(), c as int, c as int),
                entries_within(a.deep_view(), SAFE as int),
                c == m.len(),
                c <= 1024,
                i3 < c,
                j3 <= c,
                forall|p: int, q: int|
                    0 <= p < c && 0 <= q < c ==> abs_i(
                        #[trigger] dot_scaled_pfx(m.deep_view(), a.deep_view(), p, q, c as int)
                            - ident_cell(p, q),
                    ) <= TOL,
                forall|p: int, q: int|
                    0 <= p < i3 && 0 <= q < c ==> abs_i(
                        #[trigger] dot_scaled_pfx(a.deep_view(), m.deep_view(), p, q, c as int)
                            - ident_cell(p, q),
                    ) <= TOL,
                forall|q: int|
                    0 <= q < j3 ==> abs_i(
                        #[trigger] dot_scaled_pfx(
                            a.deep_view(),
                            m.deep_view(),
                            i3 as int,
                            q,
                            c as int,
                        ) - ident_cell(i3 as int, q),
                    ) <= TOL,
            decreases c - j3,
        {
            let mut acc: i128 = 0;
            let mut k: usize = 0;
            while k < c
                invariant
                    sq_shape(m.deep_view(), c as int, c as int),
                    entries_within(m.deep_view(), SCALE as int),
                    sq_shape(a.deep_view(), c as int, c as int),
                    entries_within(a.deep_view(), SAFE as int),
                    c == m.len(),
                    c <= 1024,
                    i3 < c,
                    j3 < c,
                    k <= c,
                    acc == dot_scaled_pfx(
                        a.deep_view(),
                        m.deep_view(),
                        i3 as int,
                        j3 as int,
                        k as int,
                    ),
                    -(k * SCALE * SAFE) <= acc <= k * SCALE * SAFE,
                decreases c - k,
            {
                let ak = cell(a, i3, k);
                let mk = cell(m, k, j3);
                proof {
                    assert(-(SCALE * SAFE) <= (ak as int) * (mk as int) <= SCALE * SAFE)
                        by (nonlinear_arith)
                        requires
                            -SAFE <= ak <= SAFE && -SCALE <= mk <= SCALE && SCALE == 4096i128
                                && SAFE == 0x800_0000_0000_0000i128;
                    assert((k + 1) * SCALE * SAFE == k * SCALE * SAFE + SCALE * SAFE)
                        by (nonlinear_arith);
                }
                let term = sdiv(ak * mk, SCALE);
                acc = acc + term;
                k = k + 1;
            }
            let target: i128 = if i3 == j3 {
                SCALE
            } else {
                0
            };
            let diff = acc - target;
            if diff > TOL || diff < -TOL {
                return false;
            }
            j3 = j3 + 1;
        }
        i3 = i3 + 1;
    }
    true
}

/// The shared front half of the inverse-consuming calculators:
/// correlation matrix, dimension check, elimination, certification.
/// Succeeds exactly when `gj_certifies` holds of the correlation
/// matrix, and then returns exactly the eliminated candidate.
pub(crate) fn certified_inverse(data: &Vec<Vec<i128>>, names: &Vec<String>) -> (r: Result<
    Vec<Vec<i128>>,
    MatrixError,
>)
    requires
        wf_data(data.deep_view(), col_count(data.deep_view())),
    ensures
        (r == Err::<Vec<Vec<i128>>, MatrixError>(MatrixError::InsufficientData)) <==> data
            .deep_view().len() < 2,
        (r == Err::<Vec<Vec<i128>>, MatrixError>(MatrixError::DimensionMismatch)) <==> (data
            .deep_view().len() >= 2 && names@.len() != col_count(data.deep_view())),
        r is Ok <==> (data.deep_view().len() >= 2 && names@.len() == col_count(data.deep_view())
            && gj_certifies(
            corr_matrix(data.deep_view(), col_count(data.deep_view())),
            col_count(data.deep_view()),
        )),
        r matches Ok(a) ==> {
            &&& gauss_jordan_spec(
                corr_matrix(data.deep_view(), col_count(data.deep_view())),
                col_count(data.deep_view()),
            ) == Some(a.deep_view())
            &&& is_approx_inverse(
                corr_matrix(data.deep_view(), col_count(data.deep_view())),
                a.deep_view(),
                col_count(data.deep_view()),
            )
        },
        r == Err::<Vec<Vec<i128>>, MatrixError>(MatrixError::SingularMatrix) ==> data
            .deep_view().len() >= 2 && names@.len() == col_count(data.deep_view()),
{
    let d = Ghost(data.deep_view());
    let m = match calculate_matrix(data, MatrixKind::Correlation) {
        Ok(m) => m,
        Err(e) => {
            return Err(e);
        },
    };
    if names.len() != m.len() {
        return Err(MatrixError::DimensionMismatch);
    }
    let ghost c = col_count(d@);
    proof {
        assert forall|i: int, j: int| 0 <= i < c && 0 <= j < c implies -SCALE <= #[trigger] m
            .deep_view()[i][j] <= SCALE by {
            lemma_correlation_range(d@, i, j);
        }
        assert(entries_within(m.deep_view(), SCALE as int));
        assert forall|i: int| 0 <= i < c implies #[trigger] m.deep_view()[i] == corr_matrix(
            d@,
            c,
        )[i] by {
            assert forall|j: int| 0 <= j < c implies m.deep_view()[i][j] == corr_matrix(d@, c)[i][j]
                by {
                lemma_correlation_range(d@, i, j);
                assert(m.deep_view()[i][j] == corr_cell(d@, i, j));
            }
            assert(m.deep_view()[i] =~= corr_matrix(d@, c)[i]);
        }
        assert(m.deep_view() =~= corr_matrix(d@, c));
    }
    let inv = match try_invert(&m) {
        Some(a) => a,
        None => {
            proof {
                assert(gauss_jordan_spec(corr_matrix(d@, c), c) is None);
            }
            return Err(MatrixError::SingularMatrix);
        },
    };
    if !residual_ok(&m, &inv) {
        proof {
            assert(!is_approx_inverse(corr_matrix(d@, c), inv.deep_view(), c));
            assert(!gj_certifies(corr_matrix(d@, c), c));
        }
        return Err(MatrixError::SingularMatrix);
    }
    proof {
        assert(gauss_jordan_spec(corr_matrix(d@, c), c) == Some(inv.deep_view()));
        assert(gj_certifies(corr_matrix(d@, c), c));
    }
    Ok(inv)
}

/// Invert the correlation matrix of the data.
///
/// Succeeds exactly when the spec-level elimination completes and its
/// candidate certifies (`gj_certifies`): the product of the
/// correlation matrix with the result, in both orders, is within
/// `TOL` of the identity in every cell, and the result is exactly the
/// matrix that `gauss_jordan_spec` describes.  Otherwise, after the
/// two input checks, the call fails with `SingularMatrix` (for
/// example with perfectly collinear variables).
pub fn calculate_inverse_correlation_matrix(data: &Vec<Vec<i128>>, names: &Vec<String>) -> (r:
    Result<InverseCorrelationMatrix, MatrixError>)
    requires
        wf_data(data.deep_view(), col_count(data.deep_view())),
    ensures
        (r == Err::<InverseCorrelationMatrix, MatrixError>(MatrixError::InsufficientData)) <==> data
            .deep_view().len() < 2,
        (r == Err::<InverseCorrelationMatrix, MatrixError>(MatrixError::DimensionMismatch)) <==> (
        data.deep_view().len() >= 2 && names@.len() != col_count(data.deep_view())),
        r is Ok <==> (data.deep_view().len() >= 2 && names@.len() == col_count(data.deep_view())
            && gj_certifies(
            corr_matrix(data.deep_view(), col_count(data.deep_view())),
            col_count(data.deep_view()),
        )),
        r matches Ok(v) ==> {
            &&& v.variable_order.deep_view() == names.deep_view()
            &&& gauss_jordan_spec(
                corr_matrix(data.deep_view(), col_count(data.deep_view())),
                col_count(data.deep_view()),
            ) == Some(v.inverse_correlations.deep_view())
            &&& is_approx_inverse(
                corr_matrix(data.deep_view(), col_count(data.deep_view())),
                v.inverse_correlations.deep_view(),
                col_count(data.deep_view()),
            )
        },
        r == Err::<InverseCorrelationMatrix, MatrixError>(MatrixError::SingularMatrix) ==> data
            .deep_view().len() >= 2 && names@.len() == col_count(data.deep_view()),
{
    let inv = match certified_inverse(data, names) {
        Ok(a) => a,
        Err(e) => {
            return Err(e);
        },
    };
    let order = names.clone();
    proof {
        assert(order.deep_view() =~= names.deep_view());
    }
    Ok(InverseCorrelationMatrix { inverse_correlations: inv, variable_order: order })
}

} // verus!
