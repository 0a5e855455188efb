//! Negacyclic polynomial arithmetic on regions of flat coefficient buffers.
//!
//! All polynomials have a fixed size `n` and live modulo `X^n + 1` over the
//! wrapping 64-bit integers.  Every helper works on a region `[off, off+n)`
//! of a flat buffer and leaves everything outside its destination region
//! unchanged.

use vstd::prelude::*;

verus! {

/// The value of destination `j` after accumulating the first `rows`
/// source coefficients of the negacyclic product `a * b`: row `p`
/// contributes `a[p] * b[t]` to the destination `(p + t) mod n`, with the
/// sign flipped when `p + t` reaches `n`, so destination `j` receives
/// from row `p` the source coefficient at `monomial_source_index(j, p, n)`.
pub open spec fn negacyclic_partial(
    a: Seq<u64>,
    a_off: int,
    b: Seq<u64>,
    b_off: int,
    n: int,
    rows: int,
    j: int,
    init: u64,
) -> u64
    decreases rows,
{
    if rows <= 0 {
        init
    } else {
        let prev = negacyclic_partial(a, a_off, b, b_off, n, rows - 1, j, init);
        let p = rows - 1;
        let src = monomial_source_index(j, p, n);
        if monomial_sign_flips(j, p, n) {
            prev.wrapping_sub(a[a_off + p].wrapping_mul(b[b_off + src]))
        } else {
            prev.wrapping_add(a[a_off + p].wrapping_mul(b[b_off + src]))
        }
    }
}

/// `dst[dst_off..dst_off+n] += a[a_off..a_off+n] * b[b_off..b_off+n]`,
/// multiplying modulo `X^n + 1` with wrapping coefficient arithmetic:
/// destination `j` accumulates one signed product per source row.
pub fn poly_mul_acc(
    dst: &mut Vec<u64>,
    dst_off: usize,
    a: &Vec<u64>,
    a_off: usize,
    b: &Vec<u64>,
    b_off: usize,
    n: usize,
)
    requires
        n <= 0x10_0000,
        dst_off + n <= old(dst).len(),
        a_off + n <= a.len(),
        b_off + n <= b.len(),
    ensures
        final(dst)@.len() == old(dst)@.len(),
        forall|k: int|
            0 <= k < final(dst)@.len() && !(dst_off <= k < dst_off + n) ==> final(dst)@[k] == old(
                dst,
            )@[k],
        forall|j: int|
            0 <= j < n ==> #[trigger] final(dst)@[dst_off + j] == negacyclic_partial(
                a@,
                a_off as int,
                b@,
                b_off as int,
                n as int,
                n as int,
                j,
                old(dst)@[dst_off + j],
            ),
{
    let mut p: usize = 0;
    while p < n
        invariant
            n <= 0x10_0000,
            dst_off + n <= old(dst).len(),
            a_off + n <= a.len(),
            b_off + n <= b.len(),
            p <= n,
            dst@.len() == old(dst).len(),
            forall|k: int|
                0 <= k < dst@.len() && !(dst_off <= k < dst_off + n) ==> dst@[k] == old(
                    dst,
                )@[k],
            forall|j: int|
                0 <= j < n ==> #[trigger] dst@[dst_off + j] == negacyclic_partial(
                    a@,
                    a_off as int,
                    b@,
                    b_off as int,
                    n as int,
                    p as int,
                    j,
                    old(dst)@[dst_off + j],
                ),
        decreases n - p,
    {
        let a_p = a[a_off + p];
        let mut t: usize = 0;
        while t < n
            invariant
                n <= 0x10_0000,
                dst_off + n <= old(dst).len(),
                a_off + n <= a.len(),
                b_off + n <= b.len(),
                p < n,
                t <= n,
                a_p == a@[a_off + p],
                dst@.len() == old(dst).len(),
                forall|k: int|
                    0 <= k < dst@.len() && !(dst_off <= k < dst_off + n) ==> dst@[k] == old(
                        dst,
                    )@[k],
                forall|j: int|
                    0 <= j < n ==> #[trigger] dst@[dst_off + j] == (if monomial_source_index(
                        j,
                        p as int,
                        n as int,
                    ) < t {
                        negacyclic_partial(
                            a@,
                            a_off as int,
                            b@,
                            b_off as int,
                            n as int,
                            p as int + 1,
                            j,
                            old(dst)@[dst_off + j],
                        )
                    } else {
                        negacyclic_partial(
                            a@,
                            a_off as int,
                            b@,
                            b_off as int,
                            n as int,
                            p as int,
                            j,
                            old(dst)@[dst_off + j],
                        )
                    }),
            decreases n - t,
        {
            proof {
                vstd::arithmetic::div_mod::lemma_fundamental_div_mod_converse(
                    p as int,
                    n as int,
                    0,
                    p as int,
                );
            }
            let product = a_p.wrapping_mul(b[b_off + t]);
            let idx = p + t;
            if idx < n {
                dst[dst_off + idx] = dst[dst_off + idx].wrapping_add(product);
            } else {
                dst[dst_off + (idx - n)] = dst[dst_off + (idx - n)].wrapping_sub(product);
            }
            t += 1;
        }
        p += 1;
    }
}

/// The source coefficient index that lands at destination `j` under
/// The source coefficient index that lands at destination `j` under
/// multiplication by `X^exponent` modulo `X^n + 1`: the unique `p` in
/// `[0, n)` with `p + exponent` congruent to `j` modulo `n`.
pub open spec fn monomial_source_index(j: int, exponent: int, n: int) -> int {
    if j >= exponent % n {
        j - exponent % n
    } else {
        j + n - exponent % n
    }
}

/// Whether that contribution carries a flipped sign: the product monomial
/// has degree in `[n, 2n)`, where `X^n` is minus one.
pub open spec fn monomial_sign_flips(j: int, exponent: int, n: int) -> bool {
    n <= monomial_source_index(j, exponent, n) + exponent < 2 * n
}

/// `dst[dst_off..dst_off+n] += X^exponent * src[src_off..src_off+n]`
/// modulo `X^n + 1`, for an exponent in `[0, 2n)`: destination `j`
/// gains its unique source coefficient, subtracted where the monomial
/// wraps past degree `n` and added where it does not (or wraps twice).
pub fn monomial_mul_acc(
    dst: &mut Vec<u64>,
    dst_off: usize,
    src: &Vec<u64>,
    src_off: usize,
    exponent: usize,
    n: usize,
)
    requires
        n <= 0x10_0000,
        dst_off + n <= old(dst).len(),
        src_off + n <= src.len(),
        exponent < 2 * n,
    ensures
        final(dst)@.len() == old(dst)@.len(),
        forall|k: int|
            0 <= k < final(dst)@.len() && !(dst_off <= k < dst_off + n) ==> final(dst)@[k] == old(
                dst,
            )@[k],
        forall|j: int|
            0 <= j < n ==> #[trigger] final(dst)@[dst_off + j] == (if monomial_sign_flips(
                j,
                exponent as int,
                n as int,
            ) {
                old(dst)@[dst_off + j].wrapping_sub(
                    src@[src_off + monomial_source_index(j, exponent as int, n as int)],
                )
            } else {
                old(dst)@[dst_off + j].wrapping_add(
                    src@[src_off + monomial_source_index(j, exponent as int, n as int)],
                )
            }),
{
    let mut p: usize = 0;
    while p < n
        invariant
            n <= 0x10_0000,
            dst_off + n <= old(dst).len(),
            src_off + n <= src.len(),
            exponent < 2 * n,
            p <= n,
            dst@.len() == old(dst).len(),
            forall|k: int|
                0 <= k < dst@.len() && !(dst_off <= k < dst_off + n) ==> dst@[k] == old(
                    dst,
                )@[k],
            forall|j: int|
                0 <= j < n ==> #[trigger] dst@[dst_off + j] == (if monomial_source_index(
                    j,
                    exponent as int,
                    n as int,
                ) < p {
                    if monomial_sign_flips(j, exponent as int, n as int) {
                        old(dst)@[dst_off + j].wrapping_sub(
                            src@[src_off + monomial_source_index(j, exponent as int, n as int)],
                        )
                    } else {
                        old(dst)@[dst_off + j].wrapping_add(
                            src@[src_off + monomial_source_index(j, exponent as int, n as int)],
                        )
                    }
                } else {
                    old(dst)@[dst_off + j]
                }),
        decreases n - p,
    {
        proof {
            vstd::arithmetic::div_mod::lemma_fundamental_div_mod(exponent as int, n as int);
            vstd::arithmetic::div_mod::lemma_mod_bound(exponent as int, n as int);
            vstd::arithmetic::div_mod::lemma_div_is_ordered(0, exponent as int, n as int);
            vstd::arithmetic::div_mod::lemma_multiply_divide_lt(exponent as int, n as int, 2);
        }
        let target = p + exponent;
        let value = src[src_off + p];
        if target < n {
            dst[dst_off + target] = dst[dst_off + target].wrapping_add(value);
        } else if target < 2 * n {
            dst[dst_off + (target - n)] = dst[dst_off + (target - n)].wrapping_sub(value);
        } else {
            dst[dst_off + (target - 2 * n)] = dst[dst_off + (target - 2 * n)].wrapping_add(value);
        }
        p += 1;
    }
}

/// `dst[dst_off..dst_off+n] -= scalar * src[src_off..src_off+n]`, with
/// wrapping coefficient arithmetic (no polynomial reduction is needed for
/// a scalar factor).
pub fn scalar_mul_sub(
    dst: &mut Vec<u64>,
    dst_off: usize,
    scalar: u64,
    src: &Vec<u64>,
    src_off: usize,
    n: usize,
)
    requires
        dst_off + n <= old(dst).len(),
        src_off + n <= src.len(),
    ensures
        final(dst)@.len() == old(dst)@.len(),
        forall|k: int|
            0 <= k < final(dst)@.len() && !(dst_off <= k < dst_off + n) ==> final(dst)@[k] == old(
                dst,
            )@[k],
        forall|j: int|
            0 <= j < n ==> #[trigger] final(dst)@[dst_off + j] == old(dst)@[dst_off
                + j].wrapping_sub(scalar.wrapping_mul(src@[src_off + j])),
{
    let mut p: usize = 0;
    while p < n
        invariant
            dst_off + n <= old(dst).len(),
            src_off + n <= src.len(),
            p <= n,
            dst@.len() == old(dst).len(),
            forall|k: int|
                0 <= k < dst@.len() && !(dst_off <= k < dst_off + n) ==> dst@[k] == old(
                    dst,
                )@[k],
            forall|j: int|
                0 <= j < p ==> #[trigger] dst@[dst_off + j] == old(dst)@[dst_off
                    + j].wrapping_sub(scalar.wrapping_mul(src@[src_off + j])),
            forall|j: int| p <= j < n ==> #[trigger] dst@[dst_off + j] == old(dst)@[dst_off + j],
        decreases n - p,
    {
        let product = scalar.wrapping_mul(src[src_off + p]);
        dst[dst_off + p] = dst[dst_off + p].wrapping_sub(product);
        p += 1;
    }
}

} // verus!
