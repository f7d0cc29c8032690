//! Error terms of rules: non-negative, zero exactly when the rule holds.
use crate::expr::{real_in, Arena, CompareKind, ONE, ZERO};
use crate::ir::{lemma_alts_ok, rule_ok, RuleKind};
use crate::lower::{all_valid, complex_at, cp, vshapes, vts, ValueExpr, VTerm};
use crate::term::{
    keeps, lemma_keeps_refl, lemma_keeps_trans, t_abs, t_add, t_cmp, t_div, t_min, t_mul, t_one,
    t_sub, t_ternary, t_zero, tm, Term,
};
use crate::geometry::point_point_distance;
use crate::value::{c_valid, ct, cx_abs, cx_sub, ComplexExpr};
use vstd::prelude::*;

verus! {

broadcast use vstd::std_specs::vec::group_vec_axioms;

/// Bit pattern of the `f64` value `5.0`.
pub const FIVE_BITS: u64 = 0x4014_0000_0000_0000;

/// Bit pattern of the `f64` value `10.0`.
pub const TEN_BITS: u64 = 0x4024_0000_0000_0000;

/// Bit pattern of the `f64` value nearest to `0.1`.
pub const TENTH_BITS: u64 = 0x3FB9_9999_9999_999A;

/// The error of an equality: `5 |a - b|`.
pub open spec fn eq_term(a: crate::value::CTerm, b: crate::value::CTerm) -> Term {
    t_mul(cx_abs(cx_sub(a, b)), Term::Const(FIVE_BITS))
}

/// The error of `a > b`: with `th = b + 0.1 (|b| + 0.1)`, it is `(a - th)^2`
/// when `th > a` and zero otherwise.
pub open spec fn gt_term(a: Term, b: Term) -> Term {
    let tenth = Term::Const(TENTH_BITS);
    let th = t_add(b, t_mul(t_add(t_abs(b), tenth), tenth));
    let d = t_sub(a, th);
    t_ternary(t_cmp(th, a, CompareKind::Gt), t_mul(d, d), t_zero())
}

/// The error of an inverted rule whose own error is `e`: `1 / (10 e)`.
pub open spec fn invert_term(e: Term) -> Term {
    t_div(t_one(), t_mul(Term::Const(TEN_BITS), e))
}

/// The error of a rule over the values `prev` of the expressions.
pub open spec fn rule_term(prev: Seq<VTerm>, r: RuleKind) -> Term
    decreases r,
{
    match r {
        RuleKind::PointEq(a, b) | RuleKind::NumberEq(a, b) => eq_term(cp(prev, a), cp(prev, b)),
        RuleKind::Gt(a, b) => gt_term(cp(prev, a).re, cp(prev, b).re),
        RuleKind::Alternative(rs) => min_fold(prev, rs@, rs@.len() as int),
        RuleKind::Invert(q) => invert_term(rule_term(prev, *q)),
        RuleKind::Bias => t_zero(),
    }
}

/// The smallest error among the first `n` rules, folded from the left.
pub open spec fn min_fold(prev: Seq<VTerm>, rs: Seq<RuleKind>, n: int) -> Term
    decreases rs, n,
{
    if n <= 1 || n > rs.len() {
        if rs.len() > 0 {
            rule_term(prev, rs[0])
        } else {
            t_zero()
        }
    } else {
        t_min(min_fold(prev, rs, n - 1), rule_term(prev, rs[n - 1]))
    }
}


/// The error of an equality between `a` and `b`.
pub fn eq_error(ar: &mut Arena, a: ComplexExpr, b: ComplexExpr) -> (out: usize)
    requires
        old(ar).wf(),
        c_valid(old(ar), a),
        c_valid(old(ar), b),
    ensures
        final(ar).wf(),
        keeps(old(ar), final(ar)),
        real_in(final(ar)@, out as int),
        tm(final(ar), out) == eq_term(ct(old(ar), a), ct(old(ar), b)),
{
    let ghost a0 = *ar;
    proof {
        lemma_keeps_refl(&a0);
    }
    let ghost at0 = *ar;
    let d = point_point_distance(ar, a, b);
    proof {
        lemma_keeps_trans(&a0, &at0, ar);
    }
    let ghost at1 = *ar;
    let f = ar.constant(FIVE_BITS);
    proof {
        lemma_keeps_trans(&a0, &at1, ar);
    }
    let ghost at2 = *ar;
    let r = ar.mul(d, f);
    proof {
        lemma_keeps_trans(&a0, &at2, ar);
    }
    r
}

/// The error of `a > b`.
#[verifier::rlimit(40)]
pub fn gt_error(ar: &mut Arena, a: usize, b: usize) -> (out: usize)
    requires
        old(ar).wf(),
        real_in(old(ar)@, a as int),
        real_in(old(ar)@, b as int),
    ensures
        final(ar).wf(),
        keeps(old(ar), final(ar)),
        real_in(final(ar)@, out as int),
        tm(final(ar), out) == gt_term(tm(old(ar), a), tm(old(ar), b)),
{
    let ghost a0 = *ar;
    proof {
        lemma_keeps_refl(&a0);
    }
    let ghost at0 = *ar;
    let t = ar.constant(TENTH_BITS);
    proof {
        lemma_keeps_trans(&a0, &at0, ar);
    }
    let ghost at1 = *ar;
    let ab = ar.abs(b);
    proof {
        lemma_keeps_trans(&a0, &at1, ar);
    }
    let ghost at2 = *ar;
    let s = ar.add(ab, t);
    proof {
        lemma_keeps_trans(&a0, &at2, ar);
    }
    let ghost at3 = *ar;
    let off = ar.mul(s, t);
    proof {
        lemma_keeps_trans(&a0, &at3, ar);
    }
    let ghost at4 = *ar;
    let th = ar.add(b, off);
    proof {
        lemma_keeps_trans(&a0, &at4, ar);
    }
    let ghost at5 = *ar;
    let d = ar.sub(a, th);
    proof {
        lemma_keeps_trans(&a0, &at5, ar);
    }
    let ghost at6 = *ar;
    let sq = ar.mul(d, d);
    proof {
        lemma_keeps_trans(&a0, &at6, ar);
    }
    let ghost at7 = *ar;
    let c = ar.compare(th, a, CompareKind::Gt);
    proof {
        lemma_keeps_trans(&a0, &at7, ar);
    }
    let ghost at8 = *ar;
    let r = ar.ternary(c, sq, ZERO);
    proof {
        lemma_keeps_trans(&a0, &at8, ar);
    }
    r
}

/// The error of an inverted rule whose own error is `e`.
pub fn invert_error(ar: &mut Arena, e: usize) -> (out: usize)
    requires
        old(ar).wf(),
        real_in(old(ar)@, e as int),
    ensures
        final(ar).wf(),
        keeps(old(ar), final(ar)),
        real_in(final(ar)@, out as int),
        tm(final(ar), out) == invert_term(tm(old(ar), e)),
{
    let ghost a0 = *ar;
    proof {
        lemma_keeps_refl(&a0);
    }
    let ghost at0 = *ar;
    let t = ar.constant(TEN_BITS);
    proof {
        lemma_keeps_trans(&a0, &at0, ar);
    }
    let ghost at1 = *ar;
    let m = ar.mul(t, e);
    proof {
        lemma_keeps_trans(&a0, &at1, ar);
    }
    let ghost at2 = *ar;
    let r = ar.div(ONE, m);
    proof {
        lemma_keeps_trans(&a0, &at2, ar);
    }
    r
}

/// The error of rule `r` over the values of the expressions.
#[verifier::rlimit(60)]
pub fn rule_error(ar: &mut Arena, vals: &Vec<ValueExpr>, r: &RuleKind) -> (out: usize)
    requires
        old(ar).wf(),
        all_valid(old(ar), vals@),
        rule_ok(vshapes(vals@), vals.len() as int, *r),
    ensures
        final(ar).wf(),
        keeps(old(ar), final(ar)),
        real_in(final(ar)@, out as int),
        tm(final(ar), out) == rule_term(vts(old(ar), vals@), *r),
    decreases r,
{
    let ghost a0 = *ar;
    proof {
        lemma_keeps_refl(ar);
    }
    match r {
        RuleKind::PointEq(a, b) | RuleKind::NumberEq(a, b) => {
            let x = complex_at(ar, vals, *a);
            let y = complex_at(ar, vals, *b);
            eq_error(ar, x, y)
        },
        RuleKind::Gt(a, b) => {
            let x = complex_at(ar, vals, *a);
            let y = complex_at(ar, vals, *b);
            gt_error(ar, x.real, y.real)
        },
        RuleKind::Alternative(rs) => {
            let ghost prev = vts(&a0, vals@);
            proof {
                assert forall|i: int| 0 <= i < rs.len() implies #[trigger] rule_ok(
                    vshapes(vals@),
                    vals.len() as int,
                    rs@[i],
                ) by {
                    lemma_alts_ok(vshapes(vals@), vals.len() as int, rs@, rs@.len() as int, i);
                }
                vstd::std_specs::vec::axiom_vec_index_decreases(*rs, 0);
                assert(decreases_to!(*r => *rs));
            }
            let mut acc = rule_error(ar, vals, &rs[0]);
            let mut j: usize = 1;
            while j < rs.len()
                invariant
                    1 <= j <= rs.len(),
                    ar.wf(),
                    a0.wf(),
                    keeps(&a0, ar),
                    all_valid(&a0, vals@),
                    prev == vts(&a0, vals@),
                    *r == RuleKind::Alternative(*rs),
                    decreases_to!(*r => *rs),
                    forall|i: int|
                        0 <= i < rs.len() ==> #[trigger] rule_ok(
                            vshapes(vals@),
                            vals.len() as int,
                            rs@[i],
                        ),
                    real_in(ar@, acc as int),
                    tm(ar, acc) == min_fold(prev, rs@, j as int),
                decreases rs.len() - j,
            {
                let ghost p = *ar;
                proof {
                    crate::lower::lemma_keeps_values(&a0, ar, vals@);
                    vstd::std_specs::vec::axiom_vec_index_decreases(*rs, j as int);
                }
                let e = rule_error(ar, vals, &rs[j]);
                let ghost q = *ar;
                proof {
                    lemma_keeps_trans(&a0, &p, ar);
                }
                acc = ar.min(acc, e);
                proof {
                    lemma_keeps_trans(&a0, &q, ar);
                    assert(min_fold(prev, rs@, j + 1) == t_min(
                        min_fold(prev, rs@, j as int),
                        rule_term(prev, rs@[j as int]),
                    ));
                }
                j = j + 1;
            }
            acc
        },
        RuleKind::Invert(q) => {
            let e = rule_error(ar, vals, q);
            let ghost p = *ar;
            let out = invert_error(ar, e);
            proof {
                lemma_keeps_trans(&a0, &p, ar);
            }
            out
        },
        RuleKind::Bias => ZERO,
    }
}

/// The error `e` scaled by the weight with bit pattern `w`.
pub fn weighted(ar: &mut Arena, e: usize, w: u64) -> (out: usize)
    requires
        old(ar).wf(),
        real_in(old(ar)@, e as int),
    ensures
        final(ar).wf(),
        keeps(old(ar), final(ar)),
        real_in(final(ar)@, out as int),
        tm(final(ar), out) == t_mul(tm(old(ar), e), Term::Const(w)),
{
    let ghost a0 = *ar;
    proof {
        lemma_keeps_refl(&a0);
    }
    let ghost at0 = *ar;
    let c = ar.constant(w);
    proof {
        lemma_keeps_trans(&a0, &at0, ar);
    }
    let ghost at1 = *ar;
    let r = ar.mul(e, c);
    proof {
        lemma_keeps_trans(&a0, &at1, ar);
    }
    r
}

} // verus!
