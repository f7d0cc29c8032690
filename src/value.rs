//! Complex numbers, lines and circles as pairs and triples of real handles.
use crate::expr::{bool_in, real_in, Arena, Node};
use crate::term::{
    lemma_keeps_refl, lemma_keeps_trans, keeps, t_add, t_atan2, t_cos, t_div, t_exp, t_log, t_mul,
    t_neg, t_pow, t_sin, t_sub, t_ternary, t_zero, tm, Term,
};
use vstd::prelude::*;

verus! {

/// Bit pattern of the `f64` value `0.5`.
pub const HALF_BITS: u64 = 0x3FE0_0000_0000_0000;

/// A complex value: handles of its real and imaginary parts.
#[derive(Clone, Copy, Debug, PartialEq, Eq, Structural)]
pub struct ComplexExpr {
    pub real: usize,
    pub imaginary: usize,
}

/// A line: an origin and a unit direction vector.
#[derive(Clone, Copy, Debug, PartialEq, Eq, Structural)]
pub struct LineExpr {
    pub origin: ComplexExpr,
    pub direction: ComplexExpr,
}

/// A circle: a center and a radius.
#[derive(Clone, Copy, Debug, PartialEq, Eq, Structural)]
pub struct CircleExpr {
    pub center: ComplexExpr,
    pub radius: usize,
}

/// A complex expression tree: real and imaginary part.
pub struct CTerm {
    pub re: Term,
    pub im: Term,
}

pub open spec fn cterm(re: Term, im: Term) -> CTerm {
    CTerm { re, im }
}

/// The trees of a complex value's parts.
pub open spec fn ct(a: &Arena, c: ComplexExpr) -> CTerm {
    cterm(tm(a, c.real), tm(a, c.imaginary))
}

/// Both parts are real handles of the arena.
pub open spec fn c_valid(a: &Arena, c: ComplexExpr) -> bool {
    real_in(a@, c.real as int) && real_in(a@, c.imaginary as int)
}

pub open spec fn l_valid(a: &Arena, l: LineExpr) -> bool {
    c_valid(a, l.origin) && c_valid(a, l.direction)
}

pub open spec fn circ_valid(a: &Arena, c: CircleExpr) -> bool {
    c_valid(a, c.center) && real_in(a@, c.radius as int)
}

pub open spec fn cx_real(r: Term) -> CTerm {
    cterm(r, t_zero())
}

pub open spec fn cx_add(x: CTerm, y: CTerm) -> CTerm {
    cterm(t_add(x.re, y.re), t_add(x.im, y.im))
}

pub open spec fn cx_sub(x: CTerm, y: CTerm) -> CTerm {
    cterm(t_sub(x.re, y.re), t_sub(x.im, y.im))
}

pub open spec fn cx_neg(x: CTerm) -> CTerm {
    cterm(t_neg(x.re), t_neg(x.im))
}

/// Multiplication by `i`.
pub open spec fn cx_mul_i(x: CTerm) -> CTerm {
    cterm(t_neg(x.im), x.re)
}

pub open spec fn cx_mul(x: CTerm, y: CTerm) -> CTerm {
    cterm(
        t_sub(t_mul(x.re, y.re), t_mul(x.im, y.im)),
        t_add(t_mul(x.re, y.im), t_mul(x.im, y.re)),
    )
}

/// Multiplication by a real.
pub open spec fn cx_scale(x: CTerm, r: Term) -> CTerm {
    cterm(t_mul(x.re, r), t_mul(x.im, r))
}

/// Division by a real.
pub open spec fn cx_div_real(x: CTerm, r: Term) -> CTerm {
    cterm(t_div(x.re, r), t_div(x.im, r))
}

/// `x / y = ((ac + bd) + (bc - ad) i) / (c^2 + d^2)` for `x = a + bi`, `y = c + di`.
pub open spec fn cx_div(x: CTerm, y: CTerm) -> CTerm {
    let den = t_add(t_mul(y.re, y.re), t_mul(y.im, y.im));
    cterm(
        t_div(t_add(t_mul(x.re, y.re), t_mul(x.im, y.im)), den),
        t_div(t_sub(t_mul(x.im, y.re), t_mul(x.re, y.im)), den),
    )
}

/// The magnitude `sqrt(a^2 + b^2)`.
pub open spec fn cx_abs(x: CTerm) -> Term {
    t_pow(t_add(t_mul(x.re, x.re), t_mul(x.im, x.im)), HALF_BITS)
}

/// The argument `atan2(b, a)`.
pub open spec fn cx_arg(x: CTerm) -> Term {
    t_atan2(x.im, x.re)
}

pub open spec fn cx_exp(x: CTerm) -> CTerm {
    cterm(t_mul(t_exp(x.re), t_cos(x.im)), t_mul(t_exp(x.re), t_sin(x.im)))
}

pub open spec fn cx_log(x: CTerm) -> CTerm {
    cterm(t_log(cx_abs(x)), cx_arg(x))
}

pub open spec fn t_cosh(b: Term) -> Term {
    t_mul(t_add(t_exp(b), t_exp(t_neg(b))), Term::Const(HALF_BITS))
}

pub open spec fn t_sinh(b: Term) -> Term {
    t_mul(t_sub(t_exp(b), t_exp(t_neg(b))), Term::Const(HALF_BITS))
}

pub open spec fn cx_sin(x: CTerm) -> CTerm {
    cterm(t_mul(t_sin(x.re), t_cosh(x.im)), t_mul(t_cos(x.re), t_sinh(x.im)))
}

pub open spec fn cx_cos(x: CTerm) -> CTerm {
    cterm(t_mul(t_cos(x.re), t_cosh(x.im)), t_neg(t_mul(t_sin(x.re), t_sinh(x.im))))
}

/// `x^y = exp(y log x)`.
pub open spec fn cx_pow(x: CTerm, y: CTerm) -> CTerm {
    cx_exp(cx_mul(y, cx_log(x)))
}

pub open spec fn cx_ternary(c: Term, x: CTerm, y: CTerm) -> CTerm {
    cterm(t_ternary(c, x.re, y.re), t_ternary(c, x.im, y.im))
}

impl ComplexExpr {
    /// The complex number with real part `r` and imaginary part zero.
    pub fn from_real(r: usize) -> (c: ComplexExpr)
        ensures
            c.real == r,
            c.imaginary == crate::expr::ZERO,
    {
        ComplexExpr { real: r, imaginary: crate::expr::ZERO }
    }
}

/// The sum of two complex values.
pub fn c_add(ar: &mut Arena, a: ComplexExpr, b: ComplexExpr) -> (out: ComplexExpr)
    requires
        old(ar).wf(),
        c_valid(old(ar), a),
        c_valid(old(ar), b),
    ensures
        final(ar).wf(),
        keeps(old(ar), final(ar)),
        c_valid(final(ar), out),
        ct(final(ar), out) == cx_add(ct(old(ar), a), ct(old(ar), b)),
{
    let ghost a0 = *ar;
    proof {
        lemma_keeps_refl(&a0);
    }
    let ghost at0 = *ar;
    let re = ar.add(a.real, b.real);
    proof {
        lemma_keeps_trans(&a0, &at0, ar);
    }
    let ghost at1 = *ar;
    let im = ar.add(a.imaginary, b.imaginary);
    proof {
        lemma_keeps_trans(&a0, &at1, ar);
    }
    ComplexExpr { real: re, imaginary: im }
}

/// The difference of two complex values.
pub fn c_sub(ar: &mut Arena, a: ComplexExpr, b: ComplexExpr) -> (out: ComplexExpr)
    requires
        old(ar).wf(),
        c_valid(old(ar), a),
        c_valid(old(ar), b),
    ensures
        final(ar).wf(),
        keeps(old(ar), final(ar)),
        c_valid(final(ar), out),
        ct(final(ar), out) == cx_sub(ct(old(ar), a), ct(old(ar), b)),
{
    let ghost a0 = *ar;
    proof {
        lemma_keeps_refl(&a0);
    }
    let ghost at0 = *ar;
    let re = ar.sub(a.real, b.real);
    proof {
        lemma_keeps_trans(&a0, &at0, ar);
    }
    let ghost at1 = *ar;
    let im = ar.sub(a.imaginary, b.imaginary);
    proof {
        lemma_keeps_trans(&a0, &at1, ar);
    }
    ComplexExpr { real: re, imaginary: im }
}

/// The negation of a complex value.
pub fn c_neg(ar: &mut Arena, a: ComplexExpr) -> (out: ComplexExpr)
    requires
        old(ar).wf(),
        c_valid(old(ar), a),
    ensures
        final(ar).wf(),
        keeps(old(ar), final(ar)),
        c_valid(final(ar), out),
        ct(final(ar), out) == cx_neg(ct(old(ar), a)),
{
    let ghost a0 = *ar;
    proof {
        lemma_keeps_refl(&a0);
    }
    let ghost at0 = *ar;
    let re = ar.neg(a.real);
    proof {
        lemma_keeps_trans(&a0, &at0, ar);
    }
    let ghost at1 = *ar;
    let im = ar.neg(a.imaginary);
    proof {
        lemma_keeps_trans(&a0, &at1, ar);
    }
    ComplexExpr { real: re, imaginary: im }
}

/// A complex value multiplied by `i`.
pub fn c_mul_i(ar: &mut Arena, a: ComplexExpr) -> (out: ComplexExpr)
    requires
        old(ar).wf(),
        c_valid(old(ar), a),
    ensures
        final(ar).wf(),
        keeps(old(ar), final(ar)),
        c_valid(final(ar), out),
        ct(final(ar), out) == cx_mul_i(ct(old(ar), a)),
{
    let ghost a0 = *ar;
    proof {
        lemma_keeps_refl(&a0);
    }
    let ghost at0 = *ar;
    let re = ar.neg(a.imaginary);
    proof {
        lemma_keeps_trans(&a0, &at0, ar);
    }
    ComplexExpr { real: re, imaginary: a.real }
}

/// The product of two complex values.
pub fn c_mul(ar: &mut Arena, a: ComplexExpr, b: ComplexExpr) -> (out: ComplexExpr)
    requires
        old(ar).wf(),
        c_valid(old(ar), a),
        c_valid(old(ar), b),
    ensures
        final(ar).wf(),
        keeps(old(ar), final(ar)),
        c_valid(final(ar), out),
        ct(final(ar), out) == cx_mul(ct(old(ar), a), ct(old(ar), b)),
{
    let ghost a0 = *ar;
    proof {
        lemma_keeps_refl(&a0);
    }
    let ghost at0 = *ar;
    let ac = ar.mul(a.real, b.real);
    proof {
        lemma_keeps_trans(&a0, &at0, ar);
    }
    let ghost at1 = *ar;
    let bd = ar.mul(a.imaginary, b.imaginary);
    proof {
        lemma_keeps_trans(&a0, &at1, ar);
    }
    let ghost at2 = *ar;
    let re = ar.sub(ac, bd);
    proof {
        lemma_keeps_trans(&a0, &at2, ar);
    }
    let ghost at3 = *ar;
    let ad = ar.mul(a.real, b.imaginary);
    proof {
        lemma_keeps_trans(&a0, &at3, ar);
    }
    let ghost at4 = *ar;
    let bc = ar.mul(a.imaginary, b.real);
    proof {
        lemma_keeps_trans(&a0, &at4, ar);
    }
    let ghost at5 = *ar;
    let im = ar.add(ad, bc);
    proof {
        lemma_keeps_trans(&a0, &at5, ar);
    }
    ComplexExpr { real: re, imaginary: im }
}

/// A complex value multiplied by a real.
pub fn c_scale(ar: &mut Arena, a: ComplexExpr, r: usize) -> (out: ComplexExpr)
    requires
        old(ar).wf(),
        c_valid(old(ar), a),
        real_in(old(ar)@, r as int),
    ensures
        final(ar).wf(),
        keeps(old(ar), final(ar)),
        c_valid(final(ar), out),
        ct(final(ar), out) == cx_scale(ct(old(ar), a), tm(old(ar), r)),
{
    let ghost a0 = *ar;
    proof {
        lemma_keeps_refl(&a0);
    }
    let ghost at0 = *ar;
    let re = ar.mul(a.real, r);
    proof {
        lemma_keeps_trans(&a0, &at0, ar);
    }
    let ghost at1 = *ar;
    let im = ar.mul(a.imaginary, r);
    proof {
        lemma_keeps_trans(&a0, &at1, ar);
    }
    ComplexExpr { real: re, imaginary: im }
}

/// A complex value divided by a real.
pub fn c_div_real(ar: &mut Arena, a: ComplexExpr, r: usize) -> (out: ComplexExpr)
    requires
        old(ar).wf(),
        c_valid(old(ar), a),
        real_in(old(ar)@, r as int),
    ensures
        final(ar).wf(),
        keeps(old(ar), final(ar)),
        c_valid(final(ar), out),
        ct(final(ar), out) == cx_div_real(ct(old(ar), a), tm(old(ar), r)),
{
    let ghost a0 = *ar;
    proof {
        lemma_keeps_refl(&a0);
    }
    let ghost at0 = *ar;
    let re = ar.div(a.real, r);
    proof {
        lemma_keeps_trans(&a0, &at0, ar);
    }
    let ghost at1 = *ar;
    let im = ar.div(a.imaginary, r);
    proof {
        lemma_keeps_trans(&a0, &at1, ar);
    }
    ComplexExpr { real: re, imaginary: im }
}

/// The quotient of two complex values.
#[verifier::rlimit(80)]
pub fn c_div(ar: &mut Arena, a: ComplexExpr, b: ComplexExpr) -> (out: ComplexExpr)
    requires
        old(ar).wf(),
        c_valid(old(ar), a),
        c_valid(old(ar), b),
    ensures
        final(ar).wf(),
        keeps(old(ar), final(ar)),
        c_valid(final(ar), out),
        ct(final(ar), out) == cx_div(ct(old(ar), a), ct(old(ar), b)),
{
    let ghost a0 = *ar;
    proof {
        lemma_keeps_refl(&a0);
    }
    let ghost at0 = *ar;
    let cc = ar.mul(b.real, b.real);
    proof {
        lemma_keeps_trans(&a0, &at0, ar);
    }
    let ghost at1 = *ar;
    let dd = ar.mul(b.imaginary, b.imaginary);
    proof {
        lemma_keeps_trans(&a0, &at1, ar);
    }
    let ghost at2 = *ar;
    let den = ar.add(cc, dd);
    proof {
        lemma_keeps_trans(&a0, &at2, ar);
    }
    let ghost at3 = *ar;
    let ac = ar.mul(a.real, b.real);
    proof {
        lemma_keeps_trans(&a0, &at3, ar);
    }
    let ghost at4 = *ar;
    let bd = ar.mul(a.imaginary, b.imaginary);
    proof {
        lemma_keeps_trans(&a0, &at4, ar);
    }
    let ghost at5 = *ar;
    let ac_bd = ar.add(ac, bd);
    proof {
        lemma_keeps_trans(&a0, &at5, ar);
    }
    let ghost at6 = *ar;
    let re = ar.div(ac_bd, den);
    proof {
        lemma_keeps_trans(&a0, &at6, ar);
    }
    let ghost at7 = *ar;
    let bc = ar.mul(a.imaginary, b.real);
    proof {
        lemma_keeps_trans(&a0, &at7, ar);
    }
    let ghost at8 = *ar;
    let ad = ar.mul(a.real, b.imaginary);
    proof {
        lemma_keeps_trans(&a0, &at8, ar);
    }
    let ghost at9 = *ar;
    let bc_ad = ar.sub(bc, ad);
    proof {
        lemma_keeps_trans(&a0, &at9, ar);
    }
    let ghost at10 = *ar;
    let im = ar.div(bc_ad, den);
    proof {
        lemma_keeps_trans(&a0, &at10, ar);
    }
    ComplexExpr { real: re, imaginary: im }
}

/// The magnitude of a complex value.
pub fn c_abs(ar: &mut Arena, a: ComplexExpr) -> (out: usize)
    requires
        old(ar).wf(),
        c_valid(old(ar), a),
    ensures
        final(ar).wf(),
        keeps(old(ar), final(ar)),
        real_in(final(ar)@, out as int),
        tm(final(ar), out) == cx_abs(ct(old(ar), a)),
{
    let ghost a0 = *ar;
    proof {
        lemma_keeps_refl(&a0);
    }
    let ghost at0 = *ar;
    let aa = ar.mul(a.real, a.real);
    proof {
        lemma_keeps_trans(&a0, &at0, ar);
    }
    let ghost at1 = *ar;
    let bb = ar.mul(a.imaginary, a.imaginary);
    proof {
        lemma_keeps_trans(&a0, &at1, ar);
    }
    let ghost at2 = *ar;
    let sum = ar.add(aa, bb);
    proof {
        lemma_keeps_trans(&a0, &at2, ar);
    }
    let ghost at3 = *ar;
    let r = ar.pow(sum, HALF_BITS);
    proof {
        lemma_keeps_trans(&a0, &at3, ar);
    }
    r
}

/// The argument of a complex value.
pub fn c_arg(ar: &mut Arena, a: ComplexExpr) -> (out: usize)
    requires
        old(ar).wf(),
        c_valid(old(ar), a),
    ensures
        final(ar).wf(),
        keeps(old(ar), final(ar)),
        real_in(final(ar)@, out as int),
        tm(final(ar), out) == cx_arg(ct(old(ar), a)),
{
    let ghost a0 = *ar;
    proof {
        lemma_keeps_refl(&a0);
    }
    let ghost at0 = *ar;
    let r = ar.atan2(a.imaginary, a.real);
    proof {
        lemma_keeps_trans(&a0, &at0, ar);
    }
    r
}

/// The complex exponential.
pub fn c_exp(ar: &mut Arena, a: ComplexExpr) -> (out: ComplexExpr)
    requires
        old(ar).wf(),
        c_valid(old(ar), a),
    ensures
        final(ar).wf(),
        keeps(old(ar), final(ar)),
        c_valid(final(ar), out),
        ct(final(ar), out) == cx_exp(ct(old(ar), a)),
{
    let ghost a0 = *ar;
    proof {
        lemma_keeps_refl(&a0);
    }
    let ghost at0 = *ar;
    let e = ar.exp(a.real);
    proof {
        lemma_keeps_trans(&a0, &at0, ar);
    }
    let ghost at1 = *ar;
    let cs = ar.cos(a.imaginary);
    proof {
        lemma_keeps_trans(&a0, &at1, ar);
    }
    let ghost at2 = *ar;
    let re = ar.mul(e, cs);
    proof {
        lemma_keeps_trans(&a0, &at2, ar);
    }
    let ghost at3 = *ar;
    let sn = ar.sin(a.imaginary);
    proof {
        lemma_keeps_trans(&a0, &at3, ar);
    }
    let ghost at4 = *ar;
    let im = ar.mul(e, sn);
    proof {
        lemma_keeps_trans(&a0, &at4, ar);
    }
    ComplexExpr { real: re, imaginary: im }
}

/// The principal complex logarithm.
pub fn c_log(ar: &mut Arena, a: ComplexExpr) -> (out: ComplexExpr)
    requires
        old(ar).wf(),
        c_valid(old(ar), a),
    ensures
        final(ar).wf(),
        keeps(old(ar), final(ar)),
        c_valid(final(ar), out),
        ct(final(ar), out) == cx_log(ct(old(ar), a)),
{
    let ghost a0 = *ar;
    proof {
        lemma_keeps_refl(&a0);
    }
    let ghost at0 = *ar;
    let m = c_abs(ar, a);
    proof {
        lemma_keeps_trans(&a0, &at0, ar);
    }
    let ghost at1 = *ar;
    let re = ar.log(m);
    proof {
        lemma_keeps_trans(&a0, &at1, ar);
    }
    let ghost at2 = *ar;
    let im = c_arg(ar, a);
    proof {
        lemma_keeps_trans(&a0, &at2, ar);
    }
    ComplexExpr { real: re, imaginary: im }
}

/// The complex sine.
#[verifier::rlimit(80)]
pub fn c_sin(ar: &mut Arena, a: ComplexExpr) -> (out: ComplexExpr)
    requires
        old(ar).wf(),
        c_valid(old(ar), a),
    ensures
        final(ar).wf(),
        keeps(old(ar), final(ar)),
        c_valid(final(ar), out),
        ct(final(ar), out) == cx_sin(ct(old(ar), a)),
{
    let ghost a0 = *ar;
    proof {
        lemma_keeps_refl(&a0);
    }
    let ghost at0 = *ar;
    let half = ar.constant(HALF_BITS);
    proof {
        lemma_keeps_trans(&a0, &at0, ar);
    }
    let ghost at1 = *ar;
    let eb = ar.exp(a.imaginary);
    proof {
        lemma_keeps_trans(&a0, &at1, ar);
    }
    let ghost at2 = *ar;
    let nb = ar.neg(a.imaginary);
    proof {
        lemma_keeps_trans(&a0, &at2, ar);
    }
    let ghost at3 = *ar;
    let enb = ar.exp(nb);
    proof {
        lemma_keeps_trans(&a0, &at3, ar);
    }
    let ghost at4 = *ar;
    let s1 = ar.add(eb, enb);
    proof {
        lemma_keeps_trans(&a0, &at4, ar);
    }
    let ghost at5 = *ar;
    let ch = ar.mul(s1, half);
    proof {
        lemma_keeps_trans(&a0, &at5, ar);
    }
    let ghost at6 = *ar;
    let s2 = ar.sub(eb, enb);
    proof {
        lemma_keeps_trans(&a0, &at6, ar);
    }
    let ghost at7 = *ar;
    let sh = ar.mul(s2, half);
    proof {
        lemma_keeps_trans(&a0, &at7, ar);
    }
    let ghost at8 = *ar;
    let sa = ar.sin(a.real);
    proof {
        lemma_keeps_trans(&a0, &at8, ar);
    }
    let ghost at9 = *ar;
    let re = ar.mul(sa, ch);
    proof {
        lemma_keeps_trans(&a0, &at9, ar);
    }
    let ghost at10 = *ar;
    let ca = ar.cos(a.real);
    proof {
        lemma_keeps_trans(&a0, &at10, ar);
    }
    let ghost at11 = *ar;
    let im = ar.mul(ca, sh);
    proof {
        lemma_keeps_trans(&a0, &at11, ar);
    }
    ComplexExpr { real: re, imaginary: im }
}

/// The complex cosine.
#[verifier::rlimit(80)]
pub fn c_cos(ar: &mut Arena, a: ComplexExpr) -> (out: ComplexExpr)
    requires
        old(ar).wf(),
        c_valid(old(ar), a),
    ensures
        final(ar).wf(),
        keeps(old(ar), final(ar)),
        c_valid(final(ar), out),
        ct(final(ar), out) == cx_cos(ct(old(ar), a)),
{
    let ghost a0 = *ar;
    proof {
        lemma_keeps_refl(&a0);
    }
    let ghost at0 = *ar;
    let half = ar.constant(HALF_BITS);
    proof {
        lemma_keeps_trans(&a0, &at0, ar);
    }
    let ghost at1 = *ar;
    let eb = ar.exp(a.imaginary);
    proof {
        lemma_keeps_trans(&a0, &at1, ar);
    }
    let ghost at2 = *ar;
    let nb = ar.neg(a.imaginary);
    proof {
        lemma_keeps_trans(&a0, &at2, ar);
    }
    let ghost at3 = *ar;
    let enb = ar.exp(nb);
    proof {
        lemma_keeps_trans(&a0, &at3, ar);
    }
    let ghost at4 = *ar;
    let s1 = ar.add(eb, enb);
    proof {
        lemma_keeps_trans(&a0, &at4, ar);
    }
    let ghost at5 = *ar;
    let ch = ar.mul(s1, half);
    proof {
        lemma_keeps_trans(&a0, &at5, ar);
    }
    let ghost at6 = *ar;
    let s2 = ar.sub(eb, enb);
    proof {
        lemma_keeps_trans(&a0, &at6, ar);
    }
    let ghost at7 = *ar;
    let sh = ar.mul(s2, half);
    proof {
        lemma_keeps_trans(&a0, &at7, ar);
    }
    let ghost at8 = *ar;
    let ca = ar.cos(a.real);
    proof {
        lemma_keeps_trans(&a0, &at8, ar);
    }
    let ghost at9 = *ar;
    let re = ar.mul(ca, ch);
    proof {
        lemma_keeps_trans(&a0, &at9, ar);
    }
    let ghost at10 = *ar;
    let sa = ar.sin(a.real);
    proof {
        lemma_keeps_trans(&a0, &at10, ar);
    }
    let ghost at11 = *ar;
    let p = ar.mul(sa, sh);
    proof {
        lemma_keeps_trans(&a0, &at11, ar);
    }
    let ghost at12 = *ar;
    let im = ar.neg(p);
    proof {
        lemma_keeps_trans(&a0, &at12, ar);
    }
    ComplexExpr { real: re, imaginary: im }
}

/// A complex value raised to a complex power.
pub fn c_pow(ar: &mut Arena, a: ComplexExpr, b: ComplexExpr) -> (out: ComplexExpr)
    requires
        old(ar).wf(),
        c_valid(old(ar), a),
        c_valid(old(ar), b),
    ensures
        final(ar).wf(),
        keeps(old(ar), final(ar)),
        c_valid(final(ar), out),
        ct(final(ar), out) == cx_pow(ct(old(ar), a), ct(old(ar), b)),
{
    let ghost a0 = *ar;
    proof {
        lemma_keeps_refl(&a0);
    }
    let ghost at0 = *ar;
    let l = c_log(ar, a);
    proof {
        lemma_keeps_trans(&a0, &at0, ar);
    }
    let ghost at1 = *ar;
    let m = c_mul(ar, b, l);
    proof {
        lemma_keeps_trans(&a0, &at1, ar);
    }
    let ghost at2 = *ar;
    let r = c_exp(ar, m);
    proof {
        lemma_keeps_trans(&a0, &at2, ar);
    }
    r
}

/// Selects `a` when `c` holds, else `b`, part by part.
pub fn c_ternary(ar: &mut Arena, c: usize, a: ComplexExpr, b: ComplexExpr) -> (out: ComplexExpr)
    requires
        old(ar).wf(),
        bool_in(old(ar)@, c as int),
        c_valid(old(ar), a),
        c_valid(old(ar), b),
    ensures
        final(ar).wf(),
        keeps(old(ar), final(ar)),
        c_valid(final(ar), out),
        ct(final(ar), out) == cx_ternary(tm(old(ar), c), ct(old(ar), a), ct(old(ar), b)),
{
    let ghost a0 = *ar;
    proof {
        lemma_keeps_refl(&a0);
    }
    let ghost at0 = *ar;
    let re = ar.ternary(c, a.real, b.real);
    proof {
        lemma_keeps_trans(&a0, &at0, ar);
    }
    let ghost at1 = *ar;
    let im = ar.ternary(c, a.imaginary, b.imaginary);
    proof {
        lemma_keeps_trans(&a0, &at1, ar);
    }
    ComplexExpr { real: re, imaginary: im }
}

} // verus!
