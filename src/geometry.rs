//! Closed forms of the geometric constructions over complex values.
use crate::expr::{real_in, Arena, CompareKind, ZERO};
use crate::term::{
    keeps, lemma_keeps_refl, lemma_keeps_trans, t_abs, t_acos, t_add, t_cmp, t_cos, t_div, t_mul,
    t_sin, t_zero, tm, Term,
};
use crate::value::{
    c_abs, c_add, c_arg, c_div, c_div_real, c_mul, c_mul_i, c_neg, c_scale, c_sub, c_ternary,
    c_valid, circ_valid, ct, cterm, cx_abs, cx_add, cx_arg, cx_div, cx_div_real, cx_mul, cx_mul_i,
    cx_neg, cx_scale, cx_sub, cx_ternary, l_valid, CTerm, CircleExpr, ComplexExpr, LineExpr,
};
use vstd::prelude::*;

verus! {

/// Bit pattern of the `f64` value nearest to `2 * pi`.
pub const TWO_PI_BITS: u64 = 0x4019_21FB_5444_2D18;

/// The point at position `t` along a line: `origin + t * direction`.
pub open spec fn on_line_term(o: CTerm, d: CTerm, t: Term) -> CTerm {
    cx_add(o, cx_scale(d, t))
}

/// The point at turn `t` around a circle: `center + radius * (cos 2 pi t + i sin 2 pi t)`.
pub open spec fn on_circle_term(c: CTerm, r: Term, t: Term) -> CTerm {
    let th = t_mul(t, Term::Const(TWO_PI_BITS));
    cx_add(cx_scale(cterm(t_cos(th), t_sin(th)), r), c)
}

/// `k.origin - k.direction * Im((k.origin - l.origin) / l.direction) / Im(k.direction / l.direction)`.
pub open spec fn intersection_term(ko: CTerm, kd: CTerm, lo: CTerm, ld: CTerm) -> CTerm {
    cx_sub(ko, cx_scale(kd, t_div(cx_div(cx_sub(ko, lo), ld).im, cx_div(kd, ld).im)))
}

/// `|Im((p - origin) / direction)|`.
pub open spec fn point_line_distance_term(p: CTerm, o: CTerm, d: CTerm) -> Term {
    t_abs(cx_div(cx_sub(p, o), d).im)
}

/// `acos(<a - b, c - b> / (|a - b| |c - b|))`.
pub open spec fn angle_term(a: CTerm, b: CTerm, c: CTerm) -> Term {
    let u = cx_sub(a, b);
    let v = cx_sub(c, b);
    t_acos(t_div(t_add(t_mul(u.re, v.re), t_mul(u.im, v.im)), t_mul(cx_abs(u), cx_abs(v))))
}

/// `arg((c - b) / (a - b))`.
pub open spec fn angle_dir_term(a: CTerm, b: CTerm, c: CTerm) -> Term {
    cx_arg(cx_div(cx_sub(c, b), cx_sub(a, b)))
}

/// `|arg(k / l)|` for direction vectors `k` and `l`.
pub open spec fn line_angle_term(kd: CTerm, ld: CTerm) -> Term {
    t_abs(cx_arg(cx_div(kd, ld)))
}

/// The unit vector along `v`.
pub open spec fn normalize_term(v: CTerm) -> CTerm {
    cx_div_real(v, cx_abs(v))
}

/// The direction of the bisector of the angle between arms `a - b` and `c - b`:
/// the normalized square root of `z = (a - b)(c - b)` up to its length, taken
/// as `normalize(z + |z|)` when `Re z > 0`, else as `i normalize(-z + |z|)`.
pub open spec fn bisector_dir_term(a: CTerm, b: CTerm, c: CTerm) -> CTerm {
    let z = cx_mul(cx_sub(a, b), cx_sub(c, b));
    let cond = t_cmp(z.re, t_zero(), CompareKind::Gt);
    let w = cx_ternary(cond, z, cx_neg(z));
    let n = normalize_term(cterm(t_add(w.re, cx_abs(w)), w.im));
    cx_ternary(cond, n, cx_mul_i(n))
}

/// The point at position `t` along line `l`.
pub fn point_on_line(ar: &mut Arena, l: LineExpr, t: usize) -> (out: ComplexExpr)
    requires
        old(ar).wf(),
        l_valid(old(ar), l),
        real_in(old(ar)@, t as int),
    ensures
        final(ar).wf(),
        keeps(old(ar), final(ar)),
        c_valid(final(ar), out),
        ct(final(ar), out) == on_line_term(ct(old(ar), l.origin), ct(old(ar), l.direction), tm(old(ar), t)),
{
    let ghost a0 = *ar;
    proof {
        lemma_keeps_refl(&a0);
    }
    let ghost at0 = *ar;
    let s = c_scale(ar, l.direction, t);
    proof {
        lemma_keeps_trans(&a0, &at0, ar);
    }
    let ghost at1 = *ar;
    let r = c_add(ar, l.origin, s);
    proof {
        lemma_keeps_trans(&a0, &at1, ar);
    }
    r
}

/// The point at turn `t` around circle `c`.
#[verifier::rlimit(40)]
pub fn point_on_circle(ar: &mut Arena, c: CircleExpr, t: usize) -> (out: ComplexExpr)
    requires
        old(ar).wf(),
        circ_valid(old(ar), c),
        real_in(old(ar)@, t as int),
    ensures
        final(ar).wf(),
        keeps(old(ar), final(ar)),
        c_valid(final(ar), out),
        ct(final(ar), out) == on_circle_term(ct(old(ar), c.center), tm(old(ar), c.radius), tm(old(ar), t)),
{
    let ghost a0 = *ar;
    proof {
        lemma_keeps_refl(&a0);
    }
    let ghost at0 = *ar;
    let tp = ar.constant(TWO_PI_BITS);
    proof {
        lemma_keeps_trans(&a0, &at0, ar);
    }
    let ghost at1 = *ar;
    let th = ar.mul(t, tp);
    proof {
        lemma_keeps_trans(&a0, &at1, ar);
    }
    let ghost at2 = *ar;
    let co = ar.cos(th);
    proof {
        lemma_keeps_trans(&a0, &at2, ar);
    }
    let ghost at3 = *ar;
    let si = ar.sin(th);
    proof {
        lemma_keeps_trans(&a0, &at3, ar);
    }
    let ghost at4 = *ar;
    let rel = c_scale(ar, ComplexExpr { real: co, imaginary: si }, c.radius);
    proof {
        lemma_keeps_trans(&a0, &at4, ar);
    }
    let ghost at5 = *ar;
    let r = c_add(ar, rel, c.center);
    proof {
        lemma_keeps_trans(&a0, &at5, ar);
    }
    r
}

/// The common point of lines `k` and `l`.
#[verifier::rlimit(40)]
pub fn intersection(ar: &mut Arena, k: LineExpr, l: LineExpr) -> (out: ComplexExpr)
    requires
        old(ar).wf(),
        l_valid(old(ar), k),
        l_valid(old(ar), l),
    ensures
        final(ar).wf(),
        keeps(old(ar), final(ar)),
        c_valid(final(ar), out),
        ct(final(ar), out) == intersection_term(ct(old(ar), k.origin), ct(old(ar), k.direction), ct(old(ar), l.origin), ct(old(ar), l.direction)),
{
    let ghost a0 = *ar;
    proof {
        lemma_keeps_refl(&a0);
    }
    let ghost at0 = *ar;
    let bd = c_div(ar, k.direction, l.direction);
    proof {
        lemma_keeps_trans(&a0, &at0, ar);
    }
    let ghost at1 = *ar;
    let ac = c_sub(ar, k.origin, l.origin);
    proof {
        lemma_keeps_trans(&a0, &at1, ar);
    }
    let ghost at2 = *ar;
    let q = c_div(ar, ac, l.direction);
    proof {
        lemma_keeps_trans(&a0, &at2, ar);
    }
    let ghost at3 = *ar;
    let quot = ar.div(q.imaginary, bd.imaginary);
    proof {
        lemma_keeps_trans(&a0, &at3, ar);
    }
    let ghost at4 = *ar;
    let bt = c_scale(ar, k.direction, quot);
    proof {
        lemma_keeps_trans(&a0, &at4, ar);
    }
    let ghost at5 = *ar;
    let r = c_sub(ar, k.origin, bt);
    proof {
        lemma_keeps_trans(&a0, &at5, ar);
    }
    r
}

/// The distance between points `p` and `q`.
pub fn point_point_distance(ar: &mut Arena, p: ComplexExpr, q: ComplexExpr) -> (out: usize)
    requires
        old(ar).wf(),
        c_valid(old(ar), p),
        c_valid(old(ar), q),
    ensures
        final(ar).wf(),
        keeps(old(ar), final(ar)),
        real_in(final(ar)@, out as int),
        tm(final(ar), out) == cx_abs(cx_sub(ct(old(ar), p), ct(old(ar), q))),
{
    let ghost a0 = *ar;
    proof {
        lemma_keeps_refl(&a0);
    }
    let ghost at0 = *ar;
    let d = c_sub(ar, p, q);
    proof {
        lemma_keeps_trans(&a0, &at0, ar);
    }
    let ghost at1 = *ar;
    let r = c_abs(ar, d);
    proof {
        lemma_keeps_trans(&a0, &at1, ar);
    }
    r
}

/// The distance between point `p` and line `l`.
pub fn point_line_distance(ar: &mut Arena, p: ComplexExpr, l: LineExpr) -> (out: usize)
    requires
        old(ar).wf(),
        c_valid(old(ar), p),
        l_valid(old(ar), l),
    ensures
        final(ar).wf(),
        keeps(old(ar), final(ar)),
        real_in(final(ar)@, out as int),
        tm(final(ar), out) == point_line_distance_term(ct(old(ar), p), ct(old(ar), l.origin), ct(old(ar), l.direction)),
{
    let ghost a0 = *ar;
    proof {
        lemma_keeps_refl(&a0);
    }
    let ghost at0 = *ar;
    let d = c_sub(ar, p, l.origin);
    proof {
        lemma_keeps_trans(&a0, &at0, ar);
    }
    let ghost at1 = *ar;
    let q = c_div(ar, d, l.direction);
    proof {
        lemma_keeps_trans(&a0, &at1, ar);
    }
    let ghost at2 = *ar;
    let r = ar.abs(q.imaginary);
    proof {
        lemma_keeps_trans(&a0, &at2, ar);
    }
    r
}

/// The undirected angle `abc`.
#[verifier::rlimit(40)]
pub fn angle(ar: &mut Arena, a: ComplexExpr, b: ComplexExpr, c: ComplexExpr) -> (out: usize)
    requires
        old(ar).wf(),
        c_valid(old(ar), a),
        c_valid(old(ar), b),
        c_valid(old(ar), c),
    ensures
        final(ar).wf(),
        keeps(old(ar), final(ar)),
        real_in(final(ar)@, out as int),
        tm(final(ar), out) == angle_term(ct(old(ar), a), ct(old(ar), b), ct(old(ar), c)),
{
    let ghost a0 = *ar;
    proof {
        lemma_keeps_refl(&a0);
    }
    let ghost at0 = *ar;
    let u = c_sub(ar, a, b);
    proof {
        lemma_keeps_trans(&a0, &at0, ar);
    }
    let ghost at1 = *ar;
    let v = c_sub(ar, c, b);
    proof {
        lemma_keeps_trans(&a0, &at1, ar);
    }
    let ghost at2 = *ar;
    let m1 = c_abs(ar, u);
    proof {
        lemma_keeps_trans(&a0, &at2, ar);
    }
    let ghost at3 = *ar;
    let m2 = c_abs(ar, v);
    proof {
        lemma_keeps_trans(&a0, &at3, ar);
    }
    let ghost at4 = *ar;
    let mag = ar.mul(m1, m2);
    proof {
        lemma_keeps_trans(&a0, &at4, ar);
    }
    let ghost at5 = *ar;
    let x = ar.mul(u.real, v.real);
    proof {
        lemma_keeps_trans(&a0, &at5, ar);
    }
    let ghost at6 = *ar;
    let y = ar.mul(u.imaginary, v.imaginary);
    proof {
        lemma_keeps_trans(&a0, &at6, ar);
    }
    let ghost at7 = *ar;
    let dot = ar.add(x, y);
    proof {
        lemma_keeps_trans(&a0, &at7, ar);
    }
    let ghost at8 = *ar;
    let quo = ar.div(dot, mag);
    proof {
        lemma_keeps_trans(&a0, &at8, ar);
    }
    let ghost at9 = *ar;
    let r = ar.acos(quo);
    proof {
        lemma_keeps_trans(&a0, &at9, ar);
    }
    r
}

/// The directed angle `abc`.
pub fn angle_dir(ar: &mut Arena, a: ComplexExpr, b: ComplexExpr, c: ComplexExpr) -> (out: usize)
    requires
        old(ar).wf(),
        c_valid(old(ar), a),
        c_valid(old(ar), b),
        c_valid(old(ar), c),
    ensures
        final(ar).wf(),
        keeps(old(ar), final(ar)),
        real_in(final(ar)@, out as int),
        tm(final(ar), out) == angle_dir_term(ct(old(ar), a), ct(old(ar), b), ct(old(ar), c)),
{
    let ghost a0 = *ar;
    proof {
        lemma_keeps_refl(&a0);
    }
    let ghost at0 = *ar;
    let u = c_sub(ar, a, b);
    proof {
        lemma_keeps_trans(&a0, &at0, ar);
    }
    let ghost at1 = *ar;
    let v = c_sub(ar, c, b);
    proof {
        lemma_keeps_trans(&a0, &at1, ar);
    }
    let ghost at2 = *ar;
    let rot = c_div(ar, v, u);
    proof {
        lemma_keeps_trans(&a0, &at2, ar);
    }
    let ghost at3 = *ar;
    let r = c_arg(ar, rot);
    proof {
        lemma_keeps_trans(&a0, &at3, ar);
    }
    r
}

/// The angle between lines `k` and `l`.
pub fn line_angle(ar: &mut Arena, k: LineExpr, l: LineExpr) -> (out: usize)
    requires
        old(ar).wf(),
        l_valid(old(ar), k),
        l_valid(old(ar), l),
    ensures
        final(ar).wf(),
        keeps(old(ar), final(ar)),
        real_in(final(ar)@, out as int),
        tm(final(ar), out) == line_angle_term(ct(old(ar), k.direction), ct(old(ar), l.direction)),
{
    let ghost a0 = *ar;
    proof {
        lemma_keeps_refl(&a0);
    }
    let ghost at0 = *ar;
    let q = c_div(ar, k.direction, l.direction);
    proof {
        lemma_keeps_trans(&a0, &at0, ar);
    }
    let ghost at1 = *ar;
    let g = c_arg(ar, q);
    proof {
        lemma_keeps_trans(&a0, &at1, ar);
    }
    let ghost at2 = *ar;
    let r = ar.abs(g);
    proof {
        lemma_keeps_trans(&a0, &at2, ar);
    }
    r
}

/// The unit vector along `v`.
pub fn normalize(ar: &mut Arena, v: ComplexExpr) -> (out: ComplexExpr)
    requires
        old(ar).wf(),
        c_valid(old(ar), v),
    ensures
        final(ar).wf(),
        keeps(old(ar), final(ar)),
        c_valid(final(ar), out),
        ct(final(ar), out) == normalize_term(ct(old(ar), v)),
{
    let ghost a0 = *ar;
    proof {
        lemma_keeps_refl(&a0);
    }
    let ghost at0 = *ar;
    let m = c_abs(ar, v);
    proof {
        lemma_keeps_trans(&a0, &at0, ar);
    }
    let ghost at1 = *ar;
    let r = c_div_real(ar, v, m);
    proof {
        lemma_keeps_trans(&a0, &at1, ar);
    }
    r
}

/// The line through `p` and `q`, directed from `p` to `q`.
pub fn line_through(ar: &mut Arena, p: ComplexExpr, q: ComplexExpr) -> (out: LineExpr)
    requires
        old(ar).wf(),
        c_valid(old(ar), p),
        c_valid(old(ar), q),
    ensures
        final(ar).wf(),
        keeps(old(ar), final(ar)),
        l_valid(final(ar), out),
        ct(final(ar), out.origin) == ct(old(ar), p),
        ct(final(ar), out.direction) == normalize_term(cx_sub(ct(old(ar), q), ct(old(ar), p))),
{
    let ghost a0 = *ar;
    proof {
        lemma_keeps_refl(&a0);
    }
    let ghost at0 = *ar;
    let d = c_sub(ar, q, p);
    proof {
        lemma_keeps_trans(&a0, &at0, ar);
    }
    let ghost at1 = *ar;
    let dir = normalize(ar, d);
    proof {
        lemma_keeps_trans(&a0, &at1, ar);
    }
    LineExpr { origin: p, direction: dir }
}

/// The direction of the bisector of angle `abc`.
#[verifier::rlimit(60)]
pub fn bisector_direction(ar: &mut Arena, a: ComplexExpr, b: ComplexExpr, c: ComplexExpr) -> (out: ComplexExpr)
    requires
        old(ar).wf(),
        c_valid(old(ar), a),
        c_valid(old(ar), b),
        c_valid(old(ar), c),
    ensures
        final(ar).wf(),
        keeps(old(ar), final(ar)),
        c_valid(final(ar), out),
        ct(final(ar), out) == bisector_dir_term(ct(old(ar), a), ct(old(ar), b), ct(old(ar), c)),
{
    let ghost a0 = *ar;
    proof {
        lemma_keeps_refl(&a0);
    }
    let ghost at0 = *ar;
    let s1 = c_sub(ar, a, b);
    proof {
        lemma_keeps_trans(&a0, &at0, ar);
    }
    let ghost at1 = *ar;
    let s2 = c_sub(ar, c, b);
    proof {
        lemma_keeps_trans(&a0, &at1, ar);
    }
    let ghost at2 = *ar;
    let z = c_mul(ar, s1, s2);
    proof {
        lemma_keeps_trans(&a0, &at2, ar);
    }
    let ghost at3 = *ar;
    let mz = c_neg(ar, z);
    proof {
        lemma_keeps_trans(&a0, &at3, ar);
    }
    let ghost at4 = *ar;
    let cond = ar.compare(z.real, ZERO, CompareKind::Gt);
    proof {
        lemma_keeps_trans(&a0, &at4, ar);
    }
    let ghost at5 = *ar;
    let w = c_ternary(ar, cond, z, mz);
    proof {
        lemma_keeps_trans(&a0, &at5, ar);
    }
    let ghost at6 = *ar;
    let m = c_abs(ar, w);
    proof {
        lemma_keeps_trans(&a0, &at6, ar);
    }
    let ghost at7 = *ar;
    let re = ar.add(w.real, m);
    proof {
        lemma_keeps_trans(&a0, &at7, ar);
    }
    let ghost at8 = *ar;
    let n = normalize(ar, ComplexExpr { real: re, imaginary: w.imaginary });
    proof {
        lemma_keeps_trans(&a0, &at8, ar);
    }
    let ghost at9 = *ar;
    let ni = c_mul_i(ar, n);
    proof {
        lemma_keeps_trans(&a0, &at9, ar);
    }
    let ghost at10 = *ar;
    let r = c_ternary(ar, cond, n, ni);
    proof {
        lemma_keeps_trans(&a0, &at10, ar);
    }
    r
}

} // verus!
