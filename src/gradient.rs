//! Derivative programs: for a node and each input, a node for the partial
//! derivative, built by the chain rule node by node.
use crate::expr::{node_fits, real_in, Arena, CompareKind, Node, ONE, ZERO, ZERO_BITS};
use crate::term::{
    keeps, lemma_keeps_refl, lemma_keeps_trans, t_add, t_cmp, t_cos, t_div, t_mul, t_neg, t_one,
    t_pow, t_sin, t_sub, t_ternary, t_zero, term, tm, Term,
};
use crate::value::HALF_BITS;
use vstd::prelude::*;

verus! {

/// Bit pattern of the `f64` value `-1.0`.
pub const MINUS_ONE_BITS: u64 = 0xBFF0_0000_0000_0000;

/// `p + q`, where zero terms are left out.
pub open spec fn z_sum(p: Term, q: Term) -> Term {
    if p == t_zero() {
        q
    } else if q == t_zero() {
        p
    } else {
        t_add(p, q)
    }
}

/// `p - q`, where zero terms are left out.
pub open spec fn z_diff(p: Term, q: Term) -> Term {
    if q == t_zero() {
        p
    } else if p == t_zero() {
        t_neg(q)
    } else {
        t_sub(p, q)
    }
}

/// `p * y`, zero when `p` is.
pub open spec fn z_scaled(p: Term, y: Term) -> Term {
    if p == t_zero() {
        t_zero()
    } else {
        t_mul(p, y)
    }
}

/// `p / y`, zero when `p` is.
pub open spec fn z_quot(p: Term, y: Term) -> Term {
    if p == t_zero() {
        t_zero()
    } else {
        t_div(p, y)
    }
}

/// The partial derivative of `t` along input `i`, by the chain rule, with
/// zero terms left out. A comparison has derivative zero; a selection is
/// differentiated branch by branch.
pub open spec fn deriv(t: Term, i: nat) -> Term
    decreases t,
{
    match t {
        Term::Const(_) => t_zero(),
        Term::Input(j) => if j == i {
            t_one()
        } else {
            t_zero()
        },
        Term::Compare(_, _, _) => t_zero(),
        Term::Add(a, b) => z_sum(deriv(*a, i), deriv(*b, i)),
        Term::Sub(a, b) => z_diff(deriv(*a, i), deriv(*b, i)),
        Term::Mul(a, b) => z_sum(z_scaled(deriv(*a, i), *b), z_scaled(deriv(*b, i), *a)),
        Term::Div(a, b) => z_diff(
            z_quot(deriv(*a, i), *b),
            z_quot(z_scaled(deriv(*b, i), *a), t_mul(*b, *b)),
        ),
        Term::Min(a, b) => if deriv(*a, i) == t_zero() && deriv(*b, i) == t_zero() {
            t_zero()
        } else {
            t_ternary(t_cmp(*a, *b, CompareKind::Lt), deriv(*a, i), deriv(*b, i))
        },
        Term::Atan2(y, x) => z_quot(
            z_diff(z_scaled(deriv(*y, i), *x), z_scaled(deriv(*x, i), *y)),
            t_add(t_mul(*x, *x), t_mul(*y, *y)),
        ),
        Term::Pow(a, p) => z_scaled(deriv(*a, i), t_mul(Term::Const(p), t_div(t, *a))),
        Term::Neg(a) => if deriv(*a, i) == t_zero() {
            t_zero()
        } else {
            t_neg(deriv(*a, i))
        },
        Term::Abs(a) => z_scaled(
            deriv(*a, i),
            t_ternary(t_cmp(*a, t_zero(), CompareKind::Gt), t_one(), Term::Const(MINUS_ONE_BITS)),
        ),
        Term::Sin(a) => z_scaled(deriv(*a, i), t_cos(*a)),
        Term::Cos(a) => z_scaled(deriv(*a, i), t_neg(t_sin(*a))),
        Term::Exp(a) => z_scaled(deriv(*a, i), t),
        Term::Log(a) => z_quot(deriv(*a, i), *a),
        Term::Acos(a) => {
            let q = z_quot(deriv(*a, i), t_pow(t_sub(t_one(), t_mul(*a, *a)), HALF_BITS));
            if q == t_zero() {
                t_zero()
            } else {
                t_neg(q)
            }
        },
        Term::Atan(a) => z_quot(deriv(*a, i), t_add(t_one(), t_mul(*a, *a))),
        Term::Ternary(c, x, e) => if deriv(*x, i) == t_zero() && deriv(*e, i) == t_zero() {
            t_zero()
        } else {
            t_ternary(*c, deriv(*x, i), deriv(*e, i))
        },
    }
}

/// In a well-formed arena only the zero handle stands for the zero tree.
pub proof fn lemma_zero_handle(a: &Arena, h: usize)
    requires
        a.wf(),
        h < a@.len(),
    ensures
        (tm(a, h) == t_zero()) == (h == ZERO),
{
    if tm(a, h) == t_zero() {
        assert(a@[h as int] == Node::Const(ZERO_BITS));
        assert(a@[ZERO as int] == Node::Const(ZERO_BITS));
    }
}

/// `x + y`, where a zero handle stands for an absent term.
fn sum(ar: &mut Arena, x: usize, y: usize) -> (out: usize)
    requires
        old(ar).wf(),
        real_in(old(ar)@, x as int),
        real_in(old(ar)@, y as int),
    ensures
        final(ar).wf(),
        keeps(old(ar), final(ar)),
        real_in(final(ar)@, out as int),
        tm(final(ar), out) == z_sum(tm(old(ar), x), tm(old(ar), y)),
{
    proof {
        lemma_zero_handle(ar, x);
        lemma_zero_handle(ar, y);
    }
    proof {
        lemma_keeps_refl(ar);
    }
    if x == ZERO {
        y
    } else if y == ZERO {
        x
    } else {
        ar.add(x, y)
    }
}

/// `x - y`, where a zero handle stands for an absent term.
fn difference(ar: &mut Arena, x: usize, y: usize) -> (out: usize)
    requires
        old(ar).wf(),
        real_in(old(ar)@, x as int),
        real_in(old(ar)@, y as int),
    ensures
        final(ar).wf(),
        keeps(old(ar), final(ar)),
        real_in(final(ar)@, out as int),
        tm(final(ar), out) == z_diff(tm(old(ar), x), tm(old(ar), y)),
{
    proof {
        lemma_zero_handle(ar, x);
        lemma_zero_handle(ar, y);
    }
    proof {
        lemma_keeps_refl(ar);
    }
    if y == ZERO {
        x
    } else if x == ZERO {
        ar.neg(y)
    } else {
        ar.sub(x, y)
    }
}

/// `x * y`, zero when the factor `x` is the zero handle.
fn scaled(ar: &mut Arena, x: usize, y: usize) -> (out: usize)
    requires
        old(ar).wf(),
        real_in(old(ar)@, x as int),
        real_in(old(ar)@, y as int),
    ensures
        final(ar).wf(),
        keeps(old(ar), final(ar)),
        real_in(final(ar)@, out as int),
        tm(final(ar), out) == z_scaled(tm(old(ar), x), tm(old(ar), y)),
{
    proof {
        lemma_zero_handle(ar, x);
    }
    proof {
        lemma_keeps_refl(ar);
    }
    if x == ZERO {
        ZERO
    } else {
        ar.mul(x, y)
    }
}

/// Node `h` of a well-formed arena can be differentiated along input `i`:
/// `d` holds, for each node before it, a real handle whose tree is that
/// node's derivative.
pub open spec fn derivable(ar: &Arena, h: usize, d: Seq<usize>, i: nat) -> bool {
    &&& ar.wf()
    &&& h < ar@.len()
    &&& node_fits(ar@.take(h as int), ar@[h as int], ar.inputs())
    &&& d.len() == h
    &&& forall|g: int| 0 <= g < h ==> #[trigger] real_in(ar@, d[g] as int)
    &&& forall|g: int| 0 <= g < h ==> #[trigger] tm(ar, d[g]) == deriv(term(ar@, g), i)
}

/// The derivative along input `i` of node `h`, which is `Add(a, b)`.
#[verifier::rlimit(40)]
fn d_add(ar: &mut Arena, h: usize, d: &Vec<usize>, i: usize, a: usize, b: usize) -> (out: usize)
    requires
        derivable(old(ar), h, d@, i as nat),
        old(ar)@[h as int] == Node::Add(a, b),
    ensures
        final(ar).wf(),
        keeps(old(ar), final(ar)),
        real_in(final(ar)@, out as int),
        tm(final(ar), out) == deriv(tm(old(ar), h), i as nat),
{
    proof {
        lemma_keeps_refl(ar);
        assert(ar@.take(h as int).len() == h);
        assert(node_fits(ar@.take(h as int), ar@[h as int], ar.inputs()));
    }
    proof {
        assert(real_in(ar@, d@[a as int] as int));
        assert(tm(ar, d@[a as int]) == deriv(term(ar@, a as int), i as nat));
        lemma_zero_handle(ar, d@[a as int]);
    }
    proof {
        assert(real_in(ar@, d@[b as int] as int));
        assert(tm(ar, d@[b as int]) == deriv(term(ar@, b as int), i as nat));
        lemma_zero_handle(ar, d@[b as int]);
    }
    let ghost a0 = *ar;
    let ghost at0 = *ar;
    proof {
        lemma_keeps_refl(&at0);
    }
    let r = sum(ar, d[a], d[b]);
    proof {
        lemma_keeps_trans(&a0, &at0, ar);
        lemma_zero_handle(ar, r);
    }
    r
}

/// The derivative along input `i` of node `h`, which is `Sub(a, b)`.
#[verifier::rlimit(40)]
fn d_sub(ar: &mut Arena, h: usize, d: &Vec<usize>, i: usize, a: usize, b: usize) -> (out: usize)
    requires
        derivable(old(ar), h, d@, i as nat),
        old(ar)@[h as int] == Node::Sub(a, b),
    ensures
        final(ar).wf(),
        keeps(old(ar), final(ar)),
        real_in(final(ar)@, out as int),
        tm(final(ar), out) == deriv(tm(old(ar), h), i as nat),
{
    proof {
        lemma_keeps_refl(ar);
        assert(ar@.take(h as int).len() == h);
        assert(node_fits(ar@.take(h as int), ar@[h as int], ar.inputs()));
    }
    proof {
        assert(real_in(ar@, d@[a as int] as int));
        assert(tm(ar, d@[a as int]) == deriv(term(ar@, a as int), i as nat));
        lemma_zero_handle(ar, d@[a as int]);
    }
    proof {
        assert(real_in(ar@, d@[b as int] as int));
        assert(tm(ar, d@[b as int]) == deriv(term(ar@, b as int), i as nat));
        lemma_zero_handle(ar, d@[b as int]);
    }
    let ghost a0 = *ar;
    let ghost at0 = *ar;
    proof {
        lemma_keeps_refl(&at0);
    }
    let r = difference(ar, d[a], d[b]);
    proof {
        lemma_keeps_trans(&a0, &at0, ar);
        lemma_zero_handle(ar, r);
    }
    r
}

/// The derivative along input `i` of node `h`, which is `Mul(a, b)`.
#[verifier::rlimit(40)]
fn d_mul(ar: &mut Arena, h: usize, d: &Vec<usize>, i: usize, a: usize, b: usize) -> (out: usize)
    requires
        derivable(old(ar), h, d@, i as nat),
        old(ar)@[h as int] == Node::Mul(a, b),
    ensures
        final(ar).wf(),
        keeps(old(ar), final(ar)),
        real_in(final(ar)@, out as int),
        tm(final(ar), out) == deriv(tm(old(ar), h), i as nat),
{
    proof {
        lemma_keeps_refl(ar);
        assert(ar@.take(h as int).len() == h);
        assert(node_fits(ar@.take(h as int), ar@[h as int], ar.inputs()));
    }
    proof {
        assert(real_in(ar@, d@[a as int] as int));
        assert(tm(ar, d@[a as int]) == deriv(term(ar@, a as int), i as nat));
        lemma_zero_handle(ar, d@[a as int]);
    }
    proof {
        assert(real_in(ar@, d@[b as int] as int));
        assert(tm(ar, d@[b as int]) == deriv(term(ar@, b as int), i as nat));
        lemma_zero_handle(ar, d@[b as int]);
    }
    let ghost a0 = *ar;
    let ghost at0 = *ar;
    proof {
        lemma_keeps_refl(&at0);
    }
    let x = scaled(ar, d[a], b);
    proof {
        lemma_keeps_trans(&a0, &at0, ar);
        lemma_zero_handle(ar, x);
    }
    let ghost at1 = *ar;
    proof {
        lemma_keeps_refl(&at1);
    }
    let y = scaled(ar, d[b], a);
    proof {
        lemma_keeps_trans(&a0, &at1, ar);
        lemma_zero_handle(ar, y);
    }
    let ghost at2 = *ar;
    proof {
        lemma_keeps_refl(&at2);
    }
    let r = sum(ar, x, y);
    proof {
        lemma_keeps_trans(&a0, &at2, ar);
        lemma_zero_handle(ar, r);
    }
    r
}

/// The derivative along input `i` of node `h`, which is `Div(a, b)`.
#[verifier::rlimit(40)]
fn d_div(ar: &mut Arena, h: usize, d: &Vec<usize>, i: usize, a: usize, b: usize) -> (out: usize)
    requires
        derivable(old(ar), h, d@, i as nat),
        old(ar)@[h as int] == Node::Div(a, b),
    ensures
        final(ar).wf(),
        keeps(old(ar), final(ar)),
        real_in(final(ar)@, out as int),
        tm(final(ar), out) == deriv(tm(old(ar), h), i as nat),
{
    proof {
        lemma_keeps_refl(ar);
        assert(ar@.take(h as int).len() == h);
        assert(node_fits(ar@.take(h as int), ar@[h as int], ar.inputs()));
    }
    proof {
        assert(real_in(ar@, d@[a as int] as int));
        assert(tm(ar, d@[a as int]) == deriv(term(ar@, a as int), i as nat));
        lemma_zero_handle(ar, d@[a as int]);
    }
    proof {
        assert(real_in(ar@, d@[b as int] as int));
        assert(tm(ar, d@[b as int]) == deriv(term(ar@, b as int), i as nat));
        lemma_zero_handle(ar, d@[b as int]);
    }
    let ghost a0 = *ar;
    let ghost at0 = *ar;
    proof {
        lemma_keeps_refl(&at0);
    }
    let x = if d[a] == ZERO { ZERO } else { ar.div(d[a], b) };
    proof {
        lemma_keeps_trans(&a0, &at0, ar);
        lemma_zero_handle(ar, x);
    }
    let ghost at1 = *ar;
    proof {
        lemma_keeps_refl(&at1);
    }
    let bb = ar.mul(b, b);
    proof {
        lemma_keeps_trans(&a0, &at1, ar);
        lemma_zero_handle(ar, bb);
    }
    let ghost at2 = *ar;
    proof {
        lemma_keeps_refl(&at2);
    }
    let ad = scaled(ar, d[b], a);
    proof {
        lemma_keeps_trans(&a0, &at2, ar);
        lemma_zero_handle(ar, ad);
    }
    let ghost at3 = *ar;
    proof {
        lemma_keeps_refl(&at3);
    }
    let y = if ad == ZERO { ZERO } else { ar.div(ad, bb) };
    proof {
        lemma_keeps_trans(&a0, &at3, ar);
        lemma_zero_handle(ar, y);
    }
    let ghost at4 = *ar;
    proof {
        lemma_keeps_refl(&at4);
    }
    let r = difference(ar, x, y);
    proof {
        lemma_keeps_trans(&a0, &at4, ar);
        lemma_zero_handle(ar, r);
    }
    r
}

/// The derivative along input `i` of node `h`, which is `Min(a, b)`.
#[verifier::rlimit(40)]
fn d_min(ar: &mut Arena, h: usize, d: &Vec<usize>, i: usize, a: usize, b: usize) -> (out: usize)
    requires
        derivable(old(ar), h, d@, i as nat),
        old(ar)@[h as int] == Node::Min(a, b),
    ensures
        final(ar).wf(),
        keeps(old(ar), final(ar)),
        real_in(final(ar)@, out as int),
        tm(final(ar), out) == deriv(tm(old(ar), h), i as nat),
{
    proof {
        lemma_keeps_refl(ar);
        assert(ar@.take(h as int).len() == h);
        assert(node_fits(ar@.take(h as int), ar@[h as int], ar.inputs()));
    }
    proof {
        assert(real_in(ar@, d@[a as int] as int));
        assert(tm(ar, d@[a as int]) == deriv(term(ar@, a as int), i as nat));
        lemma_zero_handle(ar, d@[a as int]);
    }
    proof {
        assert(real_in(ar@, d@[b as int] as int));
        assert(tm(ar, d@[b as int]) == deriv(term(ar@, b as int), i as nat));
        lemma_zero_handle(ar, d@[b as int]);
    }
    let ghost a0 = *ar;
    let ghost at0 = *ar;
    proof {
        lemma_keeps_refl(&at0);
    }
    let c = ar.compare(a, b, CompareKind::Lt);
    proof {
        lemma_keeps_trans(&a0, &at0, ar);
        lemma_zero_handle(ar, c);
    }
    let ghost at1 = *ar;
    proof {
        lemma_keeps_refl(&at1);
    }
    let r = if d[a] == ZERO && d[b] == ZERO { ZERO } else { ar.ternary(c, d[a], d[b]) };
    proof {
        lemma_keeps_trans(&a0, &at1, ar);
        lemma_zero_handle(ar, r);
    }
    r
}

/// The derivative along input `i` of node `h`, which is `Atan2(y, x)`.
#[verifier::rlimit(40)]
fn d_atan2(ar: &mut Arena, h: usize, d: &Vec<usize>, i: usize, y: usize, x: usize) -> (out: usize)
    requires
        derivable(old(ar), h, d@, i as nat),
        old(ar)@[h as int] == Node::Atan2(y, x),
    ensures
        final(ar).wf(),
        keeps(old(ar), final(ar)),
        real_in(final(ar)@, out as int),
        tm(final(ar), out) == deriv(tm(old(ar), h), i as nat),
{
    proof {
        lemma_keeps_refl(ar);
        assert(ar@.take(h as int).len() == h);
        assert(node_fits(ar@.take(h as int), ar@[h as int], ar.inputs()));
    }
    proof {
        assert(real_in(ar@, d@[y as int] as int));
        assert(tm(ar, d@[y as int]) == deriv(term(ar@, y as int), i as nat));
        lemma_zero_handle(ar, d@[y as int]);
    }
    proof {
        assert(real_in(ar@, d@[x as int] as int));
        assert(tm(ar, d@[x as int]) == deriv(term(ar@, x as int), i as nat));
        lemma_zero_handle(ar, d@[x as int]);
    }
    let ghost a0 = *ar;
    let ghost at0 = *ar;
    proof {
        lemma_keeps_refl(&at0);
    }
    let p = scaled(ar, d[y], x);
    proof {
        lemma_keeps_trans(&a0, &at0, ar);
        lemma_zero_handle(ar, p);
    }
    let ghost at1 = *ar;
    proof {
        lemma_keeps_refl(&at1);
    }
    let q = scaled(ar, d[x], y);
    proof {
        lemma_keeps_trans(&a0, &at1, ar);
        lemma_zero_handle(ar, q);
    }
    let ghost at2 = *ar;
    proof {
        lemma_keeps_refl(&at2);
    }
    let num = difference(ar, p, q);
    proof {
        lemma_keeps_trans(&a0, &at2, ar);
        lemma_zero_handle(ar, num);
    }
    let ghost at3 = *ar;
    proof {
        lemma_keeps_refl(&at3);
    }
    let xx = ar.mul(x, x);
    proof {
        lemma_keeps_trans(&a0, &at3, ar);
        lemma_zero_handle(ar, xx);
    }
    let ghost at4 = *ar;
    proof {
        lemma_keeps_refl(&at4);
    }
    let yy = ar.mul(y, y);
    proof {
        lemma_keeps_trans(&a0, &at4, ar);
        lemma_zero_handle(ar, yy);
    }
    let ghost at5 = *ar;
    proof {
        lemma_keeps_refl(&at5);
    }
    let den = ar.add(xx, yy);
    proof {
        lemma_keeps_trans(&a0, &at5, ar);
        lemma_zero_handle(ar, den);
    }
    let ghost at6 = *ar;
    proof {
        lemma_keeps_refl(&at6);
    }
    let r = if num == ZERO { ZERO } else { ar.div(num, den) };
    proof {
        lemma_keeps_trans(&a0, &at6, ar);
        lemma_zero_handle(ar, r);
    }
    r
}

/// The derivative along input `i` of node `h`, which is `Pow(a, p)`.
#[verifier::rlimit(40)]
fn d_pow(ar: &mut Arena, h: usize, d: &Vec<usize>, i: usize, a: usize, p: u64) -> (out: usize)
    requires
        derivable(old(ar), h, d@, i as nat),
        old(ar)@[h as int] == Node::Pow(a, p),
    ensures
        final(ar).wf(),
        keeps(old(ar), final(ar)),
        real_in(final(ar)@, out as int),
        tm(final(ar), out) == deriv(tm(old(ar), h), i as nat),
{
    proof {
        lemma_keeps_refl(ar);
        assert(ar@.take(h as int).len() == h);
        assert(node_fits(ar@.take(h as int), ar@[h as int], ar.inputs()));
    }
    proof {
        assert(real_in(ar@, d@[a as int] as int));
        assert(tm(ar, d@[a as int]) == deriv(term(ar@, a as int), i as nat));
        lemma_zero_handle(ar, d@[a as int]);
    }
    let ghost a0 = *ar;
    let ghost at0 = *ar;
    proof {
        lemma_keeps_refl(&at0);
    }
    let c = ar.constant(p);
    proof {
        lemma_keeps_trans(&a0, &at0, ar);
        lemma_zero_handle(ar, c);
    }
    let ghost at1 = *ar;
    proof {
        lemma_keeps_refl(&at1);
    }
    let q = ar.div(h, a);
    proof {
        lemma_keeps_trans(&a0, &at1, ar);
        lemma_zero_handle(ar, q);
    }
    let ghost at2 = *ar;
    proof {
        lemma_keeps_refl(&at2);
    }
    let f = ar.mul(c, q);
    proof {
        lemma_keeps_trans(&a0, &at2, ar);
        lemma_zero_handle(ar, f);
    }
    let ghost at3 = *ar;
    proof {
        lemma_keeps_refl(&at3);
    }
    let r = scaled(ar, d[a], f);
    proof {
        lemma_keeps_trans(&a0, &at3, ar);
        lemma_zero_handle(ar, r);
    }
    r
}

/// The derivative along input `i` of node `h`, which is `Neg(a)`.
#[verifier::rlimit(40)]
fn d_neg(ar: &mut Arena, h: usize, d: &Vec<usize>, i: usize, a: usize) -> (out: usize)
    requires
        derivable(old(ar), h, d@, i as nat),
        old(ar)@[h as int] == Node::Neg(a),
    ensures
        final(ar).wf(),
        keeps(old(ar), final(ar)),
        real_in(final(ar)@, out as int),
        tm(final(ar), out) == deriv(tm(old(ar), h), i as nat),
{
    proof {
        lemma_keeps_refl(ar);
        assert(ar@.take(h as int).len() == h);
        assert(node_fits(ar@.take(h as int), ar@[h as int], ar.inputs()));
    }
    proof {
        assert(real_in(ar@, d@[a as int] as int));
        assert(tm(ar, d@[a as int]) == deriv(term(ar@, a as int), i as nat));
        lemma_zero_handle(ar, d@[a as int]);
    }
    let ghost a0 = *ar;
    let ghost at0 = *ar;
    proof {
        lemma_keeps_refl(&at0);
    }
    let r = if d[a] == ZERO { ZERO } else { ar.neg(d[a]) };
    proof {
        lemma_keeps_trans(&a0, &at0, ar);
        lemma_zero_handle(ar, r);
    }
    r
}

/// The derivative along input `i` of node `h`, which is `Abs(a)`.
#[verifier::rlimit(40)]
fn d_abs(ar: &mut Arena, h: usize, d: &Vec<usize>, i: usize, a: usize) -> (out: usize)
    requires
        derivable(old(ar), h, d@, i as nat),
        old(ar)@[h as int] == Node::Abs(a),
    ensures
        final(ar).wf(),
        keeps(old(ar), final(ar)),
        real_in(final(ar)@, out as int),
        tm(final(ar), out) == deriv(tm(old(ar), h), i as nat),
{
    proof {
        lemma_keeps_refl(ar);
        assert(ar@.take(h as int).len() == h);
        assert(node_fits(ar@.take(h as int), ar@[h as int], ar.inputs()));
    }
    proof {
        assert(real_in(ar@, d@[a as int] as int));
        assert(tm(ar, d@[a as int]) == deriv(term(ar@, a as int), i as nat));
        lemma_zero_handle(ar, d@[a as int]);
    }
    let ghost a0 = *ar;
    let ghost at0 = *ar;
    proof {
        lemma_keeps_refl(&at0);
    }
    let c = ar.compare(a, ZERO, CompareKind::Gt);
    proof {
        lemma_keeps_trans(&a0, &at0, ar);
        lemma_zero_handle(ar, c);
    }
    let ghost at1 = *ar;
    proof {
        lemma_keeps_refl(&at1);
    }
    let m = ar.constant(MINUS_ONE_BITS);
    proof {
        lemma_keeps_trans(&a0, &at1, ar);
        lemma_zero_handle(ar, m);
    }
    let ghost at2 = *ar;
    proof {
        lemma_keeps_refl(&at2);
    }
    let s = ar.ternary(c, ONE, m);
    proof {
        lemma_keeps_trans(&a0, &at2, ar);
        lemma_zero_handle(ar, s);
    }
    let ghost at3 = *ar;
    proof {
        lemma_keeps_refl(&at3);
    }
    let r = scaled(ar, d[a], s);
    proof {
        lemma_keeps_trans(&a0, &at3, ar);
        lemma_zero_handle(ar, r);
    }
    r
}

/// The derivative along input `i` of node `h`, which is `Sin(a)`.
#[verifier::rlimit(40)]
fn d_sin(ar: &mut Arena, h: usize, d: &Vec<usize>, i: usize, a: usize) -> (out: usize)
    requires
        derivable(old(ar), h, d@, i as nat),
        old(ar)@[h as int] == Node::Sin(a),
    ensures
        final(ar).wf(),
        keeps(old(ar), final(ar)),
        real_in(final(ar)@, out as int),
        tm(final(ar), out) == deriv(tm(old(ar), h), i as nat),
{
    proof {
        lemma_keeps_refl(ar);
        assert(ar@.take(h as int).len() == h);
        assert(node_fits(ar@.take(h as int), ar@[h as int], ar.inputs()));
    }
    proof {
        assert(real_in(ar@, d@[a as int] as int));
        assert(tm(ar, d@[a as int]) == deriv(term(ar@, a as int), i as nat));
        lemma_zero_handle(ar, d@[a as int]);
    }
    let ghost a0 = *ar;
    let ghost at0 = *ar;
    proof {
        lemma_keeps_refl(&at0);
    }
    let c = ar.cos(a);
    proof {
        lemma_keeps_trans(&a0, &at0, ar);
        lemma_zero_handle(ar, c);
    }
    let ghost at1 = *ar;
    proof {
        lemma_keeps_refl(&at1);
    }
    let r = scaled(ar, d[a], c);
    proof {
        lemma_keeps_trans(&a0, &at1, ar);
        lemma_zero_handle(ar, r);
    }
    r
}

/// The derivative along input `i` of node `h`, which is `Cos(a)`.
#[verifier::rlimit(40)]
fn d_cos(ar: &mut Arena, h: usize, d: &Vec<usize>, i: usize, a: usize) -> (out: usize)
    requires
        derivable(old(ar), h, d@, i as nat),
        old(ar)@[h as int] == Node::Cos(a),
    ensures
        final(ar).wf(),
        keeps(old(ar), final(ar)),
        real_in(final(ar)@, out as int),
        tm(final(ar), out) == deriv(tm(old(ar), h), i as nat),
{
    proof {
        lemma_keeps_refl(ar);
        assert(ar@.take(h as int).len() == h);
        assert(node_fits(ar@.take(h as int), ar@[h as int], ar.inputs()));
    }
    proof {
        assert(real_in(ar@, d@[a as int] as int));
        assert(tm(ar, d@[a as int]) == deriv(term(ar@, a as int), i as nat));
        lemma_zero_handle(ar, d@[a as int]);
    }
    let ghost a0 = *ar;
    let ghost at0 = *ar;
    proof {
        lemma_keeps_refl(&at0);
    }
    let s = ar.sin(a);
    proof {
        lemma_keeps_trans(&a0, &at0, ar);
        lemma_zero_handle(ar, s);
    }
    let ghost at1 = *ar;
    proof {
        lemma_keeps_refl(&at1);
    }
    let n = ar.neg(s);
    proof {
        lemma_keeps_trans(&a0, &at1, ar);
        lemma_zero_handle(ar, n);
    }
    let ghost at2 = *ar;
    proof {
        lemma_keeps_refl(&at2);
    }
    let r = scaled(ar, d[a], n);
    proof {
        lemma_keeps_trans(&a0, &at2, ar);
        lemma_zero_handle(ar, r);
    }
    r
}

/// The derivative along input `i` of node `h`, which is `Exp(a)`.
#[verifier::rlimit(40)]
fn d_exp(ar: &mut Arena, h: usize, d: &Vec<usize>, i: usize, a: usize) -> (out: usize)
    requires
        derivable(old(ar), h, d@, i as nat),
        old(ar)@[h as int] == Node::Exp(a),
    ensures
        final(ar).wf(),
        keeps(old(ar), final(ar)),
        real_in(final(ar)@, out as int),
        tm(final(ar), out) == deriv(tm(old(ar), h), i as nat),
{
    proof {
        lemma_keeps_refl(ar);
        assert(ar@.take(h as int).len() == h);
        assert(node_fits(ar@.take(h as int), ar@[h as int], ar.inputs()));
    }
    proof {
        assert(real_in(ar@, d@[a as int] as int));
        assert(tm(ar, d@[a as int]) == deriv(term(ar@, a as int), i as nat));
        lemma_zero_handle(ar, d@[a as int]);
    }
    let ghost a0 = *ar;
    let ghost at0 = *ar;
    proof {
        lemma_keeps_refl(&at0);
    }
    let r = scaled(ar, d[a], h);
    proof {
        lemma_keeps_trans(&a0, &at0, ar);
        lemma_zero_handle(ar, r);
    }
    r
}

/// The derivative along input `i` of node `h`, which is `Log(a)`.
#[verifier::rlimit(40)]
fn d_log(ar: &mut Arena, h: usize, d: &Vec<usize>, i: usize, a: usize) -> (out: usize)
    requires
        derivable(old(ar), h, d@, i as nat),
        old(ar)@[h as int] == Node::Log(a),
    ensures
        final(ar).wf(),
        keeps(old(ar), final(ar)),
        real_in(final(ar)@, out as int),
        tm(final(ar), out) == deriv(tm(old(ar), h), i as nat),
{
    proof {
        lemma_keeps_refl(ar);
        assert(ar@.take(h as int).len() == h);
        assert(node_fits(ar@.take(h as int), ar@[h as int], ar.inputs()));
    }
    proof {
        assert(real_in(ar@, d@[a as int] as int));
        assert(tm(ar, d@[a as int]) == deriv(term(ar@, a as int), i as nat));
        lemma_zero_handle(ar, d@[a as int]);
    }
    let ghost a0 = *ar;
    let ghost at0 = *ar;
    proof {
        lemma_keeps_refl(&at0);
    }
    let r = if d[a] == ZERO { ZERO } else { ar.div(d[a], a) };
    proof {
        lemma_keeps_trans(&a0, &at0, ar);
        lemma_zero_handle(ar, r);
    }
    r
}

/// The derivative along input `i` of node `h`, which is `Acos(a)`.
#[verifier::rlimit(40)]
fn d_acos(ar: &mut Arena, h: usize, d: &Vec<usize>, i: usize, a: usize) -> (out: usize)
    requires
        derivable(old(ar), h, d@, i as nat),
        old(ar)@[h as int] == Node::Acos(a),
    ensures
        final(ar).wf(),
        keeps(old(ar), final(ar)),
        real_in(final(ar)@, out as int),
        tm(final(ar), out) == deriv(tm(old(ar), h), i as nat),
{
    proof {
        lemma_keeps_refl(ar);
        assert(ar@.take(h as int).len() == h);
        assert(node_fits(ar@.take(h as int), ar@[h as int], ar.inputs()));
    }
    proof {
        assert(real_in(ar@, d@[a as int] as int));
        assert(tm(ar, d@[a as int]) == deriv(term(ar@, a as int), i as nat));
        lemma_zero_handle(ar, d@[a as int]);
    }
    let ghost a0 = *ar;
    let ghost at0 = *ar;
    proof {
        lemma_keeps_refl(&at0);
    }
    let aa = ar.mul(a, a);
    proof {
        lemma_keeps_trans(&a0, &at0, ar);
        lemma_zero_handle(ar, aa);
    }
    let ghost at1 = *ar;
    proof {
        lemma_keeps_refl(&at1);
    }
    let s = ar.sub(ONE, aa);
    proof {
        lemma_keeps_trans(&a0, &at1, ar);
        lemma_zero_handle(ar, s);
    }
    let ghost at2 = *ar;
    proof {
        lemma_keeps_refl(&at2);
    }
    let root = ar.pow(s, HALF_BITS);
    proof {
        lemma_keeps_trans(&a0, &at2, ar);
        lemma_zero_handle(ar, root);
    }
    let ghost at3 = *ar;
    proof {
        lemma_keeps_refl(&at3);
    }
    let q = if d[a] == ZERO { ZERO } else { ar.div(d[a], root) };
    proof {
        lemma_keeps_trans(&a0, &at3, ar);
        lemma_zero_handle(ar, q);
    }
    let ghost at4 = *ar;
    proof {
        lemma_keeps_refl(&at4);
    }
    let r = if q == ZERO { ZERO } else { ar.neg(q) };
    proof {
        lemma_keeps_trans(&a0, &at4, ar);
        lemma_zero_handle(ar, r);
    }
    r
}

/// The derivative along input `i` of node `h`, which is `Atan(a)`.
#[verifier::rlimit(40)]
fn d_atan(ar: &mut Arena, h: usize, d: &Vec<usize>, i: usize, a: usize) -> (out: usize)
    requires
        derivable(old(ar), h, d@, i as nat),
        old(ar)@[h as int] == Node::Atan(a),
    ensures
        final(ar).wf(),
        keeps(old(ar), final(ar)),
        real_in(final(ar)@, out as int),
        tm(final(ar), out) == deriv(tm(old(ar), h), i as nat),
{
    proof {
        lemma_keeps_refl(ar);
        assert(ar@.take(h as int).len() == h);
        assert(node_fits(ar@.take(h as int), ar@[h as int], ar.inputs()));
    }
    proof {
        assert(real_in(ar@, d@[a as int] as int));
        assert(tm(ar, d@[a as int]) == deriv(term(ar@, a as int), i as nat));
        lemma_zero_handle(ar, d@[a as int]);
    }
    let ghost a0 = *ar;
    let ghost at0 = *ar;
    proof {
        lemma_keeps_refl(&at0);
    }
    let aa = ar.mul(a, a);
    proof {
        lemma_keeps_trans(&a0, &at0, ar);
        lemma_zero_handle(ar, aa);
    }
    let ghost at1 = *ar;
    proof {
        lemma_keeps_refl(&at1);
    }
    let s = ar.add(ONE, aa);
    proof {
        lemma_keeps_trans(&a0, &at1, ar);
        lemma_zero_handle(ar, s);
    }
    let ghost at2 = *ar;
    proof {
        lemma_keeps_refl(&at2);
    }
    let r = if d[a] == ZERO { ZERO } else { ar.div(d[a], s) };
    proof {
        lemma_keeps_trans(&a0, &at2, ar);
        lemma_zero_handle(ar, r);
    }
    r
}

/// The derivative along input `i` of node `h`, which is `Ternary(c, t, e)`.
#[verifier::rlimit(40)]
fn d_ternary(ar: &mut Arena, h: usize, d: &Vec<usize>, i: usize, c: usize, t: usize, e: usize) -> (out: usize)
    requires
        derivable(old(ar), h, d@, i as nat),
        old(ar)@[h as int] == Node::Ternary(c, t, e),
    ensures
        final(ar).wf(),
        keeps(old(ar), final(ar)),
        real_in(final(ar)@, out as int),
        tm(final(ar), out) == deriv(tm(old(ar), h), i as nat),
{
    proof {
        lemma_keeps_refl(ar);
        assert(ar@.take(h as int).len() == h);
        assert(node_fits(ar@.take(h as int), ar@[h as int], ar.inputs()));
    }
    proof {
        assert(real_in(ar@, d@[t as int] as int));
        assert(tm(ar, d@[t as int]) == deriv(term(ar@, t as int), i as nat));
        lemma_zero_handle(ar, d@[t as int]);
    }
    proof {
        assert(real_in(ar@, d@[e as int] as int));
        assert(tm(ar, d@[e as int]) == deriv(term(ar@, e as int), i as nat));
        lemma_zero_handle(ar, d@[e as int]);
    }
    let ghost a0 = *ar;
    let ghost at0 = *ar;
    proof {
        lemma_keeps_refl(&at0);
    }
    let r = if d[t] == ZERO && d[e] == ZERO { ZERO } else { ar.ternary(c, d[t], d[e]) };
    proof {
        lemma_keeps_trans(&a0, &at0, ar);
        lemma_zero_handle(ar, r);
    }
    r
}

/// The derivative, along input `i`, of node `h`, given the derivatives `d`
/// of the nodes before it. Comparisons have no derivative and give zero.
fn node_derivative(ar: &mut Arena, h: usize, d: &Vec<usize>, i: usize) -> (out: usize)
    requires
        derivable(old(ar), h, d@, i as nat),
    ensures
        final(ar).wf(),
        keeps(old(ar), final(ar)),
        real_in(final(ar)@, out as int),
        tm(final(ar), out) == deriv(tm(old(ar), h), i as nat),
{
    proof {
        lemma_keeps_refl(ar);
    }
    match ar.node(h) {
        Node::Const(_) => ZERO,
        Node::Input(j) => if j == i { ONE } else { ZERO },
        Node::Compare(_, _, _) => ZERO,
        Node::Add(a, b) => d_add(ar, h, d, i, a, b),
        Node::Sub(a, b) => d_sub(ar, h, d, i, a, b),
        Node::Mul(a, b) => d_mul(ar, h, d, i, a, b),
        Node::Div(a, b) => d_div(ar, h, d, i, a, b),
        Node::Min(a, b) => d_min(ar, h, d, i, a, b),
        Node::Atan2(y, x) => d_atan2(ar, h, d, i, y, x),
        Node::Pow(a, p) => d_pow(ar, h, d, i, a, p),
        Node::Neg(a) => d_neg(ar, h, d, i, a),
        Node::Abs(a) => d_abs(ar, h, d, i, a),
        Node::Sin(a) => d_sin(ar, h, d, i, a),
        Node::Cos(a) => d_cos(ar, h, d, i, a),
        Node::Exp(a) => d_exp(ar, h, d, i, a),
        Node::Log(a) => d_log(ar, h, d, i, a),
        Node::Acos(a) => d_acos(ar, h, d, i, a),
        Node::Atan(a) => d_atan(ar, h, d, i, a),
        Node::Ternary(c, t, e) => d_ternary(ar, h, d, i, c, t, e),
    }
}

/// The partial derivatives of node `out` along every input, in input order.
pub fn gradient(ar: &mut Arena, out: usize) -> (g: Vec<usize>)
    requires
        old(ar).wf(),
        out < old(ar)@.len(),
    ensures
        final(ar).wf(),
        keeps(old(ar), final(ar)),
        g.len() == old(ar).inputs(),
        forall|i: int| 0 <= i < g.len() ==> #[trigger] real_in(final(ar)@, g@[i] as int),
        forall|i: int| 0 <= i < g.len() ==> #[trigger] tm(final(ar), g@[i]) == deriv(tm(old(ar), out), i as nat),
{
    let ghost a0 = *ar;
    proof {
        lemma_keeps_refl(ar);
        ar.lemma_inputs_bound();
    }
    let n = ar.input_count();
    let len = ar.len();
    let mut g: Vec<usize> = Vec::new();
    let mut i: usize = 0;
    while i < n
        invariant
            i <= n,
            n == a0.inputs(),
            out < a0@.len(),
            out < len,
            a0.wf(),
            ar.wf(),
            keeps(&a0, ar),
            g.len() == i,
            forall|k: int| 0 <= k < i ==> #[trigger] real_in(ar@, g@[k] as int),
            forall|k: int| 0 <= k < i ==> #[trigger] tm(ar, g@[k]) == deriv(term(a0@, out as int), k as nat),
        decreases n - i,
    {
        let ghost q = *ar;
        proof {
            lemma_keeps_refl(ar);
        }
        let mut d: Vec<usize> = Vec::new();
        let mut h: usize = 0;
        while h <= out
            invariant
                h <= out + 1,
                out < a0@.len(),
                out < len,
                a0.wf(),
                ar.wf(),
                keeps(&a0, ar),
                keeps(&q, ar),
                g.len() == i,
                forall|k: int| 0 <= k < i ==> #[trigger] real_in(q@, g@[k] as int),
                forall|k: int| 0 <= k < i ==> #[trigger] tm(&q, g@[k]) == deriv(term(a0@, out as int), k as nat),
                d.len() == h,
                forall|k: int| 0 <= k < h ==> #[trigger] real_in(ar@, d@[k] as int),
                forall|k: int| 0 <= k < h ==> #[trigger] tm(ar, d@[k]) == deriv(term(ar@, k), i as nat),
            decreases out + 1 - h,
        {
            let ghost p = *ar;
            proof {
                assert(node_fits(a0@.take(h as int), a0@[h as int], a0.inputs()));
                assert(ar@.take(h as int) =~= a0@.take(h as int)) by {
                    assert forall|k: int| 0 <= k < h implies ar@.take(h as int)[k] == a0@.take(h as int)[k] by {
                        assert(ar@[k] == a0@[k]);
                    }
                }
                assert(ar@[h as int] == a0@[h as int]);
            }
            let x = node_derivative(ar, h, &d, i);
            let ghost old_d = d@;
            d.push(x);
            proof {
                lemma_keeps_trans(&a0, &p, ar);
                lemma_keeps_trans(&q, &p, ar);
                assert forall|k: int| 0 <= k <= h implies #[trigger] real_in(ar@, d@[k] as int) by {
                    if k < h {
                        assert(d@[k] == old_d[k]);
                        assert(real_in(p@, old_d[k] as int));
                        assert(ar@[old_d[k] as int] == p@[old_d[k] as int]);
                    }
                }
                assert forall|k: int| 0 <= k <= h implies #[trigger] tm(ar, d@[k]) == deriv(term(ar@, k), i as nat) by {
                    if k < h {
                        assert(d@[k] == old_d[k]);
                        assert(real_in(p@, old_d[k] as int));
                        assert(tm(&p, old_d[k]) == deriv(term(p@, k), i as nat));
                        assert(term(ar@, k) == term(p@, k));
                    } else {
                        assert(term(ar@, k) == term(p@, k));
                    }
                }
            }
            h = h + 1;
        }
        g.push(d[out]);
        proof {
            assert(tm(ar, d@[out as int]) == deriv(term(ar@, out as int), i as nat));
            assert(term(ar@, out as int) == term(a0@, out as int));
            assert forall|k: int| 0 <= k <= i implies #[trigger] tm(ar, g@[k]) == deriv(term(a0@, out as int), k as nat) by {
                if k < i {
                    assert(real_in(q@, g@[k] as int));
                    assert(tm(&q, g@[k]) == deriv(term(a0@, out as int), k as nat));
                }
            }
            assert forall|k: int| 0 <= k <= i implies #[trigger] real_in(ar@, g@[k] as int) by {
                if k < i {
                    assert(real_in(q@, g@[k] as int));
                    assert(ar@[g@[k] as int] == q@[g@[k] as int]);
                }
            }
        }
        i = i + 1;
    }
    g
}

} // verus!
