//! Lowering of the intermediate representation into arena nodes: one value
//! per entity and per expression, and one error term per rule.
use crate::expr::{real_in, Arena, CompareKind, ONE, ZERO};
use crate::geometry::{
    angle, angle_dir, angle_term, angle_dir_term, bisector_dir_term, bisector_direction,
    intersection, intersection_term, line_angle, line_angle_term, line_through, normalize_term,
    on_circle_term, on_line_term, point_line_distance, point_line_distance_term, point_on_circle,
    point_on_line, point_point_distance, normalize,
};
use crate::ir::{
    entity_width, inputs_before, kind_ok, kind_shape, ref_ok, refs_ok, EntityKind,
    ExpressionKind, Shape, VarIndex,
};
use crate::term::{
    lemma_term_injective,
    t_atan2, keeps, lemma_keeps_refl, lemma_keeps_trans, t_add, t_div, t_neg, t_one, t_zero, tm, Term,
};
use crate::value::{
    c_add, c_cos, c_div, c_div_real, c_exp, c_log, c_mul, c_mul_i, c_pow, c_sin, c_sub, c_valid, circ_valid,
    ct, cterm, cx_abs, cx_add, cx_cos, cx_div, cx_div_real, cx_exp, cx_log, cx_mul, cx_mul_i,
    cx_pow, cx_real, cx_sin, cx_sub, l_valid, CTerm, CircleExpr, ComplexExpr, LineExpr,
};
use vstd::prelude::*;

verus! {

/// A lowered value.
#[derive(Clone, Copy, Debug, PartialEq, Eq, Structural)]
pub enum ValueExpr {
    /// A single real: the input of a one-input entity.
    This(usize),
    Complex(ComplexExpr),
    Line(LineExpr),
    Circle(CircleExpr),
}

/// The trees of a lowered value.
pub enum VTerm {
    Single(Term),
    Complex(CTerm),
    Line(CTerm, CTerm),
    Circle(CTerm, Term),
}

pub open spec fn vt(a: &Arena, v: ValueExpr) -> VTerm {
    match v {
        ValueExpr::This(h) => VTerm::Single(tm(a, h)),
        ValueExpr::Complex(c) => VTerm::Complex(ct(a, c)),
        ValueExpr::Line(l) => VTerm::Line(ct(a, l.origin), ct(a, l.direction)),
        ValueExpr::Circle(c) => VTerm::Circle(ct(a, c.center), tm(a, c.radius)),
    }
}

pub open spec fn v_valid(a: &Arena, v: ValueExpr) -> bool {
    match v {
        ValueExpr::This(h) => real_in(a@, h as int),
        ValueExpr::Complex(c) => c_valid(a, c),
        ValueExpr::Line(l) => l_valid(a, l),
        ValueExpr::Circle(c) => circ_valid(a, c),
    }
}

pub open spec fn v_shape(v: ValueExpr) -> Shape {
    match v {
        ValueExpr::This(_) => Shape::Single,
        ValueExpr::Complex(_) => Shape::Complex,
        ValueExpr::Line(_) => Shape::Line,
        ValueExpr::Circle(_) => Shape::Circle,
    }
}

pub open spec fn vts(a: &Arena, vs: Seq<ValueExpr>) -> Seq<VTerm> {
    vs.map_values(|v: ValueExpr| vt(a, v))
}

pub open spec fn vshapes(vs: Seq<ValueExpr>) -> Seq<Shape> {
    vs.map_values(|v: ValueExpr| v_shape(v))
}

/// Every value is valid in the arena.
pub open spec fn all_valid(a: &Arena, vs: Seq<ValueExpr>) -> bool {
    forall|j: int| 0 <= j < vs.len() ==> #[trigger] v_valid(a, vs[j])
}

pub open spec fn zero_c() -> CTerm {
    cterm(t_zero(), t_zero())
}

pub open spec fn one_c() -> CTerm {
    cterm(t_one(), t_zero())
}

pub open spec fn vc(v: VTerm) -> CTerm {
    match v {
        VTerm::Complex(c) => c,
        _ => zero_c(),
    }
}

pub open spec fn vsingle(v: VTerm) -> Term {
    match v {
        VTerm::Single(t) => t,
        _ => t_zero(),
    }
}

pub open spec fn vline_o(v: VTerm) -> CTerm {
    match v {
        VTerm::Line(o, _) => o,
        _ => zero_c(),
    }
}

pub open spec fn vline_d(v: VTerm) -> CTerm {
    match v {
        VTerm::Line(_, d) => d,
        _ => zero_c(),
    }
}

pub open spec fn vcirc_c(v: VTerm) -> CTerm {
    match v {
        VTerm::Circle(c, _) => c,
        _ => zero_c(),
    }
}

pub open spec fn vcirc_r(v: VTerm) -> Term {
    match v {
        VTerm::Circle(_, r) => r,
        _ => t_zero(),
    }
}

/// The tree of a natural number, built by doubling: exact in `f64` up to `2^53`.
pub open spec fn nat_term(n: nat) -> Term
    decreases n,
{
    if n == 0 {
        t_zero()
    } else if n == 1 {
        t_one()
    } else {
        let h = nat_term(n / 2);
        if n % 2 == 0 {
            t_add(h, h)
        } else {
            t_add(t_add(h, h), t_one())
        }
    }
}

/// The tree of an integer.
pub open spec fn int_term(n: int) -> Term {
    if n >= 0 {
        nat_term(n as nat)
    } else {
        t_neg(nat_term((-n) as nat))
    }
}

/// A left fold of complex sums; the empty sum is zero.
pub open spec fn cx_sum(ts: Seq<CTerm>) -> CTerm
    decreases ts.len(),
{
    if ts.len() == 0 {
        zero_c()
    } else if ts.len() == 1 {
        ts[0]
    } else {
        cx_add(cx_sum(ts.drop_last()), ts.last())
    }
}

/// A left fold of complex products; the empty product is one.
pub open spec fn cx_prod(ts: Seq<CTerm>) -> CTerm
    decreases ts.len(),
{
    if ts.len() == 0 {
        one_c()
    } else if ts.len() == 1 {
        ts[0]
    } else {
        cx_mul(cx_prod(ts.drop_last()), ts.last())
    }
}

/// The complex trees of the listed expressions.
pub open spec fn ops(prev: Seq<VTerm>, items: Seq<VarIndex>) -> Seq<CTerm> {
    items.map_values(|v: VarIndex| vc(prev[v.0 as int]))
}

/// The node of a natural number.
pub fn nat_node(ar: &mut Arena, n: u64) -> (out: usize)
    requires
        old(ar).wf(),
    ensures
        final(ar).wf(),
        keeps(old(ar), final(ar)),
        real_in(final(ar)@, out as int),
        tm(final(ar), out) == nat_term(n as nat),
    decreases n,
{
    proof {
        lemma_keeps_refl(ar);
    }
    if n == 0 {
        ZERO
    } else if n == 1 {
        ONE
    } else {
        let ghost a0 = *ar;
        let h = nat_node(ar, n / 2);
        let ghost a1 = *ar;
        let d = ar.add(h, h);
        proof {
            lemma_keeps_trans(&a0, &a1, ar);
        }
        if n % 2 == 0 {
            d
        } else {
            let ghost a2 = *ar;
            let r = ar.add(d, ONE);
            proof {
                lemma_keeps_trans(&a0, &a2, ar);
            }
            r
        }
    }
}

/// The node of an integer.
pub fn int_node(ar: &mut Arena, n: i64) -> (out: usize)
    requires
        old(ar).wf(),
    ensures
        final(ar).wf(),
        keeps(old(ar), final(ar)),
        real_in(final(ar)@, out as int),
        tm(final(ar), out) == int_term(n as int),
{
    if n >= 0 {
        nat_node(ar, n as u64)
    } else {
        let ghost a0 = *ar;
        let m: u64 = ((-(n + 1)) as u64) + 1;
        let h = nat_node(ar, m);
        let ghost a1 = *ar;
        let r = ar.neg(h);
        proof {
            lemma_keeps_trans(&a0, &a1, ar);
        }
        r
    }
}


/// A value keeps its validity and its trees in an arena that keeps trees.
pub proof fn lemma_keeps_value(a: &Arena, b: &Arena, v: ValueExpr)
    requires
        keeps(a, b),
        v_valid(a, v),
    ensures
        v_valid(b, v),
        vt(b, v) == vt(a, v),
{
    match v {
        ValueExpr::This(h) => {
            assert(b@[h as int] == a@[h as int]);
        },
        ValueExpr::Complex(c) => {
            assert(b@[c.real as int] == a@[c.real as int]);
            assert(b@[c.imaginary as int] == a@[c.imaginary as int]);
        },
        ValueExpr::Line(l) => {
            assert(b@[l.origin.real as int] == a@[l.origin.real as int]);
            assert(b@[l.origin.imaginary as int] == a@[l.origin.imaginary as int]);
            assert(b@[l.direction.real as int] == a@[l.direction.real as int]);
            assert(b@[l.direction.imaginary as int] == a@[l.direction.imaginary as int]);
        },
        ValueExpr::Circle(c) => {
            assert(b@[c.center.real as int] == a@[c.center.real as int]);
            assert(b@[c.center.imaginary as int] == a@[c.center.imaginary as int]);
            assert(b@[c.radius as int] == a@[c.radius as int]);
        },
    }
}

/// Values keep their validity and their trees in an arena that keeps trees.
pub proof fn lemma_keeps_values(a: &Arena, b: &Arena, vs: Seq<ValueExpr>)
    requires
        keeps(a, b),
        all_valid(a, vs),
    ensures
        all_valid(b, vs),
        vts(b, vs) == vts(a, vs),
{
    assert forall|j: int| 0 <= j < vs.len() implies #[trigger] v_valid(b, vs[j]) by {
        lemma_keeps_value(a, b, vs[j]);
    }
    assert forall|j: int| 0 <= j < vs.len() implies #[trigger] vts(b, vs)[j] == vts(a, vs)[j] by {
        lemma_keeps_value(a, b, vs[j]);
    }
    assert(vts(b, vs) =~= vts(a, vs));
}

/// The complex value behind a complex-shaped entry.
pub fn get_complex(vals: &Vec<ValueExpr>, v: VarIndex) -> (r: ComplexExpr)
    requires
        v.0 < vals.len(),
        v_shape(vals@[v.0 as int]) == Shape::Complex,
    ensures
        vals@[v.0 as int] == ValueExpr::Complex(r),
{
    match vals[v.0] {
        ValueExpr::Complex(c) => c,
        _ => ComplexExpr { real: ZERO, imaginary: ZERO },
    }
}

/// The line behind a line-shaped entry.
pub fn get_line(vals: &Vec<ValueExpr>, v: VarIndex) -> (r: LineExpr)
    requires
        v.0 < vals.len(),
        v_shape(vals@[v.0 as int]) == Shape::Line,
    ensures
        vals@[v.0 as int] == ValueExpr::Line(r),
{
    match vals[v.0] {
        ValueExpr::Line(l) => l,
        _ => {
            let z = ComplexExpr { real: ZERO, imaginary: ZERO };
            LineExpr { origin: z, direction: z }
        },
    }
}

/// The circle behind a circle-shaped entry.
pub fn get_circle(vals: &Vec<ValueExpr>, v: VarIndex) -> (r: CircleExpr)
    requires
        v.0 < vals.len(),
        v_shape(vals@[v.0 as int]) == Shape::Circle,
    ensures
        vals@[v.0 as int] == ValueExpr::Circle(r),
{
    match vals[v.0] {
        ValueExpr::Circle(c) => c,
        _ => CircleExpr { center: ComplexExpr { real: ZERO, imaginary: ZERO }, radius: ZERO },
    }
}

/// The single real behind a single-shaped entry.
pub fn get_single(vals: &Vec<ValueExpr>, i: usize) -> (r: usize)
    requires
        i < vals.len(),
        v_shape(vals@[i as int]) == Shape::Single,
    ensures
        vals@[i as int] == ValueExpr::This(r),
{
    match vals[i] {
        ValueExpr::This(h) => h,
        _ => ZERO,
    }
}

/// All listed expressions are earlier complex values.
pub open spec fn items_complex(vals: Seq<ValueExpr>, items: Seq<VarIndex>) -> bool {
    forall|j: int|
        0 <= j < items.len() ==> (#[trigger] items[j]).0 < vals.len() && v_shape(
            vals[items[j].0 as int],
        ) == Shape::Complex
}

#[verifier::rlimit(50)]
/// The sum of the listed complex values, zero when there are none.
pub fn sum_list(ar: &mut Arena, vals: &Vec<ValueExpr>, items: &Vec<VarIndex>) -> (out: ComplexExpr)
    requires
        old(ar).wf(),
        all_valid(old(ar), vals@),
        items_complex(vals@, items@),
    ensures
        final(ar).wf(),
        keeps(old(ar), final(ar)),
        c_valid(final(ar), out),
        ct(final(ar), out) == cx_sum(ops(vts(old(ar), vals@), items@)),
{
    let ghost a0 = *ar;
    let ghost os = ops(vts(old(ar), vals@), items@);
    proof {
        lemma_keeps_refl(ar);
    }
    if items.len() == 0 {
        return ComplexExpr { real: ZERO, imaginary: ZERO };
    }
    let mut acc = get_complex(vals, items[0]);
    proof {
        assert(os.take(1) =~= seq![os[0]]);
        assert(items_complex(vals@, items@));
        assert(items@[0].0 < vals.len());
        assert(v_valid(&a0, vals@[items@[0].0 as int]));
        assert(vts(&a0, vals@)[items@[0].0 as int] == vt(&a0, vals@[items@[0].0 as int]));
        assert(os[0] == ct(&a0, acc));
        assert(cx_sum(os.take(1)) == os[0]);
        assert(cx_prod(os.take(1)) == os[0]);
    }
    let mut j: usize = 1;
    while j < items.len()
        invariant
            1 <= j <= items.len(),
            ar.wf(),
            keeps(&a0, ar),
            a0.wf(),
            all_valid(&a0, vals@),
            items_complex(vals@, items@),
            os == ops(vts(&a0, vals@), items@),
            c_valid(ar, acc),
            ct(ar, acc) == cx_sum(os.take(j as int)),
        decreases items.len() - j,
    {
        let ghost p = *ar;
        proof {
            lemma_keeps_values(&a0, ar, vals@);
        }
        let c = get_complex(vals, items[j]);
        proof {
            let k = items@[j as int].0 as int;
            assert(items@[j as int].0 < vals.len());
            assert(v_valid(ar, vals@[k]));
            assert(vts(&a0, vals@)[k] == vt(&a0, vals@[k]));
            assert(vts(ar, vals@)[k] == vt(ar, vals@[k]));
            assert(os[j as int] == ct(ar, c));
        }
        acc = c_add(ar, acc, c);
        proof {
            lemma_keeps_trans(&a0, &p, ar);
            assert(os.take(j + 1).drop_last() =~= os.take(j as int));
            assert(os.take(j + 1).last() == os[j as int]);
        }
        j = j + 1;
    }
    proof {
        assert(os.take(j as int) =~= os);
    }
    acc
}

#[verifier::rlimit(50)]
/// The product of the listed complex values, one when there are none.
pub fn product_list(ar: &mut Arena, vals: &Vec<ValueExpr>, items: &Vec<VarIndex>) -> (out: ComplexExpr)
    requires
        old(ar).wf(),
        all_valid(old(ar), vals@),
        items_complex(vals@, items@),
    ensures
        final(ar).wf(),
        keeps(old(ar), final(ar)),
        c_valid(final(ar), out),
        ct(final(ar), out) == cx_prod(ops(vts(old(ar), vals@), items@)),
{
    let ghost a0 = *ar;
    let ghost os = ops(vts(old(ar), vals@), items@);
    proof {
        lemma_keeps_refl(ar);
    }
    if items.len() == 0 {
        return ComplexExpr { real: ONE, imaginary: ZERO };
    }
    let mut acc = get_complex(vals, items[0]);
    proof {
        assert(os.take(1) =~= seq![os[0]]);
        assert(items_complex(vals@, items@));
        assert(items@[0].0 < vals.len());
        assert(v_valid(&a0, vals@[items@[0].0 as int]));
        assert(vts(&a0, vals@)[items@[0].0 as int] == vt(&a0, vals@[items@[0].0 as int]));
        assert(os[0] == ct(&a0, acc));
        assert(cx_sum(os.take(1)) == os[0]);
        assert(cx_prod(os.take(1)) == os[0]);
    }
    let mut j: usize = 1;
    while j < items.len()
        invariant
            1 <= j <= items.len(),
            ar.wf(),
            keeps(&a0, ar),
            a0.wf(),
            all_valid(&a0, vals@),
            items_complex(vals@, items@),
            os == ops(vts(&a0, vals@), items@),
            c_valid(ar, acc),
            ct(ar, acc) == cx_prod(os.take(j as int)),
        decreases items.len() - j,
    {
        let ghost p = *ar;
        proof {
            lemma_keeps_values(&a0, ar, vals@);
        }
        let c = get_complex(vals, items[j]);
        proof {
            let k = items@[j as int].0 as int;
            assert(items@[j as int].0 < vals.len());
            assert(v_valid(ar, vals@[k]));
            assert(vts(&a0, vals@)[k] == vt(&a0, vals@[k]));
            assert(vts(ar, vals@)[k] == vt(ar, vals@[k]));
            assert(os[j as int] == ct(ar, c));
        }
        acc = c_mul(ar, acc, c);
        proof {
            lemma_keeps_trans(&a0, &p, ar);
            assert(os.take(j + 1).drop_last() =~= os.take(j as int));
            assert(os.take(j + 1).last() == os[j as int]);
        }
        j = j + 1;
    }
    proof {
        assert(os.take(j as int) =~= os);
    }
    acc
}


/// The complex tree of expression `v` among the earlier values.
pub open spec fn cp(prev: Seq<VTerm>, v: VarIndex) -> CTerm {
    vc(prev[v.0 as int])
}

/// The inputs an entity reads, starting at input `k`.
pub open spec fn adj_term(e: EntityKind, k: nat) -> VTerm {
    match e {
        EntityKind::FreePoint => VTerm::Complex(cterm(Term::Input(k), Term::Input(k + 1))),
        _ => VTerm::Single(Term::Input(k)),
    }
}

/// The shape of what an entity reads from the inputs.
pub open spec fn adj_shape(e: EntityKind) -> Shape {
    match e {
        EntityKind::FreePoint => Shape::Complex,
        _ => Shape::Single,
    }
}

/// The value of an entity, given what it reads and the earlier expressions.
pub open spec fn entity_term(e: EntityKind, adj: VTerm, prev: Seq<VTerm>) -> VTerm {
    match e {
        EntityKind::FreePoint => adj,
        EntityKind::PointOnLine { line } => VTerm::Complex(
            on_line_term(vline_o(prev[line.0 as int]), vline_d(prev[line.0 as int]), vsingle(adj)),
        ),
        EntityKind::PointOnCircle { circle } => VTerm::Complex(
            on_circle_term(vcirc_c(prev[circle.0 as int]), vcirc_r(prev[circle.0 as int]), vsingle(adj)),
        ),
        EntityKind::FreeReal | EntityKind::DistanceUnit => VTerm::Complex(cx_real(vsingle(adj))),
    }
}

/// The value of an expression of kind `k`, given the entities, what they
/// read, and the earlier expressions' values.
pub open spec fn expr_term(es: Seq<EntityKind>, adj: Seq<VTerm>, prev: Seq<VTerm>, k: ExpressionKind) -> VTerm {
    match k {
        ExpressionKind::Entity { id } => entity_term(es[id.0 as int], adj[id.0 as int], prev),
        ExpressionKind::LineLineIntersection { k, l } => VTerm::Complex(
            intersection_term(
                vline_o(prev[k.0 as int]),
                vline_d(prev[k.0 as int]),
                vline_o(prev[l.0 as int]),
                vline_d(prev[l.0 as int]),
            ),
        ),
        ExpressionKind::AveragePoint { items } => VTerm::Complex(
            cx_div_real(cx_sum(ops(prev, items@)), nat_term(items.len() as nat)),
        ),
        ExpressionKind::CircleCenter { circle } => VTerm::Complex(vcirc_c(prev[circle.0 as int])),
        ExpressionKind::Sum { plus, minus } => VTerm::Complex(
            cx_sub(cx_sum(ops(prev, plus@)), cx_sum(ops(prev, minus@))),
        ),
        ExpressionKind::Product { times, by } => VTerm::Complex(
            cx_div(cx_prod(ops(prev, times@)), cx_prod(ops(prev, by@))),
        ),
        ExpressionKind::Const { value } => VTerm::Complex(
            cterm(Term::Const(value.real), Term::Const(value.imaginary)),
        ),
        ExpressionKind::Power { value, exponent } => VTerm::Complex(
            cx_pow(
                cp(prev, value),
                cx_real(t_div(int_term(exponent.num as int), int_term(exponent.denom as int))),
            ),
        ),
        ExpressionKind::PointPointDistance { p, q } => VTerm::Complex(
            cx_real(cx_abs(cx_sub(cp(prev, p), cp(prev, q)))),
        ),
        ExpressionKind::PointLineDistance { point, line } => VTerm::Complex(
            cx_real(
                point_line_distance_term(
                    cp(prev, point),
                    vline_o(prev[line.0 as int]),
                    vline_d(prev[line.0 as int]),
                ),
            ),
        ),
        ExpressionKind::ThreePointAngle { a, b, c } => VTerm::Complex(
            cx_real(angle_term(cp(prev, a), cp(prev, b), cp(prev, c))),
        ),
        ExpressionKind::ThreePointAngleDir { a, b, c } => VTerm::Complex(
            cx_real(angle_dir_term(cp(prev, a), cp(prev, b), cp(prev, c))),
        ),
        ExpressionKind::TwoLineAngle { k, l } => VTerm::Complex(
            cx_real(line_angle_term(vline_d(prev[k.0 as int]), vline_d(prev[l.0 as int]))),
        ),
        ExpressionKind::PointX { point } => VTerm::Complex(cx_real(cp(prev, point).re)),
        ExpressionKind::PointY { point } => VTerm::Complex(cx_real(cp(prev, point).im)),
        ExpressionKind::PointPoint { p, q } => VTerm::Line(
            cp(prev, p),
            normalize_term(cx_sub(cp(prev, q), cp(prev, p))),
        ),
        ExpressionKind::PointVector { point, vector } => VTerm::Line(
            cp(prev, point),
            normalize_term(cp(prev, vector)),
        ),
        ExpressionKind::AngleBisector { p, q, r } => VTerm::Line(
            cp(prev, q),
            bisector_dir_term(cp(prev, p), cp(prev, q), cp(prev, r)),
        ),
        ExpressionKind::PerpendicularThrough { point, line } => VTerm::Line(
            cp(prev, point),
            cx_mul_i(vline_d(prev[line.0 as int])),
        ),
        ExpressionKind::ParallelThrough { point, line } => VTerm::Line(
            cp(prev, point),
            vline_d(prev[line.0 as int]),
        ),
        ExpressionKind::ConstructCircle { center, radius } => VTerm::Circle(
            cp(prev, center),
            cp(prev, radius).re,
        ),
        ExpressionKind::DirectionVector { line } => VTerm::Complex(vline_d(prev[line.0 as int])),
        ExpressionKind::PointToComplex { point } => VTerm::Complex(cp(prev, point)),
        ExpressionKind::ComplexToPoint { number } => VTerm::Complex(cp(prev, number)),
        ExpressionKind::Real { number } => VTerm::Complex(cx_real(cp(prev, number).re)),
        ExpressionKind::Imaginary { number } => VTerm::Complex(cx_real(cp(prev, number).im)),
        ExpressionKind::Log { number } => VTerm::Complex(cx_log(cp(prev, number))),
        ExpressionKind::Exp { number } => VTerm::Complex(cx_exp(cp(prev, number))),
        ExpressionKind::Sin { angle } => VTerm::Complex(cx_sin(cp(prev, angle))),
        ExpressionKind::Cos { angle } => VTerm::Complex(cx_cos(cp(prev, angle))),
        ExpressionKind::Atan2 { y, x } => VTerm::Complex(
            cx_real(t_atan2(cp(prev, y).re, cp(prev, x).re)),
        ),
    }
}

/// The complex value of expression `v`, valid in `ar`.
pub fn complex_at(ar: &Arena, vals: &Vec<ValueExpr>, v: VarIndex) -> (r: ComplexExpr)
    requires
        all_valid(ar, vals@),
        v.0 < vals.len(),
        v_shape(vals@[v.0 as int]) == Shape::Complex,
    ensures
        c_valid(ar, r),
        ct(ar, r) == cp(vts(ar, vals@), v),
{
    let r = get_complex(vals, v);
    proof {
        assert(v_valid(ar, vals@[v.0 as int]));
    }
    r
}

/// The line value of expression `v`, valid in `ar`.
pub fn line_at(ar: &Arena, vals: &Vec<ValueExpr>, v: VarIndex) -> (r: LineExpr)
    requires
        all_valid(ar, vals@),
        v.0 < vals.len(),
        v_shape(vals@[v.0 as int]) == Shape::Line,
    ensures
        l_valid(ar, r),
        ct(ar, r.origin) == vline_o(vts(ar, vals@)[v.0 as int]),
        ct(ar, r.direction) == vline_d(vts(ar, vals@)[v.0 as int]),
{
    let r = get_line(vals, v);
    proof {
        assert(v_valid(ar, vals@[v.0 as int]));
    }
    r
}

/// The circle value of expression `v`, valid in `ar`.
pub fn circle_at(ar: &Arena, vals: &Vec<ValueExpr>, v: VarIndex) -> (r: CircleExpr)
    requires
        all_valid(ar, vals@),
        v.0 < vals.len(),
        v_shape(vals@[v.0 as int]) == Shape::Circle,
    ensures
        circ_valid(ar, r),
        ct(ar, r.center) == vcirc_c(vts(ar, vals@)[v.0 as int]),
        tm(ar, r.radius) == vcirc_r(vts(ar, vals@)[v.0 as int]),
{
    let r = get_circle(vals, v);
    proof {
        assert(v_valid(ar, vals@[v.0 as int]));
    }
    r
}

/// Shapes checked against the expression kinds are the values' shapes.
pub proof fn lemma_refs_items(vals: Seq<ValueExpr>, items: Seq<VarIndex>)
    requires
        refs_ok(vshapes(vals), vals.len() as int, items),
    ensures
        items_complex(vals, items),
{
    assert forall|j: int| 0 <= j < items.len() implies (#[trigger] items[j]).0 < vals.len() && v_shape(
        vals[items[j].0 as int],
    ) == Shape::Complex by {
        assert(ref_ok(vshapes(vals), vals.len() as int, items[j], Shape::Complex));
    }
}


/// What the entities read has the shapes the entities call for.
pub open spec fn adj_ok(es: Seq<EntityKind>, adj: Seq<ValueExpr>) -> bool {
    &&& adj.len() == es.len()
    &&& forall|e: int| 0 <= e < es.len() ==> v_shape(#[trigger] adj[e]) == adj_shape(es[e])
}

/// The value of entity `id`.
pub fn lower_entity(
    ar: &mut Arena,
    ents: &Vec<EntityKind>,
    adj: &Vec<ValueExpr>,
    vals: &Vec<ValueExpr>,
    id: usize,
) -> (out: ValueExpr)
    requires
        old(ar).wf(),
        all_valid(old(ar), adj@),
        all_valid(old(ar), vals@),
        adj_ok(ents@, adj@),
        kind_ok(ents@, vshapes(vals@), vals.len() as int, ExpressionKind::Entity { id: crate::ir::EntityIndex(id) }),
    ensures
        final(ar).wf(),
        keeps(old(ar), final(ar)),
        v_valid(final(ar), out),
        v_shape(out) == Shape::Complex,
        vt(final(ar), out) == entity_term(ents@[id as int], vts(old(ar), adj@)[id as int], vts(old(ar), vals@)),
{
    proof {
        lemma_keeps_refl(ar);
        assert(v_valid(ar, adj@[id as int]));
    }
    match ents[id] {
        EntityKind::FreePoint => match adj[id] {
            ValueExpr::Complex(c) => ValueExpr::Complex(c),
            _ => ValueExpr::Complex(ComplexExpr { real: ZERO, imaginary: ZERO }),
        },
        EntityKind::PointOnLine { line } => {
            let l = line_at(ar, vals, line);
            let t = get_single(adj, id);
            ValueExpr::Complex(point_on_line(ar, l, t))
        },
        EntityKind::PointOnCircle { circle } => {
            let c = circle_at(ar, vals, circle);
            let t = get_single(adj, id);
            ValueExpr::Complex(point_on_circle(ar, c, t))
        },
        EntityKind::FreeReal | EntityKind::DistanceUnit => {
            let t = get_single(adj, id);
            ValueExpr::Complex(ComplexExpr::from_real(t))
        },
    }
}

/// The value of an expression of kind `k`, from the values of the entities'
/// inputs and of the earlier expressions.
#[verifier::rlimit(100)]
pub fn lower_expression(
    ar: &mut Arena,
    ents: &Vec<EntityKind>,
    adj: &Vec<ValueExpr>,
    vals: &Vec<ValueExpr>,
    k: &ExpressionKind,
) -> (out: ValueExpr)
    requires
        old(ar).wf(),
        all_valid(old(ar), adj@),
        all_valid(old(ar), vals@),
        adj_ok(ents@, adj@),
        kind_ok(ents@, vshapes(vals@), vals.len() as int, *k),
    ensures
        final(ar).wf(),
        keeps(old(ar), final(ar)),
        v_valid(final(ar), out),
        v_shape(out) == kind_shape(*k),
        vt(final(ar), out) == expr_term(ents@, vts(old(ar), adj@), vts(old(ar), vals@), *k),
{
    match k {
        ExpressionKind::Entity { id } => lower_entity(ar, ents, adj, vals, id.0),
        ExpressionKind::LineLineIntersection { k, l } => {
            let a = line_at(ar, vals, *k);
            let b = line_at(ar, vals, *l);
            let ghost a0 = *ar;
            proof {
                lemma_keeps_refl(ar);
            }
            let ghost at0 = *ar;
            let r = intersection(ar, a, b);
            proof {
                lemma_keeps_trans(&a0, &at0, ar);
            }
            ValueExpr::Complex(r)
        },
        ExpressionKind::AveragePoint { items } => {

            let ghost a0 = *ar;
            proof {
                lemma_keeps_refl(ar);
            }
            proof {
                lemma_refs_items(vals@, items@);
            }
            let ghost at0 = *ar;
            let sum = sum_list(ar, vals, items);
            proof {
                lemma_keeps_trans(&a0, &at0, ar);
            }
            let ghost at1 = *ar;
            let n = nat_node(ar, items.len() as u64);
            proof {
                lemma_keeps_trans(&a0, &at1, ar);
            }
            let ghost at2 = *ar;
            let r = c_div_real(ar, sum, n);
            proof {
                lemma_keeps_trans(&a0, &at2, ar);
            }
            ValueExpr::Complex(r)
        },
        ExpressionKind::CircleCenter { circle } => {
            let c = circle_at(ar, vals, *circle);
            let ghost a0 = *ar;
            proof {
                lemma_keeps_refl(ar);
            }
            ValueExpr::Complex(c.center)
        },
        ExpressionKind::Sum { plus, minus } => {

            let ghost a0 = *ar;
            proof {
                lemma_keeps_refl(ar);
            }
            proof {
                lemma_refs_items(vals@, plus@);
                lemma_refs_items(vals@, minus@);
            }
            let ghost at0 = *ar;
            let x = sum_list(ar, vals, plus);
            proof {
                lemma_keeps_trans(&a0, &at0, ar);
            }
            let ghost at1 = *ar;
            proof {
                lemma_keeps_values(&a0, ar, vals@);
            }
            let y = sum_list(ar, vals, minus);
            proof {
                lemma_keeps_trans(&a0, &at1, ar);
            }
            let ghost at2 = *ar;
            let r = c_sub(ar, x, y);
            proof {
                lemma_keeps_trans(&a0, &at2, ar);
            }
            ValueExpr::Complex(r)
        },
        ExpressionKind::Product { times, by } => {

            let ghost a0 = *ar;
            proof {
                lemma_keeps_refl(ar);
            }
            proof {
                lemma_refs_items(vals@, times@);
                lemma_refs_items(vals@, by@);
            }
            let ghost at0 = *ar;
            let x = product_list(ar, vals, times);
            proof {
                lemma_keeps_trans(&a0, &at0, ar);
            }
            let ghost at1 = *ar;
            proof {
                lemma_keeps_values(&a0, ar, vals@);
            }
            let y = product_list(ar, vals, by);
            proof {
                lemma_keeps_trans(&a0, &at1, ar);
            }
            let ghost at2 = *ar;
            let r = c_div(ar, x, y);
            proof {
                lemma_keeps_trans(&a0, &at2, ar);
            }
            ValueExpr::Complex(r)
        },
        ExpressionKind::Const { value } => {

            let ghost a0 = *ar;
            proof {
                lemma_keeps_refl(ar);
            }
            let ghost at0 = *ar;
            let re = ar.constant(value.real);
            proof {
                lemma_keeps_trans(&a0, &at0, ar);
            }
            let ghost at1 = *ar;
            let im = ar.constant(value.imaginary);
            proof {
                lemma_keeps_trans(&a0, &at1, ar);
            }
            ValueExpr::Complex(ComplexExpr { real: re, imaginary: im })
        },
        ExpressionKind::Power { value, exponent } => {
            let v = complex_at(ar, vals, *value);
            let ghost a0 = *ar;
            proof {
                lemma_keeps_refl(ar);
            }
            let ghost at0 = *ar;
            let num = int_node(ar, exponent.num);
            proof {
                lemma_keeps_trans(&a0, &at0, ar);
            }
            let ghost at1 = *ar;
            let den = int_node(ar, exponent.denom);
            proof {
                lemma_keeps_trans(&a0, &at1, ar);
            }
            let ghost at2 = *ar;
            let e = ar.div(num, den);
            proof {
                lemma_keeps_trans(&a0, &at2, ar);
            }
            let ghost at3 = *ar;
            let r = c_pow(ar, v, ComplexExpr::from_real(e));
            proof {
                lemma_keeps_trans(&a0, &at3, ar);
            }
            ValueExpr::Complex(r)
        },
        ExpressionKind::PointPointDistance { p, q } => {
            let a = complex_at(ar, vals, *p);
            let b = complex_at(ar, vals, *q);
            let ghost a0 = *ar;
            proof {
                lemma_keeps_refl(ar);
            }
            let ghost at0 = *ar;
            let r = point_point_distance(ar, a, b);
            proof {
                lemma_keeps_trans(&a0, &at0, ar);
            }
            ValueExpr::Complex(ComplexExpr::from_real(r))
        },
        ExpressionKind::PointLineDistance { point, line } => {
            let a = complex_at(ar, vals, *point);
            let b = line_at(ar, vals, *line);
            let ghost a0 = *ar;
            proof {
                lemma_keeps_refl(ar);
            }
            let ghost at0 = *ar;
            let r = point_line_distance(ar, a, b);
            proof {
                lemma_keeps_trans(&a0, &at0, ar);
            }
            ValueExpr::Complex(ComplexExpr::from_real(r))
        },
        ExpressionKind::ThreePointAngle { a, b, c } => {
            let x = complex_at(ar, vals, *a);
            let y = complex_at(ar, vals, *b);
            let z = complex_at(ar, vals, *c);
            let ghost a0 = *ar;
            proof {
                lemma_keeps_refl(ar);
            }
            let ghost at0 = *ar;
            let r = angle(ar, x, y, z);
            proof {
                lemma_keeps_trans(&a0, &at0, ar);
            }
            ValueExpr::Complex(ComplexExpr::from_real(r))
        },
        ExpressionKind::ThreePointAngleDir { a, b, c } => {
            let x = complex_at(ar, vals, *a);
            let y = complex_at(ar, vals, *b);
            let z = complex_at(ar, vals, *c);
            let ghost a0 = *ar;
            proof {
                lemma_keeps_refl(ar);
            }
            let ghost at0 = *ar;
            let r = angle_dir(ar, x, y, z);
            proof {
                lemma_keeps_trans(&a0, &at0, ar);
            }
            ValueExpr::Complex(ComplexExpr::from_real(r))
        },
        ExpressionKind::TwoLineAngle { k, l } => {
            let a = line_at(ar, vals, *k);
            let b = line_at(ar, vals, *l);
            let ghost a0 = *ar;
            proof {
                lemma_keeps_refl(ar);
            }
            let ghost at0 = *ar;
            let r = line_angle(ar, a, b);
            proof {
                lemma_keeps_trans(&a0, &at0, ar);
            }
            ValueExpr::Complex(ComplexExpr::from_real(r))
        },
        ExpressionKind::PointX { point } => {
            let a = complex_at(ar, vals, *point);
            let ghost a0 = *ar;
            proof {
                lemma_keeps_refl(ar);
            }
            ValueExpr::Complex(ComplexExpr::from_real(a.real))
        },
        ExpressionKind::PointY { point } => {
            let a = complex_at(ar, vals, *point);
            let ghost a0 = *ar;
            proof {
                lemma_keeps_refl(ar);
            }
            ValueExpr::Complex(ComplexExpr::from_real(a.imaginary))
        },
        ExpressionKind::PointPoint { p, q } => {
            let a = complex_at(ar, vals, *p);
            let b = complex_at(ar, vals, *q);
            let ghost a0 = *ar;
            proof {
                lemma_keeps_refl(ar);
            }
            let ghost at0 = *ar;
            let r = line_through(ar, a, b);
            proof {
                lemma_keeps_trans(&a0, &at0, ar);
            }
            ValueExpr::Line(r)
        },
        ExpressionKind::PointVector { point, vector } => {
            let a = complex_at(ar, vals, *point);
            let b = complex_at(ar, vals, *vector);
            let ghost a0 = *ar;
            proof {
                lemma_keeps_refl(ar);
            }
            let ghost at0 = *ar;
            let d = normalize(ar, b);
            proof {
                lemma_keeps_trans(&a0, &at0, ar);
            }
            ValueExpr::Line(LineExpr { origin: a, direction: d })
        },
        ExpressionKind::AngleBisector { p, q, r } => {
            let a = complex_at(ar, vals, *p);
            let b = complex_at(ar, vals, *q);
            let c = complex_at(ar, vals, *r);
            let ghost a0 = *ar;
            proof {
                lemma_keeps_refl(ar);
            }
            let ghost at0 = *ar;
            let d = bisector_direction(ar, a, b, c);
            proof {
                lemma_keeps_trans(&a0, &at0, ar);
            }
            ValueExpr::Line(LineExpr { origin: b, direction: d })
        },
        ExpressionKind::PerpendicularThrough { point, line } => {
            let a = complex_at(ar, vals, *point);
            let l = line_at(ar, vals, *line);
            let ghost a0 = *ar;
            proof {
                lemma_keeps_refl(ar);
            }
            let ghost at0 = *ar;
            let d = c_mul_i(ar, l.direction);
            proof {
                lemma_keeps_trans(&a0, &at0, ar);
            }
            ValueExpr::Line(LineExpr { origin: a, direction: d })
        },
        ExpressionKind::ParallelThrough { point, line } => {
            let a = complex_at(ar, vals, *point);
            let l = line_at(ar, vals, *line);
            let ghost a0 = *ar;
            proof {
                lemma_keeps_refl(ar);
            }
            ValueExpr::Line(LineExpr { origin: a, direction: l.direction })
        },
        ExpressionKind::ConstructCircle { center, radius } => {
            let a = complex_at(ar, vals, *center);
            let b = complex_at(ar, vals, *radius);
            let ghost a0 = *ar;
            proof {
                lemma_keeps_refl(ar);
            }
            ValueExpr::Circle(CircleExpr { center: a, radius: b.real })
        },
        ExpressionKind::DirectionVector { line } => {
            let l = line_at(ar, vals, *line);
            let ghost a0 = *ar;
            proof {
                lemma_keeps_refl(ar);
            }
            ValueExpr::Complex(l.direction)
        },
        ExpressionKind::PointToComplex { point } => {
            let a = complex_at(ar, vals, *point);
            let ghost a0 = *ar;
            proof {
                lemma_keeps_refl(ar);
            }
            ValueExpr::Complex(a)
        },
        ExpressionKind::ComplexToPoint { number } => {
            let a = complex_at(ar, vals, *number);
            let ghost a0 = *ar;
            proof {
                lemma_keeps_refl(ar);
            }
            ValueExpr::Complex(a)
        },
        ExpressionKind::Real { number } => {
            let a = complex_at(ar, vals, *number);
            let ghost a0 = *ar;
            proof {
                lemma_keeps_refl(ar);
            }
            ValueExpr::Complex(ComplexExpr::from_real(a.real))
        },
        ExpressionKind::Imaginary { number } => {
            let a = complex_at(ar, vals, *number);
            let ghost a0 = *ar;
            proof {
                lemma_keeps_refl(ar);
            }
            ValueExpr::Complex(ComplexExpr::from_real(a.imaginary))
        },
        ExpressionKind::Log { number } => {
            let a = complex_at(ar, vals, *number);
            let ghost a0 = *ar;
            proof {
                lemma_keeps_refl(ar);
            }
            let ghost at0 = *ar;
            let r = c_log(ar, a);
            proof {
                lemma_keeps_trans(&a0, &at0, ar);
            }
            ValueExpr::Complex(r)
        },
        ExpressionKind::Exp { number } => {
            let a = complex_at(ar, vals, *number);
            let ghost a0 = *ar;
            proof {
                lemma_keeps_refl(ar);
            }
            let ghost at0 = *ar;
            let r = c_exp(ar, a);
            proof {
                lemma_keeps_trans(&a0, &at0, ar);
            }
            ValueExpr::Complex(r)
        },
        ExpressionKind::Sin { angle } => {
            let a = complex_at(ar, vals, *angle);
            let ghost a0 = *ar;
            proof {
                lemma_keeps_refl(ar);
            }
            let ghost at0 = *ar;
            let r = c_sin(ar, a);
            proof {
                lemma_keeps_trans(&a0, &at0, ar);
            }
            ValueExpr::Complex(r)
        },
        ExpressionKind::Cos { angle } => {
            let a = complex_at(ar, vals, *angle);
            let ghost a0 = *ar;
            proof {
                lemma_keeps_refl(ar);
            }
            let ghost at0 = *ar;
            let r = c_cos(ar, a);
            proof {
                lemma_keeps_trans(&a0, &at0, ar);
            }
            ValueExpr::Complex(r)
        },
        ExpressionKind::Atan2 { y, x } => {
            let a = complex_at(ar, vals, *y);
            let b = complex_at(ar, vals, *x);
            let ghost a0 = *ar;
            proof {
                lemma_keeps_refl(ar);
            }
            let ghost at0 = *ar;
            let r = ar.atan2(a.real, b.real);
            proof {
                lemma_keeps_trans(&a0, &at0, ar);
            }
            ValueExpr::Complex(ComplexExpr::from_real(r))
        },
    }
}


/// Interning, for lowered values: in a well-formed arena two valid values
/// with the same trees are the same value, so lowering an expression again
/// over the same earlier values gives back the same handles.
pub proof fn lemma_same_tree_same_value(a: &Arena, v1: ValueExpr, v2: ValueExpr)
    requires
        a.wf(),
        v_valid(a, v1),
        v_valid(a, v2),
        vt(a, v1) == vt(a, v2),
    ensures
        v1 == v2,
{
    match (v1, v2) {
        (ValueExpr::This(x), ValueExpr::This(y)) => {
            lemma_term_injective(a, x as int, y as int);
        },
        (ValueExpr::Complex(x), ValueExpr::Complex(y)) => {
            lemma_term_injective(a, x.real as int, y.real as int);
            lemma_term_injective(a, x.imaginary as int, y.imaginary as int);
        },
        (ValueExpr::Line(x), ValueExpr::Line(y)) => {
            lemma_term_injective(a, x.origin.real as int, y.origin.real as int);
            lemma_term_injective(a, x.origin.imaginary as int, y.origin.imaginary as int);
            lemma_term_injective(a, x.direction.real as int, y.direction.real as int);
            lemma_term_injective(a, x.direction.imaginary as int, y.direction.imaginary as int);
        },
        (ValueExpr::Circle(x), ValueExpr::Circle(y)) => {
            lemma_term_injective(a, x.center.real as int, y.center.real as int);
            lemma_term_injective(a, x.center.imaginary as int, y.center.imaginary as int);
            lemma_term_injective(a, x.radius as int, y.radius as int);
        },
        _ => {},
    }
}

} // verus!
