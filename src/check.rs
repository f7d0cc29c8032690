//! Checking a script before it is lowered: every reference resolves, with
//! the right shape.
use crate::ir::{
    alts_ok, entity_ok, entity_width, inputs_before, intermediate_ok, kind_ok, kind_shape,
    lemma_alts_ok, ref_ok, refs_ok, rule_entry_ok, rule_ok, shape_of, shapes_of, EntityKind, ExpressionKind,
    Intermediate, RuleKind, Shape, VarIndex,
};
use vstd::prelude::*;

verus! {

broadcast use vstd::std_specs::vec::group_vec_axioms;

/// Whether `v` names one of the first `n` expressions, of shape `s`.
pub fn r(shapes: &Vec<Shape>, n: usize, v: VarIndex, s: Shape) -> (b: bool)
    requires
        n <= shapes.len(),
    ensures
        b == ref_ok(shapes@.take(n as int), n as int, v, s),
{
    v.0 < n && shapes[v.0] == s
}

/// Whether all of `vs` name complex expressions among the first `n`.
pub fn rs(shapes: &Vec<Shape>, n: usize, vs: &Vec<VarIndex>) -> (b: bool)
    requires
        n <= shapes.len(),
    ensures
        b == refs_ok(shapes@.take(n as int), n as int, vs@),
{
    let mut j: usize = 0;
    while j < vs.len()
        invariant
            j <= vs.len(),
            n <= shapes.len(),
            forall|k: int| 0 <= k < j ==> #[trigger] ref_ok(shapes@.take(n as int), n as int, vs@[k], Shape::Complex),
        decreases vs.len() - j,
    {
        if !r(shapes, n, vs[j], Shape::Complex) {
            return false;
        }
        j = j + 1;
    }
    true
}

/// Whether an entity's line or circle is among the first `n` expressions.
pub fn entity_check(shapes: &Vec<Shape>, n: usize, e: EntityKind) -> (b: bool)
    requires
        n <= shapes.len(),
    ensures
        b == entity_ok(shapes@.take(n as int), n as int, e),
{
    match e {
        EntityKind::PointOnLine { line } => r(shapes, n, line, Shape::Line),
        EntityKind::PointOnCircle { circle } => r(shapes, n, circle, Shape::Circle),
        _ => true,
    }
}

/// Whether expression `n`, of kind `k`, refers only to what exists.
pub fn kind_check(es: &Vec<EntityKind>, shapes: &Vec<Shape>, n: usize, k: &ExpressionKind) -> (b: bool)
    requires
        n <= shapes.len(),
    ensures
        b == kind_ok(es@, shapes@.take(n as int), n as int, *k),
{
    match k {
        ExpressionKind::Entity { id } => id.0 < es.len() && entity_check(shapes, n, es[id.0]),
        ExpressionKind::LineLineIntersection { k, l } => r(shapes, n, *k, Shape::Line) && r(shapes, n, *l, Shape::Line),
        ExpressionKind::AveragePoint { items } => rs(shapes, n, items),
        ExpressionKind::CircleCenter { circle } => r(shapes, n, *circle, Shape::Circle),
        ExpressionKind::Sum { plus, minus } => rs(shapes, n, plus) && rs(shapes, n, minus),
        ExpressionKind::Product { times, by } => rs(shapes, n, times) && rs(shapes, n, by),
        ExpressionKind::Const { .. } => true,
        ExpressionKind::Power { value, exponent } => r(shapes, n, *value, Shape::Complex) && exponent.denom != 0,
        ExpressionKind::PointPointDistance { p, q } => r(shapes, n, *p, Shape::Complex) && r(shapes, n, *q, Shape::Complex),
        ExpressionKind::PointLineDistance { point, line } => r(shapes, n, *point, Shape::Complex) && r(shapes, n, *line, Shape::Line),
        ExpressionKind::ThreePointAngle { a, b, c } => r(shapes, n, *a, Shape::Complex) && r(shapes, n, *b, Shape::Complex) && r(shapes, n, *c, Shape::Complex),
        ExpressionKind::ThreePointAngleDir { a, b, c } => r(shapes, n, *a, Shape::Complex) && r(shapes, n, *b, Shape::Complex) && r(shapes, n, *c, Shape::Complex),
        ExpressionKind::TwoLineAngle { k, l } => r(shapes, n, *k, Shape::Line) && r(shapes, n, *l, Shape::Line),
        ExpressionKind::PointX { point } => r(shapes, n, *point, Shape::Complex),
        ExpressionKind::PointY { point } => r(shapes, n, *point, Shape::Complex),
        ExpressionKind::PointPoint { p, q } => r(shapes, n, *p, Shape::Complex) && r(shapes, n, *q, Shape::Complex),
        ExpressionKind::PointVector { point, vector } => r(shapes, n, *point, Shape::Complex) && r(shapes, n, *vector, Shape::Complex),
        ExpressionKind::AngleBisector { p, q, r: c } => r(shapes, n, *p, Shape::Complex) && r(shapes, n, *q, Shape::Complex) && r(shapes, n, *c, Shape::Complex),
        ExpressionKind::PerpendicularThrough { point, line } => r(shapes, n, *point, Shape::Complex) && r(shapes, n, *line, Shape::Line),
        ExpressionKind::ParallelThrough { point, line } => r(shapes, n, *point, Shape::Complex) && r(shapes, n, *line, Shape::Line),
        ExpressionKind::ConstructCircle { center, radius } => r(shapes, n, *center, Shape::Complex) && r(shapes, n, *radius, Shape::Complex),
        ExpressionKind::DirectionVector { line } => r(shapes, n, *line, Shape::Line),
        ExpressionKind::PointToComplex { point } => r(shapes, n, *point, Shape::Complex),
        ExpressionKind::ComplexToPoint { number } => r(shapes, n, *number, Shape::Complex),
        ExpressionKind::Real { number } => r(shapes, n, *number, Shape::Complex),
        ExpressionKind::Imaginary { number } => r(shapes, n, *number, Shape::Complex),
        ExpressionKind::Log { number } => r(shapes, n, *number, Shape::Complex),
        ExpressionKind::Exp { number } => r(shapes, n, *number, Shape::Complex),
        ExpressionKind::Sin { angle } => r(shapes, n, *angle, Shape::Complex),
        ExpressionKind::Cos { angle } => r(shapes, n, *angle, Shape::Complex),
        ExpressionKind::Atan2 { y, x } => r(shapes, n, *y, Shape::Complex) && r(shapes, n, *x, Shape::Complex),
    }
}

/// Whether a rule refers only to complex expressions among the first `n`.
pub fn rule_check(shapes: &Vec<Shape>, n: usize, k: &RuleKind) -> (b: bool)
    requires
        n <= shapes.len(),
    ensures
        b == rule_ok(shapes@.take(n as int), n as int, *k),
    decreases k,
{
    match k {
        RuleKind::PointEq(a, b) | RuleKind::NumberEq(a, b) | RuleKind::Gt(a, b) => r(
            shapes,
            n,
            *a,
            Shape::Complex,
        ) && r(shapes, n, *b, Shape::Complex),
        RuleKind::Alternative(alts) => {
            if alts.len() == 0 {
                return false;
            }
            let ghost sh = shapes@.take(n as int);
            proof {
                assert(decreases_to!(*k => *alts));
            }
            let mut j: usize = 0;
            while j < alts.len()
                invariant
                    j <= alts.len(),
                    n <= shapes.len(),
                    sh == shapes@.take(n as int),
                    *k == RuleKind::Alternative(*alts),
                    decreases_to!(*k => *alts),
                    alts_ok(sh, n as int, alts@, j as int),
                decreases alts.len() - j,
            {
                proof {
                    vstd::std_specs::vec::axiom_vec_index_decreases(*alts, j as int);
                }
                if !rule_check(shapes, n, &alts[j]) {
                    proof {
                        if alts_ok(sh, n as int, alts@, alts@.len() as int) {
                            lemma_alts_ok(sh, n as int, alts@, alts@.len() as int, j as int);
                        }
                    }
                    return false;
                }
                j = j + 1;
            }
            true
        },
        RuleKind::Invert(q) => rule_check(shapes, n, q),
        RuleKind::Bias => true,
    }
}

/// Whether the script is well formed, so that it can be lowered.
pub fn intermediate_ok_exec(ir: &Intermediate) -> (b: bool)
    ensures
        b == intermediate_ok(*ir),
{
    let mut shapes: Vec<Shape> = Vec::new();
    let mut i: usize = 0;
    while i < ir.variables.len()
        invariant
            i <= ir.variables.len(),
            shapes@ == shapes_of(ir.variables@).take(i as int),
        decreases ir.variables.len() - i,
    {
        shapes.push(shape_of(&ir.variables[i]));
        proof {
            assert(shapes@ =~= shapes_of(ir.variables@).take(i + 1));
        }
        i = i + 1;
    }
    proof {
        assert(shapes@ =~= shapes_of(ir.variables@));
    }
    let n = ir.variables.len();
    let mut i: usize = 0;
    while i < n
        invariant
            i <= n,
            n == ir.variables.len(),
            shapes@ == shapes_of(ir.variables@),
            forall|j: int| 0 <= j < i ==> #[trigger] kind_ok(ir.entities@, shapes_of(ir.variables@).take(j), j, ir.variables@[j]),
        decreases n - i,
    {
        if !kind_check(&ir.entities, &shapes, i, &ir.variables[i]) {
            proof {
                assert(!kind_ok(ir.entities@, shapes_of(ir.variables@).take(i as int), i as int, ir.variables@[i as int]));
            }
            return false;
        }
        i = i + 1;
    }
    let mut i: usize = 0;
    while i < ir.rules.len()
        invariant
            i <= ir.rules.len(),
            n == ir.variables.len(),
            shapes@ == shapes_of(ir.variables@),
            forall|j: int| 0 <= j < n ==> #[trigger] kind_ok(ir.entities@, shapes_of(ir.variables@).take(j), j, ir.variables@[j]),
            forall|j: int| 0 <= j < i ==> #[trigger] rule_entry_ok(shapes_of(ir.variables@), n as int, ir.entities.len() as int, ir.rules@[j]),
        decreases ir.rules.len() - i,
    {
        proof {
            assert(shapes@.take(n as int) =~= shapes@);
        }
        if !rule_check(&shapes, n, &ir.rules[i].kind) {
            proof {
                assert(!rule_entry_ok(shapes_of(ir.variables@), n as int, ir.entities.len() as int, ir.rules@[i as int]));
            }
            return false;
        }
        proof {
            assert(rule_ok(shapes_of(ir.variables@), n as int, ir.rules@[i as int].kind));
        }
        let list = &ir.rules[i].entities;
        let mut k: usize = 0;
        while k < list.len()
            invariant
                k <= list.len(),
                i < ir.rules.len(),
                n == ir.variables.len(),
                shapes@ == shapes_of(ir.variables@),
                rule_ok(shapes_of(ir.variables@), n as int, ir.rules@[i as int].kind),
                forall|j: int| 0 <= j < n ==> #[trigger] kind_ok(ir.entities@, shapes_of(ir.variables@).take(j), j, ir.variables@[j]),
                forall|j: int| 0 <= j < i ==> #[trigger] rule_entry_ok(shapes_of(ir.variables@), n as int, ir.entities.len() as int, ir.rules@[j]),
                *list == ir.rules@[i as int].entities,
                forall|m: int| 0 <= m < k ==> (#[trigger] list@[m]).0 < ir.entities.len(),
            decreases list.len() - k,
        {
            if list[k].0 >= ir.entities.len() {
                proof {
                    assert(ir.rules@[i as int].entities@[k as int].0 >= ir.entities.len());
                    assert(!rule_entry_ok(shapes_of(ir.variables@), n as int, ir.entities.len() as int, ir.rules@[i as int]));
                }
                return false;
            }
            k = k + 1;
        }
        proof {
            assert(rule_ok(shapes_of(ir.variables@), n as int, ir.rules@[i as int].kind));
            assert forall|m: int| 0 <= m < ir.rules@[i as int].entities.len() implies (#[trigger] ir.rules@[i as int].entities@[m]).0 < ir.entities.len() by {
                assert(list@[m] == ir.rules@[i as int].entities@[m]);
            }
            assert(rule_entry_ok(shapes_of(ir.variables@), n as int, ir.entities.len() as int, ir.rules@[i as int]));
        }
        i = i + 1;
    }
    let mut total: usize = 0;
    let mut e: usize = 0;
    while e < ir.entities.len()
        invariant
            e <= ir.entities.len(),
            n == ir.variables.len(),
            shapes@ == shapes_of(ir.variables@),
            total == inputs_before(ir.entities@, e as int),
            forall|j: int| 0 <= j < n ==> #[trigger] kind_ok(ir.entities@, shapes_of(ir.variables@).take(j), j, ir.variables@[j]),
            forall|j: int| 0 <= j < ir.rules.len() ==> #[trigger] rule_entry_ok(shapes_of(ir.variables@), n as int, ir.entities.len() as int, ir.rules@[j]),
            forall|j: int| 0 <= j < e ==> #[trigger] entity_ok(shapes_of(ir.variables@), n as int, ir.entities@[j]),
        decreases ir.entities.len() - e,
    {
        proof {
            assert(shapes@.take(n as int) =~= shapes@);
        }
        if !entity_check(&shapes, n, ir.entities[e]) {
            proof {
                assert(!entity_ok(shapes_of(ir.variables@), n as int, ir.entities@[e as int]));
            }
            return false;
        }
        let w: usize = match ir.entities[e] {
            EntityKind::FreePoint => 2,
            _ => 1,
        };
        if total > usize::MAX - w {
            proof {
                crate::compile::lemma_inputs_before_mono(ir.entities@, e as int + 1, ir.entities.len() as int);
            }
            return false;
        }
        total = total + w;
        e = e + 1;
    }
    proof {
        assert(shapes_of(ir.variables@).take(n as int) =~= shapes_of(ir.variables@));
    }
    true
}

} // verus!
