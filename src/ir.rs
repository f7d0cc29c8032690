//! The intermediate representation that the lowering consumes: entities,
//! expressions over earlier expressions, and rules.
use vstd::prelude::*;

verus! {

/// Index of an expression.
#[derive(Clone, Copy, Debug, PartialEq, Eq, Structural)]
pub struct VarIndex(pub usize);

/// Index of an entity.
#[derive(Clone, Copy, Debug, PartialEq, Eq, Structural)]
pub struct EntityIndex(pub usize);

/// A complex constant, each part an `f64` bit pattern.
#[derive(Clone, Copy, Debug, PartialEq, Eq, Structural)]
pub struct ComplexBits {
    pub real: u64,
    pub imaginary: u64,
}

/// A rational number `num / denom`; a usable ratio has `denom != 0`.
#[derive(Clone, Copy, Debug, PartialEq, Eq, Structural)]
pub struct Ratio {
    pub num: i64,
    pub denom: i64,
}

/// The default denominator of a ratio.
pub fn one_i64() -> (r: i64)
    ensures
        r == 1,
{
    1
}

impl Ratio {
    /// The ratio `0 / 1`.
    pub fn zero() -> (r: Ratio)
        ensures
            r.num == 0,
            r.denom == 1,
    {
        Ratio { num: 0, denom: one_i64() }
    }
}

/// How a drawn line is stroked.
#[derive(Clone, Copy, Debug, PartialEq, Eq, Structural)]
pub enum Style {
    Solid,
    Dotted,
    Dashed,
    Bold,
}

impl Style {
    /// The style's name as the figure format writes it.
    pub fn name(&self) -> (r: &'static str)
        ensures
            r@ == style_name(*self),
    {
        match self {
            Style::Solid => "solid",
            Style::Dotted => "dotted",
            Style::Dashed => "dashed",
            Style::Bold => "bold",
        }
    }
}

/// The name of a style.
pub open spec fn style_name(s: Style) -> Seq<char> {
    match s {
        Style::Solid => "solid"@,
        Style::Dotted => "dotted"@,
        Style::Dashed => "dashed"@,
        Style::Bold => "bold"@,
    }
}

/// An independently adjustable primitive, whose state lives in the inputs.
#[derive(Clone, Copy, Debug, PartialEq, Eq, Structural)]
pub enum EntityKind {
    /// A point anywhere: two inputs.
    FreePoint,
    /// A point on a line: one input, the position along the line.
    PointOnLine { line: VarIndex },
    /// A point on a circle: one input, the turn around the circle.
    PointOnCircle { circle: VarIndex },
    /// A real number: one input.
    FreeReal,
    /// The unit of distance: one input.
    DistanceUnit,
}

/// A derived value, computed from entities and earlier expressions.
#[derive(Clone, Debug)]
pub enum ExpressionKind {
    Entity { id: EntityIndex },
    LineLineIntersection { k: VarIndex, l: VarIndex },
    AveragePoint { items: Vec<VarIndex> },
    CircleCenter { circle: VarIndex },
    Sum { plus: Vec<VarIndex>, minus: Vec<VarIndex> },
    Product { times: Vec<VarIndex>, by: Vec<VarIndex> },
    Const { value: ComplexBits },
    Power { value: VarIndex, exponent: Ratio },
    PointPointDistance { p: VarIndex, q: VarIndex },
    PointLineDistance { point: VarIndex, line: VarIndex },
    ThreePointAngle { a: VarIndex, b: VarIndex, c: VarIndex },
    ThreePointAngleDir { a: VarIndex, b: VarIndex, c: VarIndex },
    TwoLineAngle { k: VarIndex, l: VarIndex },
    PointX { point: VarIndex },
    PointY { point: VarIndex },
    PointPoint { p: VarIndex, q: VarIndex },
    PointVector { point: VarIndex, vector: VarIndex },
    AngleBisector { p: VarIndex, q: VarIndex, r: VarIndex },
    PerpendicularThrough { point: VarIndex, line: VarIndex },
    ParallelThrough { point: VarIndex, line: VarIndex },
    ConstructCircle { center: VarIndex, radius: VarIndex },
    DirectionVector { line: VarIndex },
    PointToComplex { point: VarIndex },
    ComplexToPoint { number: VarIndex },
    Real { number: VarIndex },
    Imaginary { number: VarIndex },
    Log { number: VarIndex },
    Exp { number: VarIndex },
    Sin { angle: VarIndex },
    Cos { angle: VarIndex },
    Atan2 { y: VarIndex, x: VarIndex },
}

/// A soft constraint.
#[derive(Debug)]
pub enum RuleKind {
    PointEq(VarIndex, VarIndex),
    NumberEq(VarIndex, VarIndex),
    Gt(VarIndex, VarIndex),
    /// Satisfied when any of the rules is.
    Alternative(Vec<RuleKind>),
    /// Satisfied when the rule is not.
    Invert(Box<RuleKind>),
    /// Carries weight but no error.
    Bias,
}

/// A rule with its weight (an `f64` bit pattern) and the entities it
/// depends on.
#[derive(Debug)]
pub struct Rule {
    pub kind: RuleKind,
    pub weight: u64,
    pub entities: Vec<EntityIndex>,
}

/// A script after name resolution: entities, expressions in dependency order,
/// and rules.
#[derive(Debug)]
pub struct Intermediate {
    pub entities: Vec<EntityKind>,
    pub variables: Vec<ExpressionKind>,
    pub rules: Vec<Rule>,
}

/// What a lowered value is made of.
#[derive(Clone, Copy, Debug, PartialEq, Eq, Structural)]
pub enum Shape {
    Single,
    Complex,
    Line,
    Circle,
}

/// The shape of an expression's value, decided by its kind alone.
pub open spec fn kind_shape(k: ExpressionKind) -> Shape {
    match k {
        ExpressionKind::PointPoint { .. } | ExpressionKind::PointVector { .. }
        | ExpressionKind::AngleBisector { .. } | ExpressionKind::PerpendicularThrough { .. }
        | ExpressionKind::ParallelThrough { .. } => Shape::Line,
        ExpressionKind::ConstructCircle { .. } => Shape::Circle,
        _ => Shape::Complex,
    }
}

/// The shape of an expression's value.
pub fn shape_of(k: &ExpressionKind) -> (r: Shape)
    ensures
        r == kind_shape(*k),
{
    match k {
        ExpressionKind::PointPoint { .. } | ExpressionKind::PointVector { .. }
        | ExpressionKind::AngleBisector { .. } | ExpressionKind::PerpendicularThrough { .. }
        | ExpressionKind::ParallelThrough { .. } => Shape::Line,
        ExpressionKind::ConstructCircle { .. } => Shape::Circle,
        _ => Shape::Complex,
    }
}

/// The number of inputs an entity consumes.
pub open spec fn entity_width(e: EntityKind) -> nat {
    match e {
        EntityKind::FreePoint => 2,
        _ => 1,
    }
}

/// The number of inputs consumed by the first `n` entities.
pub open spec fn inputs_before(es: Seq<EntityKind>, n: int) -> nat
    decreases n,
{
    if n <= 0 {
        0
    } else {
        inputs_before(es, n - 1) + entity_width(es[n - 1])
    }
}

/// `v` names an earlier expression (one of the first `n`) of shape `s`.
pub open spec fn ref_ok(shapes: Seq<Shape>, n: int, v: VarIndex, s: Shape) -> bool {
    v.0 < n && n <= shapes.len() && shapes[v.0 as int] == s
}

/// All of `vs` name earlier complex expressions.
pub open spec fn refs_ok(shapes: Seq<Shape>, n: int, vs: Seq<VarIndex>) -> bool {
    forall|j: int| 0 <= j < vs.len() ==> #[trigger] ref_ok(shapes, n, vs[j], Shape::Complex)
}

/// The line or circle that an entity lies on is one of the first `n`
/// expressions.
pub open spec fn entity_ok(shapes: Seq<Shape>, n: int, e: EntityKind) -> bool {
    match e {
        EntityKind::PointOnLine { line } => ref_ok(shapes, n, line, Shape::Line),
        EntityKind::PointOnCircle { circle } => ref_ok(shapes, n, circle, Shape::Circle),
        _ => true,
    }
}

/// Expression `n`, of kind `k`, refers only to earlier expressions of the
/// shapes it needs, and to existing entities.
pub open spec fn kind_ok(es: Seq<EntityKind>, shapes: Seq<Shape>, n: int, k: ExpressionKind) -> bool {
    let c = Shape::Complex;
    match k {
        ExpressionKind::Entity { id } => id.0 < es.len() && entity_ok(shapes, n, es[id.0 as int]),
        ExpressionKind::LineLineIntersection { k, l } => ref_ok(shapes, n, k, Shape::Line)
            && ref_ok(shapes, n, l, Shape::Line),
        ExpressionKind::AveragePoint { items } => refs_ok(shapes, n, items@),
        ExpressionKind::CircleCenter { circle } => ref_ok(shapes, n, circle, Shape::Circle),
        ExpressionKind::Sum { plus, minus } => refs_ok(shapes, n, plus@) && refs_ok(
            shapes,
            n,
            minus@,
        ),
        ExpressionKind::Product { times, by } => refs_ok(shapes, n, times@) && refs_ok(
            shapes,
            n,
            by@,
        ),
        ExpressionKind::Const { .. } => true,
        ExpressionKind::Power { value, exponent } => ref_ok(shapes, n, value, c)
            && exponent.denom != 0,
        ExpressionKind::PointPointDistance { p, q } => ref_ok(shapes, n, p, c) && ref_ok(
            shapes,
            n,
            q,
            c,
        ),
        ExpressionKind::PointLineDistance { point, line } => ref_ok(shapes, n, point, c)
            && ref_ok(shapes, n, line, Shape::Line),
        ExpressionKind::ThreePointAngle { a, b, c: r } => ref_ok(shapes, n, a, c) && ref_ok(
            shapes,
            n,
            b,
            c,
        ) && ref_ok(shapes, n, r, c),
        ExpressionKind::ThreePointAngleDir { a, b, c: r } => ref_ok(shapes, n, a, c) && ref_ok(
            shapes,
            n,
            b,
            c,
        ) && ref_ok(shapes, n, r, c),
        ExpressionKind::TwoLineAngle { k, l } => ref_ok(shapes, n, k, Shape::Line) && ref_ok(
            shapes,
            n,
            l,
            Shape::Line,
        ),
        ExpressionKind::PointX { point } => ref_ok(shapes, n, point, c),
        ExpressionKind::PointY { point } => ref_ok(shapes, n, point, c),
        ExpressionKind::PointPoint { p, q } => ref_ok(shapes, n, p, c) && ref_ok(shapes, n, q, c),
        ExpressionKind::PointVector { point, vector } => ref_ok(shapes, n, point, c) && ref_ok(
            shapes,
            n,
            vector,
            c,
        ),
        ExpressionKind::AngleBisector { p, q, r } => ref_ok(shapes, n, p, c) && ref_ok(
            shapes,
            n,
            q,
            c,
        ) && ref_ok(shapes, n, r, c),
        ExpressionKind::PerpendicularThrough { point, line } => ref_ok(shapes, n, point, c)
            && ref_ok(shapes, n, line, Shape::Line),
        ExpressionKind::ParallelThrough { point, line } => ref_ok(shapes, n, point, c) && ref_ok(
            shapes,
            n,
            line,
            Shape::Line,
        ),
        ExpressionKind::ConstructCircle { center, radius } => ref_ok(shapes, n, center, c)
            && ref_ok(shapes, n, radius, c),
        ExpressionKind::DirectionVector { line } => ref_ok(shapes, n, line, Shape::Line),
        ExpressionKind::PointToComplex { point } => ref_ok(shapes, n, point, c),
        ExpressionKind::ComplexToPoint { number } => ref_ok(shapes, n, number, c),
        ExpressionKind::Real { number } => ref_ok(shapes, n, number, c),
        ExpressionKind::Imaginary { number } => ref_ok(shapes, n, number, c),
        ExpressionKind::Log { number } => ref_ok(shapes, n, number, c),
        ExpressionKind::Exp { number } => ref_ok(shapes, n, number, c),
        ExpressionKind::Sin { angle } => ref_ok(shapes, n, angle, c),
        ExpressionKind::Cos { angle } => ref_ok(shapes, n, angle, c),
        ExpressionKind::Atan2 { y, x } => ref_ok(shapes, n, y, c) && ref_ok(shapes, n, x, c),
    }
}

/// The shapes of the first `n` expressions.
pub open spec fn shapes_of(vs: Seq<ExpressionKind>) -> Seq<Shape> {
    vs.map_values(|k: ExpressionKind| kind_shape(k))
}

/// A rule refers only to complex expressions among the first `n`; every
/// alternative has at least one branch.
pub open spec fn rule_ok(shapes: Seq<Shape>, n: int, r: RuleKind) -> bool
    decreases r,
{
    let c = Shape::Complex;
    match r {
        RuleKind::PointEq(a, b) | RuleKind::NumberEq(a, b) | RuleKind::Gt(a, b) => ref_ok(
            shapes,
            n,
            a,
            c,
        ) && ref_ok(shapes, n, b, c),
        RuleKind::Alternative(rs) => rs@.len() > 0 && alts_ok(shapes, n, rs@, rs@.len() as int),
        RuleKind::Invert(q) => rule_ok(shapes, n, *q),
        RuleKind::Bias => true,
    }
}

/// The first `k` of the rules `rs` are well formed.
pub open spec fn alts_ok(shapes: Seq<Shape>, n: int, rs: Seq<RuleKind>, k: int) -> bool
    decreases rs, k,
{
    if k <= 0 || k > rs.len() {
        true
    } else {
        alts_ok(shapes, n, rs, k - 1) && rule_ok(shapes, n, rs[k - 1])
    }
}

/// Each of the first `k` rules of a well-formed list is well formed.
pub proof fn lemma_alts_ok(shapes: Seq<Shape>, n: int, rs: Seq<RuleKind>, k: int, j: int)
    requires
        0 <= j < k <= rs.len(),
        alts_ok(shapes, n, rs, k),
    ensures
        rule_ok(shapes, n, rs[j]),
    decreases k,
{
    if j < k - 1 {
        lemma_alts_ok(shapes, n, rs, k - 1, j);
    }
}

/// A rule is well formed and lists only existing entities.
pub open spec fn rule_entry_ok(shapes: Seq<Shape>, n: int, m: int, r: Rule) -> bool {
    &&& rule_ok(shapes, n, r.kind)
    &&& forall|k: int| 0 <= k < r.entities.len() ==> (#[trigger] r.entities@[k]).0 < m
}

/// The script is well formed: every expression and rule refers to what
/// exists, with the right shapes, and the inputs can be counted.
pub open spec fn intermediate_ok(ir: Intermediate) -> bool {
    let shapes = shapes_of(ir.variables@);
    &&& forall|i: int|
        0 <= i < ir.variables.len() ==> #[trigger] kind_ok(
            ir.entities@,
            shapes.take(i),
            i,
            ir.variables@[i],
        )
    &&& forall|i: int|
        0 <= i < ir.rules.len() ==> #[trigger] rule_entry_ok(
            shapes,
            ir.variables.len() as int,
            ir.entities.len() as int,
            ir.rules@[i],
        )
    &&& forall|e: int|
        0 <= e < ir.entities.len() ==> #[trigger] entity_ok(
            shapes,
            ir.variables.len() as int,
            ir.entities@[e],
        )
    &&& inputs_before(ir.entities@, ir.entities.len() as int) <= usize::MAX
}

} // verus!
