use geo_aid::best::{best_of, Best};
use geo_aid::compile::{compile, Compiled};
use geo_aid::expr::{Arena, CompareKind, Node, ONE, ONE_BITS, ZERO};
use geo_aid::ir::{
    ComplexBits, EntityIndex, EntityKind, ExpressionKind, Intermediate, Ratio, Rule, RuleKind,
    Style, VarIndex,
};
use geo_aid::lower::ValueExpr;
use geo_aid::parser::{distance_unit, NegOp, Position, Punctuated, Span, Symbol, Type, UnaryOperator};
use geo_aid::unroll::{AssociatedData, LineType, MaybeUnset};

fn eval(ar: &Arena, inputs: &[f64]) -> Vec<f64> {
    let mut v: Vec<f64> = Vec::with_capacity(ar.len());
    for h in 0..ar.len() {
        let x = match ar.node(h) {
            Node::Const(c) => f64::from_bits(c),
            Node::Input(i) => inputs[i],
            Node::Add(a, b) => v[a] + v[b],
            Node::Sub(a, b) => v[a] - v[b],
            Node::Mul(a, b) => v[a] * v[b],
            Node::Div(a, b) => v[a] / v[b],
            Node::Min(a, b) => v[a].min(v[b]),
            Node::Atan2(a, b) => v[a].atan2(v[b]),
            Node::Pow(a, p) => v[a].powf(f64::from_bits(p)),
            Node::Neg(a) => -v[a],
            Node::Abs(a) => v[a].abs(),
            Node::Sin(a) => v[a].sin(),
            Node::Cos(a) => v[a].cos(),
            Node::Exp(a) => v[a].exp(),
            Node::Log(a) => v[a].ln(),
            Node::Acos(a) => v[a].acos(),
            Node::Atan(a) => v[a].atan(),
            Node::Compare(a, b, k) => {
                let r = match k {
                    CompareKind::Gt => v[a] > v[b],
                    CompareKind::Lt => v[a] < v[b],
                    CompareKind::Eq => v[a] == v[b],
                };
                if r {
                    1.0
                } else {
                    0.0
                }
            }
            Node::Ternary(c, t, e) => {
                if v[c] != 0.0 {
                    v[t]
                } else {
                    v[e]
                }
            }
        };
        v.push(x);
    }
    v
}

struct Lcg(u64);

impl Lcg {
    fn next(&mut self) -> f64 {
        self.0 = self.0.wrapping_mul(6364136223846793005).wrapping_add(1442695040888963407);
        ((self.0 >> 11) as f64 / (1u64 << 53) as f64) * 10.0 - 5.0
    }
}

fn total(c: &Compiled, x: &[f64]) -> f64 {
    eval(&c.arena, x)[c.total]
}

/// Plain gradient descent with central differences and a shrinking step.
fn descend(c: &Compiled, x: &mut Vec<f64>) -> f64 {
    let mut speed = 0.5;
    let mut e = total(c, x);
    for _ in 0..20000 {
        if !(speed > 1e-9) || e < 1e-12 {
            break;
        }
        let mut g = vec![0.0; x.len()];
        for i in 0..x.len() {
            let mut p = x.clone();
            let mut m = x.clone();
            p[i] += 1e-6;
            m[i] -= 1e-6;
            g[i] = (total(c, &p) - total(c, &m)) / 2e-6;
        }
        let cand: Vec<f64> = x.iter().zip(&g).map(|(a, b)| a - speed * b).collect();
        let ce = total(c, &cand);
        if ce < e {
            *x = cand;
            e = ce;
            speed *= 1.1;
        } else {
            speed /= 1.5;
        }
    }
    e
}

const STRICT_BITS: u64 = 0x4000_0000_0000_0000;
const INV_STRICT_BITS: u64 = 0x3FE0_0000_0000_0000;

fn rule(kind: RuleKind, entities: Vec<usize>) -> Rule {
    Rule {
        kind,
        weight: ONE_BITS,
        entities: entities.into_iter().map(EntityIndex).collect(),
    }
}

fn ent(i: usize) -> ExpressionKind {
    ExpressionKind::Entity { id: EntityIndex(i) }
}

fn complex_at(c: &Compiled, vals: &[f64], v: usize) -> (f64, f64) {
    match c.variables[v] {
        ValueExpr::Complex(z) => (vals[z.real], vals[z.imaginary]),
        _ => panic!("not a complex value"),
    }
}

#[test]
fn interning_returns_same_handle() {
    let mut ar = Arena::new(2);
    let x = ar.input(0);
    let y = ar.input(1);
    let a = ar.add(x, y);
    let n = ar.len();
    let b = ar.add(x, y);
    assert_eq!(a, b);
    assert_eq!(ar.len(), n);
    let c = ar.add(y, x);
    assert_ne!(a, c);
    assert_eq!(ar.constant(0), ZERO);
    assert_eq!(ar.constant(ONE_BITS), ONE);
    let neg_zero = ar.constant(0x8000_0000_0000_0000);
    assert_ne!(neg_zero, ZERO);
}

#[test]
fn ternary_and_compare_evaluate() {
    let mut ar = Arena::new(1);
    let x = ar.input(0);
    let c = ar.compare(x, ZERO, CompareKind::Gt);
    let m = ar.neg(x);
    let t = ar.ternary(c, x, m);
    assert_eq!(eval(&ar, &[-3.0])[t], 3.0);
    assert_eq!(eval(&ar, &[2.5])[t], 2.5);
}

fn midpoint_ir() -> Intermediate {
    Intermediate {
        entities: vec![EntityKind::FreePoint, EntityKind::FreePoint, EntityKind::FreePoint],
        variables: vec![
            ent(0),
            ent(1),
            ent(2),
            ExpressionKind::AveragePoint { items: vec![VarIndex(0), VarIndex(1)] },
        ],
        rules: vec![rule(RuleKind::PointEq(VarIndex(2), VarIndex(3)), vec![0, 1, 2])],
    }
}

#[test]
fn midpoint_scenario() {
    let c = compile(&midpoint_ir(), STRICT_BITS, INV_STRICT_BITS);
    assert_eq!(c.input_count, 6);
    let mut rng = Lcg(7);
    let mut x: Vec<f64> = (0..6).map(|_| rng.next()).collect();
    descend(&c, &mut x);
    let v = eval(&c.arena, &x);
    let a = complex_at(&c, &v, 0);
    let b = complex_at(&c, &v, 1);
    let m = complex_at(&c, &v, 2);
    let d = ((m.0 - (a.0 + b.0) / 2.0).powi(2) + (m.1 - (a.1 + b.1) / 2.0).powi(2)).sqrt();
    assert!(d < 1e-3, "distance {d}");
}

#[test]
fn perpendicular_distance_scenario() {
    let ir = Intermediate {
        entities: vec![
            EntityKind::FreePoint,
            EntityKind::FreePoint,
            EntityKind::FreePoint,
            EntityKind::DistanceUnit,
        ],
        variables: vec![
            ent(0),
            ent(1),
            ent(2),
            ent(3),
            ExpressionKind::PointPoint { p: VarIndex(0), q: VarIndex(1) },
            ExpressionKind::PointLineDistance { point: VarIndex(2), line: VarIndex(4) },
        ],
        rules: vec![rule(RuleKind::Gt(VarIndex(5), VarIndex(3)), vec![0, 1, 2, 3])],
    };
    let c = compile(&ir, STRICT_BITS, INV_STRICT_BITS);
    let mut rng = Lcg(11);
    let mut x: Vec<f64> = (0..c.input_count).map(|_| rng.next()).collect();
    descend(&c, &mut x);
    let v = eval(&c.arena, &x);
    let dist = complex_at(&c, &v, 5).0;
    let unit = complex_at(&c, &v, 3).0;
    assert!(dist >= unit - 1e-6, "{dist} < {unit}");
}

#[test]
fn equilateral_scenario() {
    let ir = Intermediate {
        entities: vec![EntityKind::FreePoint, EntityKind::FreePoint, EntityKind::FreePoint],
        variables: vec![
            ent(0),
            ent(1),
            ent(2),
            ExpressionKind::PointPointDistance { p: VarIndex(0), q: VarIndex(1) },
            ExpressionKind::PointPointDistance { p: VarIndex(1), q: VarIndex(2) },
            ExpressionKind::PointPointDistance { p: VarIndex(2), q: VarIndex(0) },
        ],
        rules: vec![
            rule(RuleKind::NumberEq(VarIndex(3), VarIndex(4)), vec![0, 1, 2]),
            rule(RuleKind::NumberEq(VarIndex(4), VarIndex(5)), vec![0, 1, 2]),
        ],
    };
    let c = compile(&ir, STRICT_BITS, INV_STRICT_BITS);
    let mut rng = Lcg(3);
    let mut x: Vec<f64> = (0..c.input_count).map(|_| rng.next()).collect();
    descend(&c, &mut x);
    let v = eval(&c.arena, &x);
    let ab = complex_at(&c, &v, 3).0;
    let bc = complex_at(&c, &v, 4).0;
    let ca = complex_at(&c, &v, 5).0;
    assert!((ab - bc).abs() < 1e-3 && (bc - ca).abs() < 1e-3, "{ab} {bc} {ca}");
}

#[test]
fn point_on_circle_scenario() {
    let ir = Intermediate {
        entities: vec![
            EntityKind::FreePoint,
            EntityKind::FreeReal,
            EntityKind::PointOnCircle { circle: VarIndex(2) },
        ],
        variables: vec![
            ent(0),
            ent(1),
            ExpressionKind::ConstructCircle { center: VarIndex(0), radius: VarIndex(1) },
            ent(2),
        ],
        rules: vec![],
    };
    let c = compile(&ir, STRICT_BITS, INV_STRICT_BITS);
    assert_eq!(c.input_count, 4);
    let mut rng = Lcg(5);
    for _ in 0..20 {
        let x: Vec<f64> = (0..4).map(|_| rng.next()).collect();
        let v = eval(&c.arena, &x);
        let centre = complex_at(&c, &v, 0);
        let r = complex_at(&c, &v, 1).0;
        let p = complex_at(&c, &v, 3);
        let d = ((p.0 - centre.0).powi(2) + (p.1 - centre.1).powi(2)).sqrt();
        assert!((d - r.abs()).abs() < 1e-9, "{d} {r}");
    }
}

#[test]
fn alternative_scenario() {
    let ir = Intermediate {
        entities: vec![EntityKind::FreePoint, EntityKind::FreePoint, EntityKind::FreePoint],
        variables: vec![ent(0), ent(1), ent(2)],
        rules: vec![rule(
            RuleKind::Alternative(vec![
                RuleKind::PointEq(VarIndex(0), VarIndex(1)),
                RuleKind::PointEq(VarIndex(0), VarIndex(2)),
            ]),
            vec![0, 1, 2],
        )],
    };
    let c = compile(&ir, STRICT_BITS, INV_STRICT_BITS);
    let mut rng = Lcg(9);
    let mut x: Vec<f64> = (0..c.input_count).map(|_| rng.next()).collect();
    descend(&c, &mut x);
    let v = eval(&c.arena, &x);
    let a = complex_at(&c, &v, 0);
    let b = complex_at(&c, &v, 1);
    let cc = complex_at(&c, &v, 2);
    let ab = ((a.0 - b.0).powi(2) + (a.1 - b.1).powi(2)).sqrt();
    let ac = ((a.0 - cc.0).powi(2) + (a.1 - cc.1).powi(2)).sqrt();
    assert!(ab.min(ac) < 1e-3, "{ab} {ac}");
}

#[test]
fn inverted_equality_scenario() {
    let ir = Intermediate {
        entities: vec![EntityKind::FreePoint, EntityKind::FreePoint],
        variables: vec![ent(0), ent(1)],
        rules: vec![rule(
            RuleKind::Invert(Box::new(RuleKind::PointEq(VarIndex(0), VarIndex(1)))),
            vec![0, 1],
        )],
    };
    let c = compile(&ir, STRICT_BITS, INV_STRICT_BITS);
    let mut x = vec![0.1, 0.1, 0.2, 0.1];
    let before = total(&c, &x);
    descend(&c, &mut x);
    let after = total(&c, &x);
    let v = eval(&c.arena, &x);
    let a = complex_at(&c, &v, 0);
    let b = complex_at(&c, &v, 1);
    let ab = ((a.0 - b.0).powi(2) + (a.1 - b.1).powi(2)).sqrt();
    assert!(after < before);
    assert!(ab > 0.1, "{ab}");
}

#[test]
fn rule_errors_are_non_negative() {
    let ir = Intermediate {
        entities: vec![EntityKind::FreePoint, EntityKind::FreePoint, EntityKind::FreeReal],
        variables: vec![
            ent(0),
            ent(1),
            ent(2),
            ExpressionKind::PointPointDistance { p: VarIndex(0), q: VarIndex(1) },
        ],
        rules: vec![
            rule(RuleKind::PointEq(VarIndex(0), VarIndex(1)), vec![0, 1]),
            rule(RuleKind::Gt(VarIndex(3), VarIndex(2)), vec![0, 1, 2]),
            rule(RuleKind::Bias, vec![2]),
            rule(RuleKind::Invert(Box::new(RuleKind::NumberEq(VarIndex(2), VarIndex(3)))), vec![2]),
        ],
    };
    let c = compile(&ir, STRICT_BITS, INV_STRICT_BITS);
    let mut rng = Lcg(1);
    for _ in 0..50 {
        let x: Vec<f64> = (0..c.input_count).map(|_| rng.next()).collect();
        let v = eval(&c.arena, &x);
        for &r in &c.rule_errors {
            assert!(v[r] >= 0.0);
        }
        assert!(v[c.total] >= 0.0);
    }
    // A satisfied equality has error zero; a satisfied inequality well past the band too.
    let v = eval(&c.arena, &[1.0, 2.0, 1.0, 2.0, -4.0]);
    assert_eq!(v[c.rule_errors[0]], 0.0);
    assert_eq!(v[c.rule_errors[1]], 0.0);
    assert_eq!(v[c.rule_errors[2]], 0.0);
}

#[test]
fn gt_error_has_a_dead_band() {
    let ir = Intermediate {
        entities: vec![EntityKind::FreeReal, EntityKind::FreeReal],
        variables: vec![ent(0), ent(1)],
        rules: vec![rule(RuleKind::Gt(VarIndex(0), VarIndex(1)), vec![0, 1])],
    };
    let c = compile(&ir, STRICT_BITS, INV_STRICT_BITS);
    // b = 1: threshold 1 + 0.1 * 1.1 = 1.11; a = 1.05 gives (1.05 - 1.11)^2.
    let v = eval(&c.arena, &[1.05, 1.0]);
    assert!((v[c.rule_errors[0]] - 0.0036).abs() < 1e-12);
    let v = eval(&c.arena, &[1.2, 1.0]);
    assert_eq!(v[c.rule_errors[0]], 0.0);
}

#[test]
fn aggregate_is_monotone_in_strictness() {
    let errors = [0.3, 1.7, 0.0, 4.2];
    let mut last = f64::NEG_INFINITY;
    for s in [0.5f64, 1.0, 2.0, 3.0, 8.0] {
        let mut ar = Arena::new(4);
        let hs: Vec<usize> = (0..4).map(|i| ar.input(i)).collect();
        let t = geo_aid::compile::aggregate(&mut ar, &hs, s.to_bits(), (1.0 / s).to_bits());
        let v = eval(&ar, &errors)[t];
        let direct = (errors.iter().map(|e: &f64| e.powf(s)).sum::<f64>() / 4.0).powf(1.0 / s);
        assert!((v - direct).abs() < 1e-12);
        assert!(v >= last - 1e-12);
        last = v;
    }
}

#[test]
fn integer_nodes_are_exact() {
    let mut ar = Arena::new(0);
    for n in [0i64, 1, 2, 7, 1000, -13, 1 << 40, i64::MIN] {
        let h = geo_aid::lower::int_node(&mut ar, n);
        assert_eq!(eval(&ar, &[])[h], n as f64);
    }
}

#[test]
fn power_uses_the_ratio() {
    let ir = Intermediate {
        entities: vec![EntityKind::FreeReal],
        variables: vec![
            ent(0),
            ExpressionKind::Power { value: VarIndex(0), exponent: Ratio { num: 3, denom: 2 } },
            ExpressionKind::Const { value: ComplexBits { real: 4.0f64.to_bits(), imaginary: 0 } },
        ],
        rules: vec![],
    };
    let c = compile(&ir, STRICT_BITS, INV_STRICT_BITS);
    let v = eval(&c.arena, &[4.0]);
    let p = complex_at(&c, &v, 1);
    assert!((p.0 - 8.0).abs() < 1e-9 && p.1.abs() < 1e-9);
    assert_eq!(complex_at(&c, &v, 2), (4.0, 0.0));
}

#[test]
fn maybe_unset_flags() {
    let mut m = MaybeUnset::new(3);
    assert!(!m.is_set());
    assert_eq!(*m.get(), 3);
    assert_eq!(m.try_get(), None);
    assert!(m.set_if_unset(4));
    assert!(!m.set_if_unset(5));
    assert_eq!(m.get_copied(), 4);
    let mut n = MaybeUnset::new_or(1, None);
    assert!(!n.try_set_if_unset(None));
    assert!(n.try_set_if_unset(Some(2)));
    assert!(!n.try_set_if_unset(Some(9)));
    n.try_set(None);
    assert_eq!(n.unwrap(), 2);
    let mut k = MaybeUnset::new_or(1, Some(6));
    assert!(k.is_set());
    k.set(8);
    assert_eq!(k.try_get(), Some(&8));
    let d = k.map(|x: i32| x * 2);
    assert_eq!(d.get_cloned(), 16);
    assert!(d.cloned().is_set());
    assert!(d.copied().is_set());
}

#[test]
fn associated_data_accessors() {
    let b = AssociatedData::Bool(MaybeUnset::new(true));
    assert!(b.as_bool().is_some());
    assert!(b.as_style().is_none());
    let s = AssociatedData::Style(MaybeUnset::new(Style::Dashed));
    assert_eq!(*s.as_style().unwrap().get(), Style::Dashed);
    let l = AssociatedData::LineType(MaybeUnset::new(LineType::Ray));
    assert_eq!(*l.as_line_type().unwrap().get(), LineType::Ray);
    assert!(l.as_bool().is_none());
    assert_eq!(Style::Bold.name(), "bold");
}

#[test]
fn type_casts() {
    let d = distance_unit();
    assert!(Type::Point.can_cast(&Type::PointCollection(1)));
    assert!(!Type::Point.can_cast(&Type::Line));
    assert!(Type::PointCollection(2).can_cast(&Type::Line));
    assert!(Type::PointCollection(2).can_cast(&Type::Scalar(Some(d))));
    assert!(Type::Scalar(None).can_cast(&Type::Scalar(Some(d))));
    let angle = geo_aid::parser::ComplexUnit([0, 0, 0, 1]);
    assert!(!Type::Scalar(None).can_cast(&Type::Scalar(Some(angle))));
    assert!(!Type::Undefined.can_cast(&Type::Undefined));
    assert!(Type::Scalar(None).as_scalar().is_some());
    assert!(Type::Circle.as_scalar().is_none());
    let p = Position { line: 1, column: 1 };
    let neg = UnaryOperator::Neg(NegOp { minus: Symbol { span: Span { start: p, end: p } } });
    assert!(matches!(neg.get_returned(&Type::Scalar(None)), Type::Scalar(None)));
    assert!(matches!(neg.get_returned(&Type::Point), Type::Undefined));
}

#[test]
fn punctuated_items() {
    let mut p: Punctuated<u32, char> = Punctuated::new(1);
    assert_eq!(p.len(), 1);
    assert!(!p.is_empty());
    p.collection.push((',', 2));
    assert_eq!(p.len(), 2);
    assert_eq!(p.get(0), Some(&1));
    assert_eq!(p.get(1), Some(&2));
    assert_eq!(p.get(2), None);
}

#[test]
fn gradient_matches_central_differences() {
    let ir = Intermediate {
        entities: vec![EntityKind::FreePoint, EntityKind::FreePoint, EntityKind::FreePoint],
        variables: vec![
            ent(0),
            ent(1),
            ent(2),
            ExpressionKind::ThreePointAngle { a: VarIndex(0), b: VarIndex(1), c: VarIndex(2) },
            ExpressionKind::PointPointDistance { p: VarIndex(0), q: VarIndex(2) },
            ExpressionKind::AngleBisector { p: VarIndex(0), q: VarIndex(1), r: VarIndex(2) },
            ExpressionKind::PointLineDistance { point: VarIndex(2), line: VarIndex(5) },
        ],
        rules: vec![
            rule(RuleKind::NumberEq(VarIndex(3), VarIndex(4)), vec![0, 1, 2]),
            rule(RuleKind::Gt(VarIndex(6), VarIndex(4)), vec![0, 2]),
        ],
    };
    let mut c = compile(&ir, STRICT_BITS, INV_STRICT_BITS);
    let total_h = c.total;
    let g = geo_aid::gradient::gradient(&mut c.arena, total_h);
    assert_eq!(g.len(), 6);
    let mut rng = Lcg(21);
    for _ in 0..10 {
        let x: Vec<f64> = (0..6).map(|_| rng.next()).collect();
        let v = eval(&c.arena, &x);
        for i in 0..6 {
            let eps = 1e-5;
            let mut p = x.clone();
            let mut m = x.clone();
            p[i] += eps;
            m[i] -= eps;
            let fd = (eval(&c.arena, &p)[total_h] - eval(&c.arena, &m)[total_h]) / (2.0 * eps);
            let an = v[g[i]];
            assert!((an - fd).abs() <= 1e-4 * (1.0 + fd.abs()), "input {i}: {an} vs {fd}");
        }
    }
}

#[test]
fn malformed_scripts_are_rejected() {
    let ok = midpoint_ir();
    assert!(geo_aid::check::intermediate_ok_exec(&ok));
    let dangling = Intermediate {
        entities: vec![EntityKind::FreePoint],
        variables: vec![ent(0), ExpressionKind::PointX { point: VarIndex(5) }],
        rules: vec![],
    };
    assert!(!geo_aid::check::intermediate_ok_exec(&dangling));
    let mistyped = Intermediate {
        entities: vec![EntityKind::FreePoint, EntityKind::FreePoint],
        variables: vec![
            ent(0),
            ent(1),
            ExpressionKind::LineLineIntersection { k: VarIndex(0), l: VarIndex(1) },
        ],
        rules: vec![],
    };
    assert!(!geo_aid::check::intermediate_ok_exec(&mistyped));
    let empty_alternative = Intermediate {
        entities: vec![EntityKind::FreePoint],
        variables: vec![ent(0)],
        rules: vec![rule(RuleKind::Alternative(vec![]), vec![0])],
    };
    assert!(!geo_aid::check::intermediate_ok_exec(&empty_alternative));
    let zero_denominator = Intermediate {
        entities: vec![EntityKind::FreeReal],
        variables: vec![ent(0), ExpressionKind::Power { value: VarIndex(0), exponent: Ratio { num: 1, denom: 0 } }],
        rules: vec![],
    };
    assert!(!geo_aid::check::intermediate_ok_exec(&zero_denominator));
    let bad_entity = Intermediate {
        entities: vec![EntityKind::FreePoint],
        variables: vec![ent(0)],
        rules: vec![rule(RuleKind::Bias, vec![3])],
    };
    assert!(!geo_aid::check::intermediate_ok_exec(&bad_entity));
}

#[test]
fn best_of_keeps_the_highest_finite_quality() {
    let qs: Vec<u64> = [0.25f64, f64::NAN, 0.75, 0.5, 0.75, f64::INFINITY]
        .iter()
        .map(|q| q.to_bits())
        .collect();
    let b = best_of(&qs);
    assert_eq!(f64::from_bits(b.quality), 0.75);
    assert_eq!(b.index, Some(2));
    let none = best_of(&vec![f64::NAN.to_bits(), f64::INFINITY.to_bits()]);
    assert_eq!(none.quality, 0);
    assert_eq!(none.index, None);
    let mut m = Best::new();
    assert!(m.offer(0.5f64.to_bits(), 0));
    assert!(!m.offer(0.5f64.to_bits(), 1));
    assert!(!m.offer(0.1f64.to_bits(), 2));
    assert_eq!(m.index, Some(0));
}

#[test]
fn identical_rules_and_expressions_share_handles() {
    let ir = Intermediate {
        entities: vec![EntityKind::FreePoint, EntityKind::FreePoint],
        variables: vec![
            ent(0),
            ent(1),
            ExpressionKind::PointPointDistance { p: VarIndex(0), q: VarIndex(1) },
            ExpressionKind::PointPointDistance { p: VarIndex(0), q: VarIndex(1) },
        ],
        rules: vec![
            rule(RuleKind::PointEq(VarIndex(0), VarIndex(1)), vec![0]),
            rule(RuleKind::PointEq(VarIndex(0), VarIndex(1)), vec![1]),
        ],
    };
    let c = compile(&ir, STRICT_BITS, INV_STRICT_BITS);
    assert_eq!(c.rule_errors[0], c.rule_errors[1]);
    assert_eq!(c.variables[2], c.variables[3]);
}

#[test]
fn entities_read_inputs_in_order() {
    let ir = Intermediate {
        entities: vec![EntityKind::FreeReal, EntityKind::FreePoint, EntityKind::DistanceUnit],
        variables: vec![ent(0), ent(1), ent(2)],
        rules: vec![],
    };
    let c = compile(&ir, STRICT_BITS, INV_STRICT_BITS);
    assert_eq!(c.input_count, 4);
    let v = eval(&c.arena, &[10.0, 20.0, 30.0, 40.0]);
    assert_eq!(complex_at(&c, &v, 0), (10.0, 0.0));
    assert_eq!(complex_at(&c, &v, 1), (20.0, 30.0));
    assert_eq!(complex_at(&c, &v, 2), (40.0, 0.0));
}

#[test]
fn entity_error_sums_listing_rules() {
    let ir = Intermediate {
        entities: vec![EntityKind::FreeReal, EntityKind::FreeReal, EntityKind::FreeReal],
        variables: vec![ent(0), ent(1), ent(2)],
        rules: vec![
            rule(RuleKind::NumberEq(VarIndex(0), VarIndex(1)), vec![0, 1]),
            rule(RuleKind::NumberEq(VarIndex(1), VarIndex(2)), vec![1, 1]),
        ],
    };
    let c = compile(&ir, STRICT_BITS, INV_STRICT_BITS);
    let v = eval(&c.arena, &[1.0, 2.0, 4.0]);
    let r0 = v[c.rule_errors[0]];
    let r1 = v[c.rule_errors[1]];
    assert_eq!(r0, 5.0);
    assert_eq!(r1, 10.0);
    assert_eq!(v[c.errors[0]], r0);
    assert_eq!(v[c.errors[1]], r0 + r1 + r1);
    assert_eq!(v[c.errors[2]], 0.0);
}

#[test]
fn best_of_reports_the_first_maximum() {
    let qs: Vec<u64> = [0.5f64, 0.9, 0.9].iter().map(|q| q.to_bits()).collect();
    assert_eq!(best_of(&qs).index, Some(1));
}
