//! Operators and types of the script language, as the name resolution sees
//! them.
use vstd::prelude::*;

verus! {

/// A place in the script: line and column.
#[derive(Clone, Copy, Debug, PartialEq, Eq, Structural)]
pub struct Position {
    pub line: usize,
    pub column: usize,
}

/// A stretch of the script.
#[derive(Clone, Copy, Debug, PartialEq, Eq, Structural)]
pub struct Span {
    pub start: Position,
    pub end: Position,
}

/// A token that is a single symbol, with where it stands.
#[derive(Clone, Copy, Debug, PartialEq, Eq, Structural)]
pub struct Symbol {
    pub span: Span,
}

/// A parsed unary `-` operator.
#[derive(Clone, Copy, Debug)]
pub struct NegOp {
    pub minus: Symbol,
}

/// A parsed `+` operator.
#[derive(Clone, Copy, Debug)]
pub struct AddOp {
    pub plus: Symbol,
}

/// A parsed `-` operator.
#[derive(Clone, Copy, Debug)]
pub struct SubOp {
    pub minus: Symbol,
}

/// A parsed `*` operator.
#[derive(Clone, Copy, Debug)]
pub struct MulOp {
    pub asterisk: Symbol,
}

/// A parsed `/` operator.
#[derive(Clone, Copy, Debug)]
pub struct DivOp {
    pub slash: Symbol,
}

/// A binary operator.
#[derive(Clone, Copy, Debug)]
pub enum BinaryOperator {
    Add(AddOp),
    Sub(SubOp),
    Mul(MulOp),
    Div(DivOp),
}

/// A no-operation statement: a single semicolon.
#[derive(Clone, Copy, Debug)]
pub struct Noop {
    pub semi: Symbol,
}

/// A `=` rule operator.
#[derive(Clone, Copy, Debug)]
pub struct EqOp {
    pub eq: Symbol,
}

/// A `<` rule operator.
#[derive(Clone, Copy, Debug)]
pub struct LtOp {
    pub lt: Symbol,
}

/// A `>` rule operator.
#[derive(Clone, Copy, Debug)]
pub struct GtOp {
    pub gt: Symbol,
}

/// A `<=` rule operator.
#[derive(Clone, Copy, Debug)]
pub struct LteqOp {
    pub lteq: Symbol,
}

/// A `>=` rule operator.
#[derive(Clone, Copy, Debug)]
pub struct GteqOp {
    pub gteq: Symbol,
}

/// A user-defined rule operator, by name.
#[derive(Clone, Debug)]
pub struct DefinedRuleOperator {
    pub span: Span,
    pub ident: String,
}

/// A builtin rule operator.
#[derive(Clone, Copy, Debug)]
pub enum PredefinedRuleOperator {
    Eq(EqOp),
    Lt(LtOp),
    Gt(GtOp),
    Lteq(LteqOp),
    Gteq(GteqOp),
}

/// A rule operator.
#[derive(Debug)]
pub enum RuleOperator {
    Predefined(PredefinedRuleOperator),
    Defined(DefinedRuleOperator),
    Inverted(InvertedRuleOperator),
}

/// An inverted rule operator, `!op`.
#[derive(Debug)]
pub struct InvertedRuleOperator {
    pub exclamation: Symbol,
    pub operator: Box<RuleOperator>,
}

/// A user-defined type, by name.
#[derive(Clone, Debug)]
pub struct DefinedType {
    pub name: String,
}

/// The exponents of a unit: distance, point count, scalar and angle.
#[derive(Clone, Copy, Debug)]
pub struct ComplexUnit(pub [i64; 4]);

/// The unit of distance.
pub fn distance_unit() -> (r: ComplexUnit)
    ensures
        r.0@ == seq![1i64, 0, 0, 0],
{
    let r = ComplexUnit([1, 0, 0, 0]);
    assert(r.0@ =~= seq![1i64, 0, 0, 0]);
    r
}

/// Whether two units are the same.
pub fn unit_eq(a: &ComplexUnit, b: &ComplexUnit) -> (r: bool)
    ensures
        r == (a.0@ == b.0@),
{
    let mut i: usize = 0;
    while i < 4
        invariant
            i <= 4,
            forall|j: int| 0 <= j < i ==> a.0@[j] == b.0@[j],
        decreases 4 - i,
    {
        if a.0[i] != b.0[i] {
            return false;
        }
        i = i + 1;
    }
    assert(a.0@ =~= b.0@);
    true
}

/// A builtin type.
#[derive(Clone, Copy, Debug)]
pub enum Type {
    Point,
    Line,
    /// A scalar, of a unit or of none.
    Scalar(Option<ComplexUnit>),
    /// A collection of the given number of points.
    PointCollection(usize),
    Circle,
    /// The type of what is wrong.
    Undefined,
}

/// Whether a value of type `a` may be used where type `b` is expected.
pub open spec fn can_cast_spec(a: Type, b: Type) -> bool {
    match a {
        Type::Point => b is Point || b == Type::PointCollection(1),
        Type::Line => b is Line,
        Type::Scalar(Some(u1)) => match b {
            Type::Scalar(Some(u2)) => u1.0@ == u2.0@,
            _ => false,
        },
        Type::Scalar(None) => match b {
            Type::Scalar(Some(u)) => u.0@[3] == 0,
            Type::Scalar(None) => true,
            _ => false,
        },
        Type::PointCollection(l) => match b {
            Type::Point => l == 1,
            Type::Line => l == 2,
            Type::Scalar(Some(u)) => u.0@ == seq![1i64, 0, 0, 0] && l == 2,
            Type::PointCollection(v) => v == l,
            _ => false,
        },
        Type::Circle => b is Circle,
        Type::Undefined => false,
    }
}

impl Type {
    /// The unit of a scalar type.
    pub fn as_scalar(&self) -> (r: Option<&Option<ComplexUnit>>)
        ensures
            r is Some <==> self is Scalar,
            r matches Some(u) ==> *self == Type::Scalar(*u),
    {
        match self {
            Type::Scalar(v) => Some(v),
            _ => None,
        }
    }

    /// Whether `self` can be cast into `into`.
    pub fn can_cast(&self, into: &Type) -> (r: bool)
        ensures
            r == can_cast_spec(*self, *into),
    {
        match self {
            Type::Point => match into {
                Type::Point => true,
                Type::PointCollection(n) => *n == 1,
                _ => false,
            },
            Type::Line => match into {
                Type::Line => true,
                _ => false,
            },
            Type::Scalar(Some(u1)) => match into {
                Type::Scalar(Some(u2)) => unit_eq(u1, u2),
                _ => false,
            },
            Type::Scalar(None) => match into {
                Type::Scalar(Some(u)) => u.0[3] == 0,
                Type::Scalar(None) => true,
                _ => false,
            },
            Type::PointCollection(l) => match into {
                Type::Point => *l == 1,
                Type::Line => *l == 2,
                Type::Scalar(Some(u)) => unit_eq(u, &distance_unit()) && *l == 2,
                Type::PointCollection(v) => *v == *l,
                _ => false,
            },
            Type::Circle => match into {
                Type::Circle => true,
                _ => false,
            },
            Type::Undefined => false,
        }
    }
}

/// A unary operator.
#[derive(Clone, Copy, Debug)]
pub enum UnaryOperator {
    Neg(NegOp),
}

impl UnaryOperator {
    /// The type of the result for an operand of type `param`: negation keeps
    /// scalars and gives nothing else.
    pub fn get_returned(&self, param: &Type) -> (r: Type)
        ensures
            r == match *param {
                Type::Scalar(u) => Type::Scalar(u),
                _ => Type::Undefined,
            },
    {
        match self {
            UnaryOperator::Neg(_) => match param {
                Type::Scalar(u) => Type::Scalar(*u),
                _ => Type::Undefined,
            },
        }
    }
}

/// Items separated by punctuation: a first item, then pairs of a separator
/// and an item.
#[derive(Clone, Debug)]
pub struct Punctuated<T, P> {
    pub first: Box<T>,
    pub collection: Vec<(P, T)>,
}

impl<T, P> Punctuated<T, P> {
    /// The items, in order.
    pub open spec fn items(&self) -> Seq<T> {
        seq![*self.first] + self.collection@.map_values(|p: (P, T)| p.1)
    }

    /// One item.
    pub fn new(first: T) -> (r: Punctuated<T, P>)
        ensures
            r.items() == seq![first],
    {
        let r = Punctuated { first: Box::new(first), collection: Vec::new() };
        assert(r.items() =~= seq![first]);
        r
    }

    /// The number of items.
    pub fn len(&self) -> (r: usize)
        requires
            self.collection.len() < usize::MAX,
        ensures
            r == self.items().len(),
    {
        self.collection.len() + 1
    }

    /// Never empty: there is always a first item.
    pub fn is_empty(&self) -> (r: bool)
        ensures
            r == (self.items().len() == 0),
    {
        false
    }

    /// The item at `index`, if there is one.
    pub fn get(&self, index: usize) -> (r: Option<&T>)
        ensures
            r is Some <==> index < self.items().len(),
            r matches Some(v) ==> *v == self.items()[index as int],
    {
        if index == 0 {
            Some(&self.first)
        } else if index - 1 < self.collection.len() {
            Some(&self.collection[index - 1].1)
        } else {
            None
        }
    }
}

} // verus!
