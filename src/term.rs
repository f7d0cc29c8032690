//! What a handle stands for: the expression tree that the DAG unfolds to.
use crate::expr::{node_fits, Arena, CompareKind, Node, ONE_BITS, ZERO_BITS};
use vstd::prelude::*;

verus! {

/// A real-valued (or, for `Compare`, boolean) expression tree over the
/// inputs. Constants are `f64` bit patterns.
pub enum Term {
    Const(u64),
    Input(nat),
    Add(Box<Term>, Box<Term>),
    Sub(Box<Term>, Box<Term>),
    Mul(Box<Term>, Box<Term>),
    Div(Box<Term>, Box<Term>),
    Min(Box<Term>, Box<Term>),
    Atan2(Box<Term>, Box<Term>),
    Pow(Box<Term>, u64),
    Neg(Box<Term>),
    Abs(Box<Term>),
    Sin(Box<Term>),
    Cos(Box<Term>),
    Exp(Box<Term>),
    Log(Box<Term>),
    Acos(Box<Term>),
    Atan(Box<Term>),
    Compare(Box<Term>, Box<Term>, CompareKind),
    Ternary(Box<Term>, Box<Term>, Box<Term>),
}

/// The tree that handle `h` of the node sequence `s` unfolds to. Operands that
/// do not precede their node (never the case in a well-formed arena) unfold
/// to zero.
pub open spec fn term(s: Seq<Node>, h: int) -> Term
    decreases h,
{
    if 0 <= h < s.len() {
        match s[h] {
            Node::Const(c) => Term::Const(c),
            Node::Input(i) => Term::Input(i as nat),
            Node::Add(a, b) => Term::Add(Box::new(if 0 <= a < h { term(s, a as int) } else { Term::Const(ZERO_BITS) }), Box::new(if 0 <= b < h { term(s, b as int) } else { Term::Const(ZERO_BITS) })),
            Node::Sub(a, b) => Term::Sub(Box::new(if 0 <= a < h { term(s, a as int) } else { Term::Const(ZERO_BITS) }), Box::new(if 0 <= b < h { term(s, b as int) } else { Term::Const(ZERO_BITS) })),
            Node::Mul(a, b) => Term::Mul(Box::new(if 0 <= a < h { term(s, a as int) } else { Term::Const(ZERO_BITS) }), Box::new(if 0 <= b < h { term(s, b as int) } else { Term::Const(ZERO_BITS) })),
            Node::Div(a, b) => Term::Div(Box::new(if 0 <= a < h { term(s, a as int) } else { Term::Const(ZERO_BITS) }), Box::new(if 0 <= b < h { term(s, b as int) } else { Term::Const(ZERO_BITS) })),
            Node::Min(a, b) => Term::Min(Box::new(if 0 <= a < h { term(s, a as int) } else { Term::Const(ZERO_BITS) }), Box::new(if 0 <= b < h { term(s, b as int) } else { Term::Const(ZERO_BITS) })),
            Node::Atan2(a, b) => Term::Atan2(Box::new(if 0 <= a < h { term(s, a as int) } else { Term::Const(ZERO_BITS) }), Box::new(if 0 <= b < h { term(s, b as int) } else { Term::Const(ZERO_BITS) })),
            Node::Pow(a, p) => Term::Pow(Box::new(if 0 <= a < h { term(s, a as int) } else { Term::Const(ZERO_BITS) }), p),
            Node::Neg(a) => Term::Neg(Box::new(if 0 <= a < h { term(s, a as int) } else { Term::Const(ZERO_BITS) })),
            Node::Abs(a) => Term::Abs(Box::new(if 0 <= a < h { term(s, a as int) } else { Term::Const(ZERO_BITS) })),
            Node::Sin(a) => Term::Sin(Box::new(if 0 <= a < h { term(s, a as int) } else { Term::Const(ZERO_BITS) })),
            Node::Cos(a) => Term::Cos(Box::new(if 0 <= a < h { term(s, a as int) } else { Term::Const(ZERO_BITS) })),
            Node::Exp(a) => Term::Exp(Box::new(if 0 <= a < h { term(s, a as int) } else { Term::Const(ZERO_BITS) })),
            Node::Log(a) => Term::Log(Box::new(if 0 <= a < h { term(s, a as int) } else { Term::Const(ZERO_BITS) })),
            Node::Acos(a) => Term::Acos(Box::new(if 0 <= a < h { term(s, a as int) } else { Term::Const(ZERO_BITS) })),
            Node::Atan(a) => Term::Atan(Box::new(if 0 <= a < h { term(s, a as int) } else { Term::Const(ZERO_BITS) })),
            Node::Compare(a, b, k) => Term::Compare(Box::new(if 0 <= a < h { term(s, a as int) } else { Term::Const(ZERO_BITS) }), Box::new(if 0 <= b < h { term(s, b as int) } else { Term::Const(ZERO_BITS) }), k),
            Node::Ternary(c, t, e) => Term::Ternary(Box::new(if 0 <= c < h { term(s, c as int) } else { Term::Const(ZERO_BITS) }), Box::new(if 0 <= t < h { term(s, t as int) } else { Term::Const(ZERO_BITS) }), Box::new(if 0 <= e < h { term(s, e as int) } else { Term::Const(ZERO_BITS) })),
        }
    } else {
        Term::Const(ZERO_BITS)
    }
}

pub open spec fn t_add(a: Term, b: Term) -> Term {
    Term::Add(Box::new(a), Box::new(b))
}

pub open spec fn t_sub(a: Term, b: Term) -> Term {
    Term::Sub(Box::new(a), Box::new(b))
}

pub open spec fn t_mul(a: Term, b: Term) -> Term {
    Term::Mul(Box::new(a), Box::new(b))
}

pub open spec fn t_div(a: Term, b: Term) -> Term {
    Term::Div(Box::new(a), Box::new(b))
}

pub open spec fn t_min(a: Term, b: Term) -> Term {
    Term::Min(Box::new(a), Box::new(b))
}

pub open spec fn t_atan2(a: Term, b: Term) -> Term {
    Term::Atan2(Box::new(a), Box::new(b))
}

pub open spec fn t_neg(a: Term) -> Term {
    Term::Neg(Box::new(a))
}

pub open spec fn t_abs(a: Term) -> Term {
    Term::Abs(Box::new(a))
}

pub open spec fn t_sin(a: Term) -> Term {
    Term::Sin(Box::new(a))
}

pub open spec fn t_cos(a: Term) -> Term {
    Term::Cos(Box::new(a))
}

pub open spec fn t_exp(a: Term) -> Term {
    Term::Exp(Box::new(a))
}

pub open spec fn t_log(a: Term) -> Term {
    Term::Log(Box::new(a))
}

pub open spec fn t_acos(a: Term) -> Term {
    Term::Acos(Box::new(a))
}

pub open spec fn t_atan(a: Term) -> Term {
    Term::Atan(Box::new(a))
}

pub open spec fn t_pow(a: Term, p: u64) -> Term {
    Term::Pow(Box::new(a), p)
}

pub open spec fn t_cmp(a: Term, b: Term, k: CompareKind) -> Term {
    Term::Compare(Box::new(a), Box::new(b), k)
}

pub open spec fn t_ternary(c: Term, t: Term, e: Term) -> Term {
    Term::Ternary(Box::new(c), Box::new(t), Box::new(e))
}

/// The constant zero.
pub open spec fn t_zero() -> Term {
    Term::Const(ZERO_BITS)
}

/// The constant one.
pub open spec fn t_one() -> Term {
    Term::Const(ONE_BITS)
}

/// The tree of handle `h` in arena `a`.
pub open spec fn tm(a: &Arena, h: usize) -> Term {
    term(a@, h as int)
}

/// Handles keep their trees when nodes are appended.
pub proof fn lemma_term_prefix(s: Seq<Node>, t: Seq<Node>, h: int)
    requires
        s.len() <= t.len(),
        t.take(s.len() as int) == s,
        0 <= h < s.len(),
    ensures
        term(t, h) == term(s, h),
    decreases h,
{
    assert(t[h] == s[h]) by {
        assert(t.take(s.len() as int)[h] == t[h]);
    }
    match s[h] {
        Node::Add(a, b) => {
            if 0 <= a < h {
                lemma_term_prefix(s, t, a as int);
            }
            if 0 <= b < h {
                lemma_term_prefix(s, t, b as int);
            }
        },
        Node::Sub(a, b) => {
            if 0 <= a < h {
                lemma_term_prefix(s, t, a as int);
            }
            if 0 <= b < h {
                lemma_term_prefix(s, t, b as int);
            }
        },
        Node::Mul(a, b) => {
            if 0 <= a < h {
                lemma_term_prefix(s, t, a as int);
            }
            if 0 <= b < h {
                lemma_term_prefix(s, t, b as int);
            }
        },
        Node::Div(a, b) => {
            if 0 <= a < h {
                lemma_term_prefix(s, t, a as int);
            }
            if 0 <= b < h {
                lemma_term_prefix(s, t, b as int);
            }
        },
        Node::Min(a, b) => {
            if 0 <= a < h {
                lemma_term_prefix(s, t, a as int);
            }
            if 0 <= b < h {
                lemma_term_prefix(s, t, b as int);
            }
        },
        Node::Atan2(a, b) => {
            if 0 <= a < h {
                lemma_term_prefix(s, t, a as int);
            }
            if 0 <= b < h {
                lemma_term_prefix(s, t, b as int);
            }
        },
        Node::Pow(a, _) => {
            if 0 <= a < h {
                lemma_term_prefix(s, t, a as int);
            }
        },
        Node::Neg(a) => {
            if 0 <= a < h {
                lemma_term_prefix(s, t, a as int);
            }
        },
        Node::Abs(a) => {
            if 0 <= a < h {
                lemma_term_prefix(s, t, a as int);
            }
        },
        Node::Sin(a) => {
            if 0 <= a < h {
                lemma_term_prefix(s, t, a as int);
            }
        },
        Node::Cos(a) => {
            if 0 <= a < h {
                lemma_term_prefix(s, t, a as int);
            }
        },
        Node::Exp(a) => {
            if 0 <= a < h {
                lemma_term_prefix(s, t, a as int);
            }
        },
        Node::Log(a) => {
            if 0 <= a < h {
                lemma_term_prefix(s, t, a as int);
            }
        },
        Node::Acos(a) => {
            if 0 <= a < h {
                lemma_term_prefix(s, t, a as int);
            }
        },
        Node::Atan(a) => {
            if 0 <= a < h {
                lemma_term_prefix(s, t, a as int);
            }
        },
        Node::Compare(a, b, _) => {
            if 0 <= a < h {
                lemma_term_prefix(s, t, a as int);
            }
            if 0 <= b < h {
                lemma_term_prefix(s, t, b as int);
            }
        },
        Node::Ternary(c, x, e) => {
            if 0 <= c < h {
                lemma_term_prefix(s, t, c as int);
            }
            if 0 <= x < h {
                lemma_term_prefix(s, t, x as int);
            }
            if 0 <= e < h {
                lemma_term_prefix(s, t, e as int);
            }
        },
        _ => {},
    }
}

/// Every handle of `old` keeps its tree in an arena that extends it.
pub proof fn lemma_extends_terms(old: &Arena, new: &Arena)
    requires
        new.extends(old),
    ensures
        forall|h: int| 0 <= h < old@.len() ==> #[trigger] term(new@, h) == term(old@, h),
{
    assert forall|h: int| 0 <= h < old@.len() implies #[trigger] term(new@, h) == term(old@, h) by {
        lemma_term_prefix(old@, new@, h);
    }
}


/// The tree of a node whose operands are handles of `s`.
pub open spec fn node_term(s: Seq<Node>, n: Node) -> Term {
    match n {
        Node::Const(c) => Term::Const(c),
        Node::Input(i) => Term::Input(i as nat),
        Node::Add(a, b) => t_add(term(s, a as int), term(s, b as int)),
        Node::Sub(a, b) => t_sub(term(s, a as int), term(s, b as int)),
        Node::Mul(a, b) => t_mul(term(s, a as int), term(s, b as int)),
        Node::Div(a, b) => t_div(term(s, a as int), term(s, b as int)),
        Node::Min(a, b) => t_min(term(s, a as int), term(s, b as int)),
        Node::Atan2(a, b) => t_atan2(term(s, a as int), term(s, b as int)),
        Node::Pow(a, p) => t_pow(term(s, a as int), p),
        Node::Neg(a) => t_neg(term(s, a as int)),
        Node::Abs(a) => t_abs(term(s, a as int)),
        Node::Sin(a) => t_sin(term(s, a as int)),
        Node::Cos(a) => t_cos(term(s, a as int)),
        Node::Exp(a) => t_exp(term(s, a as int)),
        Node::Log(a) => t_log(term(s, a as int)),
        Node::Acos(a) => t_acos(term(s, a as int)),
        Node::Atan(a) => t_atan(term(s, a as int)),
        Node::Compare(a, b, k) => t_cmp(term(s, a as int), term(s, b as int), k),
        Node::Ternary(c, t, e) => t_ternary(term(s, c as int), term(s, t as int), term(s, e as int)),
    }
}

/// `new` extends `old` and every handle of `old` keeps its tree.
pub open spec fn keeps(old: &Arena, new: &Arena) -> bool {
    &&& new.extends(old)
    &&& forall|g: int| 0 <= g < old@.len() ==> #[trigger] new@[g] == old@[g]
    &&& forall|g: int| 0 <= g < old@.len() ==> #[trigger] term(new@, g) == term(old@, g)
}

/// After interning a node that fits `old`, its handle unfolds to the node's
/// tree over `old`, and the handles of `old` keep theirs.
pub proof fn lemma_interned_term(old: &Arena, new: &Arena, n: Node, h: usize)
    requires
        old.wf(),
        new.wf(),
        node_fits(old@, n, old.inputs()),
        new.interned(old, n, h),
        new.extends(old),
    ensures
        tm(new, h) == node_term(old@, n),
        keeps(old, new),
{
    lemma_extends_terms(old, new);
    let s = new@;
    assert forall|g: int| 0 <= g < old@.len() implies #[trigger] new@[g] == old@[g] by {
        assert(new@.take(old@.len() as int)[g] == new@[g]);
    }
    assert(node_fits(s.take(h as int), s[h as int], new.inputs()));
    match n {
        Node::Add(a, b) => {
            lemma_term_prefix(old@, s, a as int);
            lemma_term_prefix(old@, s, b as int);
        },
        Node::Sub(a, b) => {
            lemma_term_prefix(old@, s, a as int);
            lemma_term_prefix(old@, s, b as int);
        },
        Node::Mul(a, b) => {
            lemma_term_prefix(old@, s, a as int);
            lemma_term_prefix(old@, s, b as int);
        },
        Node::Div(a, b) => {
            lemma_term_prefix(old@, s, a as int);
            lemma_term_prefix(old@, s, b as int);
        },
        Node::Min(a, b) => {
            lemma_term_prefix(old@, s, a as int);
            lemma_term_prefix(old@, s, b as int);
        },
        Node::Atan2(a, b) => {
            lemma_term_prefix(old@, s, a as int);
            lemma_term_prefix(old@, s, b as int);
        },
        Node::Pow(a, _) => {
            lemma_term_prefix(old@, s, a as int);
        },
        Node::Neg(a) => {
            lemma_term_prefix(old@, s, a as int);
        },
        Node::Abs(a) => {
            lemma_term_prefix(old@, s, a as int);
        },
        Node::Sin(a) => {
            lemma_term_prefix(old@, s, a as int);
        },
        Node::Cos(a) => {
            lemma_term_prefix(old@, s, a as int);
        },
        Node::Exp(a) => {
            lemma_term_prefix(old@, s, a as int);
        },
        Node::Log(a) => {
            lemma_term_prefix(old@, s, a as int);
        },
        Node::Acos(a) => {
            lemma_term_prefix(old@, s, a as int);
        },
        Node::Atan(a) => {
            lemma_term_prefix(old@, s, a as int);
        },
        Node::Compare(a, b, _) => {
            lemma_term_prefix(old@, s, a as int);
            lemma_term_prefix(old@, s, b as int);
        },
        Node::Ternary(c, x, e) => {
            lemma_term_prefix(old@, s, c as int);
            lemma_term_prefix(old@, s, x as int);
            lemma_term_prefix(old@, s, e as int);
        },
        _ => {},
    }
}


/// Keeping handles' trees is transitive.
pub proof fn lemma_keeps_trans(a: &Arena, b: &Arena, c: &Arena)
    requires
        keeps(a, b),
        keeps(b, c),
    ensures
        keeps(a, c),
{
    assert(c@.take(a@.len() as int) =~= a@) by {
        assert forall|g: int| 0 <= g < a@.len() implies c@.take(a@.len() as int)[g] == a@[g] by {
            assert(c@[g] == b@[g]);
        }
    }
    assert forall|g: int| 0 <= g < a@.len() implies #[trigger] term(c@, g) == term(a@, g) by {
        assert(term(c@, g) == term(b@, g));
    }
}

/// An arena keeps its own trees.
pub proof fn lemma_keeps_refl(a: &Arena)
    ensures
        keeps(a, a),
{
    assert(a@.take(a@.len() as int) =~= a@);
}


/// Interning, for whole trees: in a well-formed arena two handles that
/// unfold to the same tree are the same handle.
pub proof fn lemma_term_injective(a: &Arena, h1: int, h2: int)
    requires
        a.wf(),
        0 <= h1 < a@.len(),
        0 <= h2 < a@.len(),
        term(a@, h1) == term(a@, h2),
    ensures
        h1 == h2,
    decreases h1 + h2,
{
    let s = a@;
    assert(node_fits(s.take(h1), s[h1], a.inputs()));
    assert(node_fits(s.take(h2), s[h2], a.inputs()));
    match s[h1] {
        Node::Add(x1, y1) => {
            if let Node::Add(x2, y2) = s[h2] {
                lemma_term_injective(a, x1 as int, x2 as int);
                lemma_term_injective(a, y1 as int, y2 as int);
            }
        },
        Node::Sub(x1, y1) => {
            if let Node::Sub(x2, y2) = s[h2] {
                lemma_term_injective(a, x1 as int, x2 as int);
                lemma_term_injective(a, y1 as int, y2 as int);
            }
        },
        Node::Mul(x1, y1) => {
            if let Node::Mul(x2, y2) = s[h2] {
                lemma_term_injective(a, x1 as int, x2 as int);
                lemma_term_injective(a, y1 as int, y2 as int);
            }
        },
        Node::Div(x1, y1) => {
            if let Node::Div(x2, y2) = s[h2] {
                lemma_term_injective(a, x1 as int, x2 as int);
                lemma_term_injective(a, y1 as int, y2 as int);
            }
        },
        Node::Min(x1, y1) => {
            if let Node::Min(x2, y2) = s[h2] {
                lemma_term_injective(a, x1 as int, x2 as int);
                lemma_term_injective(a, y1 as int, y2 as int);
            }
        },
        Node::Atan2(x1, y1) => {
            if let Node::Atan2(x2, y2) = s[h2] {
                lemma_term_injective(a, x1 as int, x2 as int);
                lemma_term_injective(a, y1 as int, y2 as int);
            }
        },
        Node::Pow(x1, _) => {
            if let Node::Pow(x2, _) = s[h2] {
                lemma_term_injective(a, x1 as int, x2 as int);
            }
        },
        Node::Neg(x1) => {
            if let Node::Neg(x2) = s[h2] {
                lemma_term_injective(a, x1 as int, x2 as int);
            }
        },
        Node::Abs(x1) => {
            if let Node::Abs(x2) = s[h2] {
                lemma_term_injective(a, x1 as int, x2 as int);
            }
        },
        Node::Sin(x1) => {
            if let Node::Sin(x2) = s[h2] {
                lemma_term_injective(a, x1 as int, x2 as int);
            }
        },
        Node::Cos(x1) => {
            if let Node::Cos(x2) = s[h2] {
                lemma_term_injective(a, x1 as int, x2 as int);
            }
        },
        Node::Exp(x1) => {
            if let Node::Exp(x2) = s[h2] {
                lemma_term_injective(a, x1 as int, x2 as int);
            }
        },
        Node::Log(x1) => {
            if let Node::Log(x2) = s[h2] {
                lemma_term_injective(a, x1 as int, x2 as int);
            }
        },
        Node::Acos(x1) => {
            if let Node::Acos(x2) = s[h2] {
                lemma_term_injective(a, x1 as int, x2 as int);
            }
        },
        Node::Atan(x1) => {
            if let Node::Atan(x2) = s[h2] {
                lemma_term_injective(a, x1 as int, x2 as int);
            }
        },
        Node::Compare(x1, y1, _) => {
            if let Node::Compare(x2, y2, _) = s[h2] {
                lemma_term_injective(a, x1 as int, x2 as int);
                lemma_term_injective(a, y1 as int, y2 as int);
            }
        },
        Node::Ternary(c1, x1, y1) => {
            if let Node::Ternary(c2, x2, y2) = s[h2] {
                lemma_term_injective(a, c1 as int, c2 as int);
                lemma_term_injective(a, x1 as int, x2 as int);
                lemma_term_injective(a, y1 as int, y2 as int);
            }
        },
        _ => {},
    }
    assert(s[h1] == s[h2]);
}

} // verus!
