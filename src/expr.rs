//! The expression arena: interned real-valued nodes addressed by handles.
//!
//! Constants are stored as the IEEE-754 bit patterns of `f64` values, so two
//! constants are the same node exactly when their bit patterns agree.
use std::collections::HashMap;
use crate::term::{keeps, lemma_interned_term, node_term, tm};
use vstd::prelude::*;

verus! {

broadcast use vstd::std_specs::hash::group_hash_axioms;

/// Bit pattern of the `f64` value `0.0`.
pub const ZERO_BITS: u64 = 0;

/// Bit pattern of the `f64` value `1.0`.
pub const ONE_BITS: u64 = 0x3FF0_0000_0000_0000;

/// Handle of the constant zero in every arena.
pub const ZERO: usize = 0;

/// Handle of the constant one in every arena.
pub const ONE: usize = 1;

/// The relation tested by a comparison node.
#[derive(Clone, Copy, Debug, PartialEq, Eq, Structural)]
pub enum CompareKind {
    Gt,
    Lt,
    Eq,
}

/// One node of the DAG. Operands are handles of earlier nodes.
#[derive(Clone, Copy, Debug, PartialEq, Eq, Structural)]
pub enum Node {
    /// A constant, given by its `f64` bit pattern.
    Const(u64),
    /// The input with the given index.
    Input(usize),
    Add(usize, usize),
    Sub(usize, usize),
    Mul(usize, usize),
    Div(usize, usize),
    /// The smaller of the two operands.
    Min(usize, usize),
    /// `atan2(y, x)`, operands in that order.
    Atan2(usize, usize),
    /// The operand raised to a constant power, given by its bit pattern.
    Pow(usize, u64),
    Neg(usize),
    Abs(usize),
    Sin(usize),
    Cos(usize),
    Exp(usize),
    Log(usize),
    Acos(usize),
    Atan(usize),
    /// A boolean: how the first operand compares with the second.
    Compare(usize, usize, CompareKind),
    /// Selects the second operand when the condition holds, else the third.
    Ternary(usize, usize, usize),
}

/// Whether a node is a boolean (a comparison) rather than a real.
pub open spec fn is_bool_node(n: Node) -> bool {
    n is Compare
}

/// A real-valued handle of the node sequence `s`.
pub open spec fn real_in(s: Seq<Node>, h: int) -> bool {
    0 <= h < s.len() && !is_bool_node(s[h])
}

/// A boolean handle of the node sequence `s`.
pub open spec fn bool_in(s: Seq<Node>, h: int) -> bool {
    0 <= h < s.len() && is_bool_node(s[h])
}

/// A node may be appended to `s`: its operands are earlier nodes of the right
/// sort and its input index is below `inputs`.
pub open spec fn node_fits(s: Seq<Node>, n: Node, inputs: nat) -> bool {
    match n {
        Node::Const(_) => true,
        Node::Input(i) => i < inputs,
        Node::Add(a, b) | Node::Sub(a, b) | Node::Mul(a, b) | Node::Div(a, b)
        | Node::Min(a, b) | Node::Atan2(a, b) | Node::Compare(a, b, _) => real_in(s, a as int)
            && real_in(s, b as int),
        Node::Pow(a, _) | Node::Neg(a) | Node::Abs(a) | Node::Sin(a) | Node::Cos(a)
        | Node::Exp(a) | Node::Log(a) | Node::Acos(a) | Node::Atan(a) => real_in(s, a as int),
        Node::Ternary(c, t, e) => bool_in(s, c as int) && real_in(s, t as int) && real_in(
            s,
            e as int,
        ),
    }
}

/// Every node fits the nodes before it, the first two nodes are the
/// constants zero and one, and no node occurs twice.
pub open spec fn dag_wf(s: Seq<Node>, inputs: nat) -> bool {
    &&& s.len() >= 2
    &&& s[ZERO as int] == Node::Const(ZERO_BITS)
    &&& s[ONE as int] == Node::Const(ONE_BITS)
    &&& forall|h: int| 0 <= h < s.len() ==> #[trigger] node_fits(s.take(h), s[h], inputs)
    &&& forall|i: int, j: int| 0 <= i < s.len() && 0 <= j < s.len() && i != j ==> s[i] != s[j]
}

/// The index key under which a node is filed.
pub open spec fn node_key(n: Node) -> u64 {
    match n {
        Node::Const(c) => c ^ (1u64 << 58u64),
        Node::Input(i) => (i as u64) ^ (2u64 << 58u64),
        Node::Add(a, b) => (a as u64) ^ ((b as u64) << 21u64) ^ (3u64 << 58u64),
        Node::Sub(a, b) => (a as u64) ^ ((b as u64) << 21u64) ^ (4u64 << 58u64),
        Node::Mul(a, b) => (a as u64) ^ ((b as u64) << 21u64) ^ (5u64 << 58u64),
        Node::Div(a, b) => (a as u64) ^ ((b as u64) << 21u64) ^ (6u64 << 58u64),
        Node::Min(a, b) => (a as u64) ^ ((b as u64) << 21u64) ^ (7u64 << 58u64),
        Node::Atan2(a, b) => (a as u64) ^ ((b as u64) << 21u64) ^ (8u64 << 58u64),
        Node::Pow(a, p) => (a as u64) ^ p ^ (9u64 << 58u64),
        Node::Neg(a) => (a as u64) ^ (10u64 << 58u64),
        Node::Abs(a) => (a as u64) ^ (11u64 << 58u64),
        Node::Sin(a) => (a as u64) ^ (12u64 << 58u64),
        Node::Cos(a) => (a as u64) ^ (13u64 << 58u64),
        Node::Exp(a) => (a as u64) ^ (14u64 << 58u64),
        Node::Log(a) => (a as u64) ^ (15u64 << 58u64),
        Node::Acos(a) => (a as u64) ^ (16u64 << 58u64),
        Node::Atan(a) => (a as u64) ^ (17u64 << 58u64),
        Node::Compare(a, b, k) => (a as u64) ^ ((b as u64) << 21u64) ^ (match k {
            CompareKind::Gt => 0u64,
            CompareKind::Lt => 1u64,
            CompareKind::Eq => 2u64,
        } << 42u64) ^ (18u64 << 58u64),
        Node::Ternary(c, t, e) => (c as u64) ^ ((t as u64) << 21u64) ^ ((e as u64) << 42u64) ^ (
        19u64 << 58u64),
    }
}

fn key_of(n: Node) -> (r: u64)
    ensures
        r == node_key(n),
{
    match n {
        Node::Const(c) => c ^ (1u64 << 58u64),
        Node::Input(i) => (i as u64) ^ (2u64 << 58u64),
        Node::Add(a, b) => (a as u64) ^ ((b as u64) << 21u64) ^ (3u64 << 58u64),
        Node::Sub(a, b) => (a as u64) ^ ((b as u64) << 21u64) ^ (4u64 << 58u64),
        Node::Mul(a, b) => (a as u64) ^ ((b as u64) << 21u64) ^ (5u64 << 58u64),
        Node::Div(a, b) => (a as u64) ^ ((b as u64) << 21u64) ^ (6u64 << 58u64),
        Node::Min(a, b) => (a as u64) ^ ((b as u64) << 21u64) ^ (7u64 << 58u64),
        Node::Atan2(a, b) => (a as u64) ^ ((b as u64) << 21u64) ^ (8u64 << 58u64),
        Node::Pow(a, p) => (a as u64) ^ p ^ (9u64 << 58u64),
        Node::Neg(a) => (a as u64) ^ (10u64 << 58u64),
        Node::Abs(a) => (a as u64) ^ (11u64 << 58u64),
        Node::Sin(a) => (a as u64) ^ (12u64 << 58u64),
        Node::Cos(a) => (a as u64) ^ (13u64 << 58u64),
        Node::Exp(a) => (a as u64) ^ (14u64 << 58u64),
        Node::Log(a) => (a as u64) ^ (15u64 << 58u64),
        Node::Acos(a) => (a as u64) ^ (16u64 << 58u64),
        Node::Atan(a) => (a as u64) ^ (17u64 << 58u64),
        Node::Compare(a, b, k) => {
            let kk: u64 = match k {
                CompareKind::Gt => 0u64,
                CompareKind::Lt => 1u64,
                CompareKind::Eq => 2u64,
            };
            (a as u64) ^ ((b as u64) << 21u64) ^ (kk << 42u64) ^ (18u64 << 58u64)
        },
        Node::Ternary(c, t, e) => (c as u64) ^ ((t as u64) << 21u64) ^ ((e as u64) << 42u64) ^ (
        19u64 << 58u64),
    }
}

/// The owner of all nodes of one compilation.
pub struct Arena {
    nodes: Vec<Node>,
    index: HashMap<u64, Vec<usize>>,
    input_count: usize,
}

impl View for Arena {
    type V = Seq<Node>;

    closed spec fn view(&self) -> Seq<Node> {
        self.nodes@
    }
}

impl Arena {
    /// The number of inputs that the nodes may read.
    pub closed spec fn inputs(&self) -> nat {
        self.input_count as nat
    }

    /// The number of inputs fits a `usize`.
    pub proof fn lemma_inputs_bound(&self)
        ensures
            self.inputs() <= usize::MAX,
    {
    }

    /// The lookup index files every node under its key.
    pub closed spec fn index_wf(&self) -> bool {
        forall|h: int|
            0 <= h < self.nodes@.len() ==> {
                &&& #[trigger] self.index@.contains_key(node_key(self.nodes@[h]))
                &&& self.index@[node_key(self.nodes@[h])]@.contains(h as usize)
            }
    }

    /// The arena's invariant.
    pub open spec fn wf(&self) -> bool {
        dag_wf(self@, self.inputs()) && self.index_wf()
    }

    /// `self` holds the nodes of `old` as its first nodes, over the same inputs.
    pub open spec fn extends(&self, old: &Arena) -> bool {
        &&& old@.len() <= self@.len()
        &&& self@.take(old@.len() as int) == old@
        &&& self.inputs() == old.inputs()
    }

    /// `h` is the handle of `n` after interning `n` into `old` gave `self`: the
    /// existing node when `old` has one, else a new last node.
    pub open spec fn interned(&self, old: &Arena, n: Node, h: usize) -> bool {
        &&& self.inputs() == old.inputs()
        &&& h < self@.len()
        &&& self@[h as int] == n
        &&& if old@.contains(n) {
            self@ == old@
        } else {
            self@ == old@.push(n) && h == old@.len()
        }
    }

    /// An arena over `input_count` inputs holding the constants zero and one.
    pub fn new(input_count: usize) -> (r: Arena)
        ensures
            r.wf(),
            r.inputs() == input_count,
            r@ == seq![Node::Const(ZERO_BITS), Node::Const(ONE_BITS)],
    {
        let mut nodes: Vec<Node> = Vec::new();
        nodes.push(Node::Const(ZERO_BITS));
        nodes.push(Node::Const(ONE_BITS));
        let mut index: HashMap<u64, Vec<usize>> = HashMap::new();
        let mut b0: Vec<usize> = Vec::new();
        b0.push(ZERO);
        let mut b1: Vec<usize> = Vec::new();
        b1.push(ONE);
        index.insert(key_of(Node::Const(ZERO_BITS)), b0);
        index.insert(key_of(Node::Const(ONE_BITS)), b1);
        let r = Arena { nodes, index, input_count };
        assert(node_key(Node::Const(ZERO_BITS)) != node_key(Node::Const(ONE_BITS))) by (bit_vector);
        assert(r@ =~= seq![Node::Const(ZERO_BITS), Node::Const(ONE_BITS)]);
        assert(r.index@[node_key(r@[0])]@[0] == 0usize);
        assert(r.index@[node_key(r@[1])]@[0] == 1usize);
        assert(r.index_wf());
        assert forall|h: int| 0 <= h < r@.len() implies #[trigger] node_fits(r@.take(h), r@[h], r.inputs()) by {}
        r
    }

    /// The number of nodes.
    pub fn len(&self) -> (r: usize)
        ensures
            r == self@.len(),
    {
        self.nodes.len()
    }

    /// The number of inputs.
    pub fn input_count(&self) -> (r: usize)
        ensures
            r == self.inputs(),
    {
        self.input_count
    }

    /// The node behind a handle.
    pub fn node(&self, h: usize) -> (r: Node)
        requires
            h < self@.len(),
        ensures
            r == self@[h as int],
    {
        self.nodes[h]
    }

    /// Returns the handle of `n`, adding `n` only when no equal node exists.
    pub fn intern(&mut self, n: Node) -> (h: usize)
        requires
            old(self).wf(),
            node_fits(old(self)@, n, old(self).inputs()),
        ensures
            final(self).wf(),
            final(self).interned(old(self), n, h),
            final(self).extends(old(self)),
    {
        let k = key_of(n);
        let ghost s = self.nodes@;
        let len0 = self.nodes.len();
        match self.index.get(&k) {
            Some(bucket) => {
                let mut j: usize = 0;
                while j < bucket.len()
                    invariant
                        self.wf(),
                        *self == *old(self),
                        self.nodes@ == s,
                        len0 == s.len(),
                        self.index@.contains_key(k),
                        *bucket == self.index@[k],
                        j <= bucket@.len(),
                        forall|m: int|
                            0 <= m < j ==> bucket@[m] >= s.len() || s[bucket@[m] as int] != n,
                    decreases bucket.len() - j,
                {
                    let e = bucket[j];
                    if e < self.nodes.len() && self.nodes[e] == n {
                        proof {
                            assert(s.take(s.len() as int) =~= s);
                            assert(s.contains(n)) by {
                                assert(s[e as int] == n);
                            }
                        }
                        return e;
                    }
                    j = j + 1;
                }
                proof {
                    assert(!s.contains(n)) by {
                        if s.contains(n) {
                            let h = choose|h: int| 0 <= h < s.len() && s[h] == n;
                            assert(self.index@.contains_key(node_key(s[h])));
                            assert(bucket@.contains(h as usize));
                            let m = choose|m: int| 0 <= m < bucket@.len() && bucket@[m] == h as usize;
                            assert(bucket@[m] < s.len() && s[bucket@[m] as int] == n);
                        }
                    }
                }
            },
            None => {
                proof {
                    assert(!s.contains(n)) by {
                        if s.contains(n) {
                            let h = choose|h: int| 0 <= h < s.len() && s[h] == n;
                            assert(self.index@.contains_key(node_key(s[h])));
                        }
                    }
                }
            },
        }
        let h = self.nodes.len();
        self.nodes.push(n);
        let ghost idx0 = self.index@;
        let mut bucket = match self.index.remove(&k) {
            Some(b) => b,
            None => Vec::new(),
        };
        let ghost old_bucket = bucket@;
        bucket.push(h);
        self.index.insert(k, bucket);
        proof {
            let t = self.nodes@;
            assert(t == s.push(n));
            assert(t.take(s.len() as int) =~= s);
            assert forall|g: int| 0 <= g < t.len() implies #[trigger] node_fits(t.take(g), t[g], self.inputs()) by {
                if g < s.len() {
                    assert(t.take(g) =~= s.take(g));
                    assert(node_fits(s.take(g), s[g], self.inputs()));
                } else {
                    assert(t.take(g) =~= s);
                }
            }
            assert forall|i: int, j: int| 0 <= i < t.len() && 0 <= j < t.len() && i != j implies t[i] != t[j] by {
                if i == h as int && j < s.len() { assert(s.contains(s[j])); }
                if j == h as int && i < s.len() { assert(s.contains(s[i])); }
            }
            assert forall|g: int| 0 <= g < t.len() implies {
                &&& #[trigger] self.index@.contains_key(node_key(t[g]))
                &&& self.index@[node_key(t[g])]@.contains(g as usize)
            } by {
                if g == h as int {
                    assert(self.index@[k]@[old_bucket.len() as int] == h);
                } else {
                    assert(t[g] == s[g]);
                    assert(idx0.contains_key(node_key(s[g])));
                    assert(idx0[node_key(s[g])]@.contains(g as usize));
                    if node_key(s[g]) == k {
                        assert(old_bucket == idx0[k]@);
                        let m = choose|m: int|
                            0 <= m < old_bucket.len() && old_bucket[m] == g as usize;
                        assert(self.index@[k]@[m] == g as usize);
                    } else {
                        assert(self.index@[node_key(t[g])] == idx0[node_key(t[g])]);
                    }
                }
            }
        }
        h
    }

    /// The node `a + b`.
    pub fn add(&mut self, a: usize, b: usize) -> (h: usize)
        requires
            old(self).wf(),
            real_in(old(self)@, a as int),
            real_in(old(self)@, b as int),
        ensures
            final(self).wf(),
            final(self).interned(old(self), Node::Add(a, b), h),
            final(self).extends(old(self)),
            keeps(old(self), final(self)),
            tm(final(self), h) == node_term(old(self)@, Node::Add(a, b)),
    {
        let ghost a0 = *self;
        let h = self.intern(Node::Add(a, b));
        proof {
            lemma_interned_term(&a0, self, Node::Add(a, b), h);
        }
        h
    }

    /// The node `a - b`.
    pub fn sub(&mut self, a: usize, b: usize) -> (h: usize)
        requires
            old(self).wf(),
            real_in(old(self)@, a as int),
            real_in(old(self)@, b as int),
        ensures
            final(self).wf(),
            final(self).interned(old(self), Node::Sub(a, b), h),
            final(self).extends(old(self)),
            keeps(old(self), final(self)),
            tm(final(self), h) == node_term(old(self)@, Node::Sub(a, b)),
    {
        let ghost a0 = *self;
        let h = self.intern(Node::Sub(a, b));
        proof {
            lemma_interned_term(&a0, self, Node::Sub(a, b), h);
        }
        h
    }

    /// The node `a * b`.
    pub fn mul(&mut self, a: usize, b: usize) -> (h: usize)
        requires
            old(self).wf(),
            real_in(old(self)@, a as int),
            real_in(old(self)@, b as int),
        ensures
            final(self).wf(),
            final(self).interned(old(self), Node::Mul(a, b), h),
            final(self).extends(old(self)),
            keeps(old(self), final(self)),
            tm(final(self), h) == node_term(old(self)@, Node::Mul(a, b)),
    {
        let ghost a0 = *self;
        let h = self.intern(Node::Mul(a, b));
        proof {
            lemma_interned_term(&a0, self, Node::Mul(a, b), h);
        }
        h
    }

    /// The node `a / b`.
    pub fn div(&mut self, a: usize, b: usize) -> (h: usize)
        requires
            old(self).wf(),
            real_in(old(self)@, a as int),
            real_in(old(self)@, b as int),
        ensures
            final(self).wf(),
            final(self).interned(old(self), Node::Div(a, b), h),
            final(self).extends(old(self)),
            keeps(old(self), final(self)),
            tm(final(self), h) == node_term(old(self)@, Node::Div(a, b)),
    {
        let ghost a0 = *self;
        let h = self.intern(Node::Div(a, b));
        proof {
            lemma_interned_term(&a0, self, Node::Div(a, b), h);
        }
        h
    }

    /// The node the smaller of `a` and `b`.
    pub fn min(&mut self, a: usize, b: usize) -> (h: usize)
        requires
            old(self).wf(),
            real_in(old(self)@, a as int),
            real_in(old(self)@, b as int),
        ensures
            final(self).wf(),
            final(self).interned(old(self), Node::Min(a, b), h),
            final(self).extends(old(self)),
            keeps(old(self), final(self)),
            tm(final(self), h) == node_term(old(self)@, Node::Min(a, b)),
    {
        let ghost a0 = *self;
        let h = self.intern(Node::Min(a, b));
        proof {
            lemma_interned_term(&a0, self, Node::Min(a, b), h);
        }
        h
    }

    /// The node `atan2(a, b)`, `a` being the ordinate.
    pub fn atan2(&mut self, a: usize, b: usize) -> (h: usize)
        requires
            old(self).wf(),
            real_in(old(self)@, a as int),
            real_in(old(self)@, b as int),
        ensures
            final(self).wf(),
            final(self).interned(old(self), Node::Atan2(a, b), h),
            final(self).extends(old(self)),
            keeps(old(self), final(self)),
            tm(final(self), h) == node_term(old(self)@, Node::Atan2(a, b)),
    {
        let ghost a0 = *self;
        let h = self.intern(Node::Atan2(a, b));
        proof {
            lemma_interned_term(&a0, self, Node::Atan2(a, b), h);
        }
        h
    }

    /// The node `-a`.
    pub fn neg(&mut self, a: usize) -> (h: usize)
        requires
            old(self).wf(),
            real_in(old(self)@, a as int),
        ensures
            final(self).wf(),
            final(self).interned(old(self), Node::Neg(a), h),
            final(self).extends(old(self)),
            keeps(old(self), final(self)),
            tm(final(self), h) == node_term(old(self)@, Node::Neg(a)),
    {
        let ghost a0 = *self;
        let h = self.intern(Node::Neg(a));
        proof {
            lemma_interned_term(&a0, self, Node::Neg(a), h);
        }
        h
    }

    /// The node `|a|`.
    pub fn abs(&mut self, a: usize) -> (h: usize)
        requires
            old(self).wf(),
            real_in(old(self)@, a as int),
        ensures
            final(self).wf(),
            final(self).interned(old(self), Node::Abs(a), h),
            final(self).extends(old(self)),
            keeps(old(self), final(self)),
            tm(final(self), h) == node_term(old(self)@, Node::Abs(a)),
    {
        let ghost a0 = *self;
        let h = self.intern(Node::Abs(a));
        proof {
            lemma_interned_term(&a0, self, Node::Abs(a), h);
        }
        h
    }

    /// The node `sin a`.
    pub fn sin(&mut self, a: usize) -> (h: usize)
        requires
            old(self).wf(),
            real_in(old(self)@, a as int),
        ensures
            final(self).wf(),
            final(self).interned(old(self), Node::Sin(a), h),
            final(self).extends(old(self)),
            keeps(old(self), final(self)),
            tm(final(self), h) == node_term(old(self)@, Node::Sin(a)),
    {
        let ghost a0 = *self;
        let h = self.intern(Node::Sin(a));
        proof {
            lemma_interned_term(&a0, self, Node::Sin(a), h);
        }
        h
    }

    /// The node `cos a`.
    pub fn cos(&mut self, a: usize) -> (h: usize)
        requires
            old(self).wf(),
            real_in(old(self)@, a as int),
        ensures
            final(self).wf(),
            final(self).interned(old(self), Node::Cos(a), h),
            final(self).extends(old(self)),
            keeps(old(self), final(self)),
            tm(final(self), h) == node_term(old(self)@, Node::Cos(a)),
    {
        let ghost a0 = *self;
        let h = self.intern(Node::Cos(a));
        proof {
            lemma_interned_term(&a0, self, Node::Cos(a), h);
        }
        h
    }

    /// The node `e^a`.
    pub fn exp(&mut self, a: usize) -> (h: usize)
        requires
            old(self).wf(),
            real_in(old(self)@, a as int),
        ensures
            final(self).wf(),
            final(self).interned(old(self), Node::Exp(a), h),
            final(self).extends(old(self)),
            keeps(old(self), final(self)),
            tm(final(self), h) == node_term(old(self)@, Node::Exp(a)),
    {
        let ghost a0 = *self;
        let h = self.intern(Node::Exp(a));
        proof {
            lemma_interned_term(&a0, self, Node::Exp(a), h);
        }
        h
    }

    /// The node the natural logarithm of `a`.
    pub fn log(&mut self, a: usize) -> (h: usize)
        requires
            old(self).wf(),
            real_in(old(self)@, a as int),
        ensures
            final(self).wf(),
            final(self).interned(old(self), Node::Log(a), h),
            final(self).extends(old(self)),
            keeps(old(self), final(self)),
            tm(final(self), h) == node_term(old(self)@, Node::Log(a)),
    {
        let ghost a0 = *self;
        let h = self.intern(Node::Log(a));
        proof {
            lemma_interned_term(&a0, self, Node::Log(a), h);
        }
        h
    }

    /// The node `acos a`.
    pub fn acos(&mut self, a: usize) -> (h: usize)
        requires
            old(self).wf(),
            real_in(old(self)@, a as int),
        ensures
            final(self).wf(),
            final(self).interned(old(self), Node::Acos(a), h),
            final(self).extends(old(self)),
            keeps(old(self), final(self)),
            tm(final(self), h) == node_term(old(self)@, Node::Acos(a)),
    {
        let ghost a0 = *self;
        let h = self.intern(Node::Acos(a));
        proof {
            lemma_interned_term(&a0, self, Node::Acos(a), h);
        }
        h
    }

    /// The node `atan a`.
    pub fn atan(&mut self, a: usize) -> (h: usize)
        requires
            old(self).wf(),
            real_in(old(self)@, a as int),
        ensures
            final(self).wf(),
            final(self).interned(old(self), Node::Atan(a), h),
            final(self).extends(old(self)),
            keeps(old(self), final(self)),
            tm(final(self), h) == node_term(old(self)@, Node::Atan(a)),
    {
        let ghost a0 = *self;
        let h = self.intern(Node::Atan(a));
        proof {
            lemma_interned_term(&a0, self, Node::Atan(a), h);
        }
        h
    }

    /// The constant with the given `f64` bit pattern.
    pub fn constant(&mut self, bits: u64) -> (h: usize)
        requires
            old(self).wf(),
        ensures
            final(self).wf(),
            final(self).interned(old(self), Node::Const(bits), h),
            final(self).extends(old(self)),
            keeps(old(self), final(self)),
            tm(final(self), h) == node_term(old(self)@, Node::Const(bits)),
    {
        let ghost a0 = *self;
        let h = self.intern(Node::Const(bits));
        proof {
            lemma_interned_term(&a0, self, Node::Const(bits), h);
        }
        h
    }

    /// The input with index `i`.
    pub fn input(&mut self, i: usize) -> (h: usize)
        requires
            old(self).wf(),
            i < old(self).inputs(),
        ensures
            final(self).wf(),
            final(self).interned(old(self), Node::Input(i), h),
            final(self).extends(old(self)),
            keeps(old(self), final(self)),
            tm(final(self), h) == node_term(old(self)@, Node::Input(i)),
    {
        let ghost a0 = *self;
        let h = self.intern(Node::Input(i));
        proof {
            lemma_interned_term(&a0, self, Node::Input(i), h);
        }
        h
    }

    /// The node `a` raised to the constant power with bit pattern `p`.
    pub fn pow(&mut self, a: usize, p: u64) -> (h: usize)
        requires
            old(self).wf(),
            real_in(old(self)@, a as int),
        ensures
            final(self).wf(),
            final(self).interned(old(self), Node::Pow(a, p), h),
            final(self).extends(old(self)),
            keeps(old(self), final(self)),
            tm(final(self), h) == node_term(old(self)@, Node::Pow(a, p)),
    {
        let ghost a0 = *self;
        let h = self.intern(Node::Pow(a, p));
        proof {
            lemma_interned_term(&a0, self, Node::Pow(a, p), h);
        }
        h
    }

    /// The boolean node comparing `a` with `b`.
    pub fn compare(&mut self, a: usize, b: usize, kind: CompareKind) -> (h: usize)
        requires
            old(self).wf(),
            real_in(old(self)@, a as int),
            real_in(old(self)@, b as int),
        ensures
            final(self).wf(),
            final(self).interned(old(self), Node::Compare(a, b, kind), h),
            final(self).extends(old(self)),
            keeps(old(self), final(self)),
            tm(final(self), h) == node_term(old(self)@, Node::Compare(a, b, kind)),
    {
        let ghost a0 = *self;
        let h = self.intern(Node::Compare(a, b, kind));
        proof {
            lemma_interned_term(&a0, self, Node::Compare(a, b, kind), h);
        }
        h
    }

    /// The node selecting `t` when `c` holds and `e` otherwise.
    pub fn ternary(&mut self, c: usize, t: usize, e: usize) -> (h: usize)
        requires
            old(self).wf(),
            bool_in(old(self)@, c as int),
            real_in(old(self)@, t as int),
            real_in(old(self)@, e as int),
        ensures
            final(self).wf(),
            final(self).interned(old(self), Node::Ternary(c, t, e), h),
            final(self).extends(old(self)),
            keeps(old(self), final(self)),
            tm(final(self), h) == node_term(old(self)@, Node::Ternary(c, t, e)),
    {
        let ghost a0 = *self;
        let h = self.intern(Node::Ternary(c, t, e));
        proof {
            lemma_interned_term(&a0, self, Node::Ternary(c, t, e), h);
        }
        h
    }
}

/// Interning: in a well-formed arena two handles with equal nodes are the
/// same handle.
pub proof fn lemma_equal_nodes_same_handle(a: &Arena, h1: int, h2: int)
    requires
        a.wf(),
        0 <= h1 < a@.len(),
        0 <= h2 < a@.len(),
        a@[h1] == a@[h2],
    ensures
        h1 == h2,
{
}

/// Interning: asking twice for the same node, with nothing in between, yields
/// the same handle and leaves the arena as the first request left it.
pub proof fn lemma_intern_twice(a0: &Arena, a1: &Arena, a2: &Arena, n: Node, h1: usize, h2: usize)
    requires
        a1.wf(),
        a1.interned(a0, n, h1),
        a2.interned(a1, n, h2),
    ensures
        h1 == h2,
        a2@ == a1@,
{
    assert(a1@.contains(n)) by {
        assert(a1@[h1 as int] == n);
    }
    lemma_equal_nodes_same_handle(a1, h1 as int, h2 as int);
}

} // verus!
