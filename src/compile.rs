//! The whole lowering: inputs of the entities, values of the expressions,
//! rule errors, per-entity errors and the aggregate error.
use crate::expr::{real_in, Arena, ZERO};
use crate::ir::{
    entity_width, inputs_before, intermediate_ok, kind_ok, kind_shape, shapes_of, EntityIndex,
    EntityKind, ExpressionKind, Intermediate, Rule,
};
use crate::lower::{
    adj_ok, adj_shape, adj_term, all_valid, expr_term, lemma_keeps_values, lower_expression,
    nat_node, nat_term, v_shape, v_valid, vshapes, vt, vts, ValueExpr, VTerm,
};
use crate::rules::{rule_error, rule_term, weighted};
use crate::term::{keeps, lemma_keeps_refl, lemma_keeps_trans, t_add, t_div, t_mul, t_pow, t_zero, tm, Term};
use crate::value::{cterm, ComplexExpr};
use vstd::prelude::*;

verus! {

/// The number of inputs that the entities read.
pub fn count_inputs(ents: &Vec<EntityKind>) -> (r: usize)
    requires
        inputs_before(ents@, ents.len() as int) <= usize::MAX,
    ensures
        r == inputs_before(ents@, ents.len() as int),
{
    let mut n: usize = 0;
    let mut i: usize = 0;
    while i < ents.len()
        invariant
            i <= ents.len(),
            n == inputs_before(ents@, i as int),
            inputs_before(ents@, ents.len() as int) <= usize::MAX,
        decreases ents.len() - i,
    {
        proof {
            lemma_inputs_before_mono(ents@, i as int + 1, ents.len() as int);
        }
        n = match ents[i] {
            EntityKind::FreePoint => n + 2,
            _ => n + 1,
        };
        i = i + 1;
    }
    n
}

/// Counting inputs over more entities never gives fewer.
pub proof fn lemma_inputs_before_mono(es: Seq<EntityKind>, i: int, j: int)
    requires
        0 <= i <= j <= es.len(),
    ensures
        inputs_before(es, i) <= inputs_before(es, j),
    decreases j - i,
{
    if i < j {
        lemma_inputs_before_mono(es, i, j - 1);
    }
}

/// The value that an entity reads from the inputs starting at `index`.
pub fn adjustable(ar: &mut Arena, e: EntityKind, index: usize) -> (out: ValueExpr)
    requires
        old(ar).wf(),
        index + entity_width(e) <= old(ar).inputs(),
    ensures
        final(ar).wf(),
        keeps(old(ar), final(ar)),
        v_valid(final(ar), out),
        v_shape(out) == adj_shape(e),
        vt(final(ar), out) == adj_term(e, index as nat),
{
    let ghost a0 = *ar;
    proof {
        ar.lemma_inputs_bound();
    }
    match e {
        EntityKind::FreePoint => {
            let x = ar.input(index);
            let ghost q = *ar;
            let y = ar.input(index + 1);
            proof {
                lemma_keeps_trans(&a0, &q, ar);
            }
            ValueExpr::Complex(ComplexExpr { real: x, imaginary: y })
        },
        _ => {
            let x = ar.input(index);
            ValueExpr::This(x)
        },
    }
}

/// The inputs each entity reads, in entity order.
#[verifier::rlimit(100)]
pub fn adjustables(ar: &mut Arena, ents: &Vec<EntityKind>) -> (out: Vec<ValueExpr>)
    requires
        old(ar).wf(),
        old(ar).inputs() == inputs_before(ents@, ents.len() as int),
    ensures
        final(ar).wf(),
        keeps(old(ar), final(ar)),
        adj_ok(ents@, out@),
        all_valid(final(ar), out@),
        forall|e: int|
            0 <= e < ents.len() ==> #[trigger] vt(final(ar), out@[e]) == adj_term(
                ents@[e],
                inputs_before(ents@, e),
            ),
{
    let ghost a0 = *ar;
    proof {
        lemma_keeps_refl(ar);
    }
    let mut out: Vec<ValueExpr> = Vec::new();
    let mut index: usize = 0;
    let mut i: usize = 0;
    while i < ents.len()
        invariant
            i <= ents.len(),
            out.len() == i,
            index == inputs_before(ents@, i as int),
            ar.wf(),
            keeps(&a0, ar),
            ar.inputs() == inputs_before(ents@, ents.len() as int),
            forall|e: int| 0 <= e < i ==> v_shape(#[trigger] out@[e]) == adj_shape(ents@[e]),
            forall|e: int|
                0 <= e < i ==> #[trigger] v_valid(ar, out@[e]) && vt(ar, out@[e]) == adj_term(
                    ents@[e],
                    inputs_before(ents@, e),
                ),
        decreases ents.len() - i,
    {
        proof {
            lemma_inputs_before_mono(ents@, i as int + 1, ents.len() as int);
            assert(inputs_before(ents@, i as int + 1) == index + entity_width(ents@[i as int]));
            ar.lemma_inputs_bound();
        }
        let ghost p = *ar;
        let ghost old_out = out@;
        let v = adjustable(ar, ents[i], index);
        out.push(v);
        index = if let EntityKind::FreePoint = ents[i] {
            index + 2
        } else {
            index + 1
        };
        proof {
            lemma_keeps_trans(&a0, &p, ar);
            assert forall|e: int| 0 <= e <= i implies #[trigger] v_valid(ar, out@[e]) && vt(
                ar,
                out@[e],
            ) == adj_term(ents@[e], inputs_before(ents@, e)) by {
                if e < i {
                    assert(out@[e] == old_out[e]);
                    assert(v_valid(&p, old_out[e]));
                    crate::lower::lemma_keeps_value(&p, ar, old_out[e]);
                }
            }
        }
        i = i + 1;
    }
    proof {
        assert forall|e: int| 0 <= e < ents.len() implies #[trigger] vt(ar, out@[e]) == adj_term(
            ents@[e],
            inputs_before(ents@, e),
        ) by {
            assert(v_valid(ar, out@[e]));
        }
    }
    out
}

/// The values of the expressions `kinds`, each lowered over the ones before.
#[verifier::rlimit(100)]
pub fn lower_variables(
    ar: &mut Arena,
    ents: &Vec<EntityKind>,
    adj: &Vec<ValueExpr>,
    kinds: &Vec<ExpressionKind>,
) -> (out: Vec<ValueExpr>)
    requires
        old(ar).wf(),
        all_valid(old(ar), adj@),
        adj_ok(ents@, adj@),
        forall|i: int|
            0 <= i < kinds.len() ==> #[trigger] kind_ok(
                ents@,
                shapes_of(kinds@).take(i),
                i,
                kinds@[i],
            ),
    ensures
        final(ar).wf(),
        keeps(old(ar), final(ar)),
        out.len() == kinds.len(),
        all_valid(final(ar), out@),
        vshapes(out@) == shapes_of(kinds@),
        forall|i: int|
            0 <= i < kinds.len() ==> #[trigger] vts(final(ar), out@)[i] == expr_term(
                ents@,
                vts(old(ar), adj@),
                vts(final(ar), out@).take(i),
                kinds@[i],
            ),
{
    let ghost a0 = *ar;
    let ghost adj_t = vts(old(ar), adj@);
    let ghost mut t: Seq<VTerm> = Seq::empty();
    proof {
        lemma_keeps_refl(ar);
    }
    let mut out: Vec<ValueExpr> = Vec::new();
    let mut i: usize = 0;
    while i < kinds.len()
        invariant
            i <= kinds.len(),
            out.len() == i,
            t.len() == i,
            ar.wf(),
            a0.wf(),
            keeps(&a0, ar),
            all_valid(&a0, adj@),
            adj_ok(ents@, adj@),
            adj_t == vts(&a0, adj@),
            forall|j: int|
                0 <= j < kinds.len() ==> #[trigger] kind_ok(
                    ents@,
                    shapes_of(kinds@).take(j),
                    j,
                    kinds@[j],
                ),
            vshapes(out@) == shapes_of(kinds@).take(i as int),
            all_valid(ar, out@),
            forall|j: int| 0 <= j < i ==> #[trigger] vt(ar, out@[j]) == t[j],
            forall|j: int|
                0 <= j < i ==> #[trigger] t[j] == expr_term(ents@, adj_t, t.take(j), kinds@[j]),
        decreases kinds.len() - i,
    {
        let ghost p = *ar;
        let ghost old_out = out@;
        proof {
            lemma_keeps_values(&a0, ar, adj@);
            assert(kind_ok(ents@, shapes_of(kinds@).take(i as int), i as int, kinds@[i as int]));
            assert(vts(ar, out@) =~= t) by {
                assert forall|j: int| 0 <= j < i implies vts(ar, out@)[j] == t[j] by {
                    assert(vt(ar, out@[j]) == t[j]);
                }
            }
        }
        let v = lower_expression(ar, ents, adj, &out, &kinds[i]);
        out.push(v);
        proof {
            lemma_keeps_trans(&a0, &p, ar);
            lemma_keeps_values(&p, ar, old_out);
            t = t.push(vt(ar, v));
            assert(t.take(i as int) =~= vts(&p, old_out));
            assert(vshapes(out@) =~= shapes_of(kinds@).take(i + 1));
            assert forall|j: int| 0 <= j < out@.len() implies #[trigger] v_valid(ar, out@[j]) by {
                if j < i {
                    assert(out@[j] == old_out[j]);
                    assert(v_valid(ar, old_out[j]));
                }
            }
            assert forall|j: int| 0 <= j <= i implies #[trigger] vt(ar, out@[j]) == t[j] by {
                if j < i {
                    assert(out@[j] == old_out[j]);
                    assert(vts(ar, old_out)[j] == vts(&p, old_out)[j]);
                    assert(vt(&p, old_out[j]) == t[j]);
                }
            }
            assert forall|j: int| 0 <= j <= i implies #[trigger] t[j] == expr_term(
                ents@,
                adj_t,
                t.take(j),
                kinds@[j],
            ) by {
                if j < i {
                    assert(t.take(j) =~= t.drop_last().take(j));
                } else {
                    assert(t.take(j) =~= vts(&p, old_out));
                }
            }
        }
        i = i + 1;
    }
    proof {
        assert(vts(ar, out@) =~= t) by {
            assert forall|j: int| 0 <= j < i implies vts(ar, out@)[j] == t[j] by {
                assert(vt(ar, out@[j]) == t[j]);
            }
        }
        assert(shapes_of(kinds@).take(i as int) =~= shapes_of(kinds@));
    }
    out
}

/// Adds `q` to `acc` once for each occurrence of entity `e` among the first
/// `j` entries of `list`.
pub open spec fn occ_fold(acc: Term, q: Term, list: Seq<EntityIndex>, e: int, j: int) -> Term
    decreases j,
{
    if j <= 0 {
        acc
    } else {
        let a = occ_fold(acc, q, list, e, j - 1);
        if list[j - 1].0 == e {
            t_add(a, q)
        } else {
            a
        }
    }
}

/// The error of entity `e` after the first `i` rules: the sum, in rule order,
/// of the errors of the rules that list `e`, once per listing.
pub open spec fn entity_error_term(rt: Seq<Term>, lists: Seq<Seq<EntityIndex>>, e: int, i: int) -> Term
    decreases i,
{
    if i <= 0 {
        t_zero()
    } else {
        occ_fold(entity_error_term(rt, lists, e, i - 1), rt[i - 1], lists[i - 1], e, lists[i - 1].len() as int)
    }
}

/// One more entry of the list either adds `q` or leaves the sum.
pub proof fn lemma_occ_step(acc: Term, q: Term, list: Seq<EntityIndex>, f: int, j: int)
    requires
        0 <= j < list.len(),
    ensures
        occ_fold(acc, q, list, f, j + 1) == if list[j].0 == f {
            t_add(occ_fold(acc, q, list, f, j), q)
        } else {
            occ_fold(acc, q, list, f, j)
        },
{
}

/// The trees of a list of handles.
pub open spec fn terms_of(a: &Arena, hs: Seq<usize>) -> Seq<Term> {
    hs.map_values(|h: usize| tm(a, h))
}

/// The entity lists of the rules.
pub open spec fn rule_lists(rules: Seq<Rule>) -> Seq<Seq<EntityIndex>> {
    rules.map_values(|r: Rule| r.entities@)
}

/// The error of each entity: the sum of the errors of the rules that list it.
#[verifier::rlimit(100)]
pub fn entity_errors(ar: &mut Arena, rule_errs: &Vec<usize>, rules: &Vec<Rule>, n: usize) -> (out: Vec<usize>)
    requires
        old(ar).wf(),
        rule_errs.len() == rules.len(),
        forall|i: int| 0 <= i < rule_errs.len() ==> #[trigger] real_in(old(ar)@, rule_errs@[i] as int),
        forall|i: int, j: int|
            0 <= i < rules.len() && 0 <= j < rules@[i].entities.len() ==> (
            #[trigger] rules@[i].entities@[j]).0 < n,
    ensures
        final(ar).wf(),
        keeps(old(ar), final(ar)),
        out.len() == n,
        forall|e: int| 0 <= e < n ==> #[trigger] real_in(final(ar)@, out@[e] as int),
        forall|e: int|
            0 <= e < n ==> #[trigger] tm(final(ar), out@[e]) == entity_error_term(
                terms_of(old(ar), rule_errs@),
                rule_lists(rules@),
                e,
                rules.len() as int,
            ),
{
    let ghost a0 = *ar;
    let ghost rt = terms_of(old(ar), rule_errs@);
    let ghost lists = rule_lists(rules@);
    proof {
        lemma_keeps_refl(ar);
    }
    let mut out: Vec<usize> = Vec::new();
    let mut k: usize = 0;
    while k < n
        invariant
            k <= n,
            out.len() == k,
            ar.wf(),
            forall|e: int| 0 <= e < k ==> out@[e] == ZERO,
        decreases n - k,
    {
        out.push(ZERO);
        k = k + 1;
    }
    let mut i: usize = 0;
    while i < rules.len()
        invariant
            i <= rules.len(),
            out.len() == n,
            ar.wf(),
            a0.wf(),
            keeps(&a0, ar),
            rule_errs.len() == rules.len(),
            rt == terms_of(&a0, rule_errs@),
            lists == rule_lists(rules@),
            forall|r: int| 0 <= r < rule_errs.len() ==> #[trigger] real_in(a0@, rule_errs@[r] as int),
            forall|r: int, j: int|
                0 <= r < rules.len() && 0 <= j < rules@[r].entities.len() ==> (
                #[trigger] rules@[r].entities@[j]).0 < n,
            forall|e: int| 0 <= e < n ==> #[trigger] real_in(ar@, out@[e] as int),
            forall|e: int|
                0 <= e < n ==> #[trigger] tm(ar, out@[e]) == entity_error_term(rt, lists, e, i as int),
        decreases rules.len() - i,
    {
        let q = rule_errs[i];
        let list = &rules[i].entities;
        proof {
            assert(real_in(a0@, q as int));
            assert(lists[i as int] == list@);
            assert(rt[i as int] == tm(&a0, q));
            assert(forall|jj: int| 0 <= jj < list.len() ==> (#[trigger] list@[jj]).0 < n) by {
                assert(forall|jj: int| 0 <= jj < list.len() ==> (#[trigger] list@[jj]) == rules@[i as int].entities@[jj]);
            }
        }
        let mut j: usize = 0;
        while j < list.len()
            invariant
                i < rules.len(),
                j <= list.len(),
                *list == rules@[i as int].entities,
                out.len() == n,
                ar.wf(),
                keeps(&a0, ar),
                real_in(ar@, q as int),
                tm(ar, q) == rt[i as int],
                forall|jj: int| 0 <= jj < list.len() ==> (#[trigger] list@[jj]).0 < n,
                forall|e: int| 0 <= e < n ==> #[trigger] real_in(ar@, out@[e] as int),
                forall|e: int|
                    0 <= e < n ==> #[trigger] tm(ar, out@[e]) == occ_fold(
                        entity_error_term(rt, lists, e, i as int),
                        rt[i as int],
                        list@,
                        e,
                        j as int,
                    ),
            decreases list.len() - j,
        {
            let ix = list[j];
            let e = ix.0;
            let ghost p = *ar;
            let ghost old_out = out@;
            proof {
                assert(list@[j as int] == ix);
                assert(real_in(p@, old_out[e as int] as int));
            }
            let s = ar.add(out[e], q);
            out.set(e, s);
            proof {
                lemma_keeps_trans(&a0, &p, ar);
                assert forall|f: int| 0 <= f < n implies #[trigger] real_in(ar@, out@[f] as int) by {
                    assert(real_in(p@, old_out[f] as int));
                    if f != e as int {
                        assert(out@[f] == old_out[f]);
                    }
                }
                assert forall|f: int| 0 <= f < n implies #[trigger] tm(ar, out@[f]) == occ_fold(
                    entity_error_term(rt, lists, f, i as int),
                    rt[i as int],
                    list@,
                    f,
                    j + 1,
                ) by {
                    lemma_occ_step(entity_error_term(rt, lists, f, i as int), rt[i as int], list@, f, j as int);
                    assert(real_in(p@, old_out[f] as int));
                    if f != e as int {
                        assert(out@[f] == old_out[f]);
                        assert(tm(ar, old_out[f]) == tm(&p, old_out[f]));
                        assert(list@[j as int].0 != f);
                    } else {
                        assert(out@[f] == s);
                        assert(tm(ar, s) == t_add(tm(&p, old_out[f]), tm(&p, q)));
                        assert(tm(&p, q) == rt[i as int]);
                    }
                }
            }
            j = j + 1;
        }
        proof {
            assert forall|e: int| 0 <= e < n implies #[trigger] tm(ar, out@[e]) == entity_error_term(rt, lists, e, i + 1) by {
                assert(list@.len() == lists[i as int].len());
            }
        }
        i = i + 1;
    }
    out
}

/// The weighted error term of each rule.
#[verifier::rlimit(60)]
pub fn rule_errors(ar: &mut Arena, vals: &Vec<ValueExpr>, rules: &Vec<Rule>) -> (out: Vec<usize>)
    requires
        old(ar).wf(),
        all_valid(old(ar), vals@),
        forall|i: int|
            0 <= i < rules.len() ==> #[trigger] crate::ir::rule_ok(
                vshapes(vals@),
                vals.len() as int,
                rules@[i].kind,
            ),
    ensures
        final(ar).wf(),
        keeps(old(ar), final(ar)),
        out.len() == rules.len(),
        forall|i: int| 0 <= i < out.len() ==> #[trigger] real_in(final(ar)@, out@[i] as int),
        forall|i: int|
            0 <= i < out.len() ==> #[trigger] tm(final(ar), out@[i]) == t_mul(
                rule_term(vts(old(ar), vals@), rules@[i].kind),
                Term::Const(rules@[i].weight),
            ),
{
    let ghost a0 = *ar;
    let ghost prev = vts(old(ar), vals@);
    proof {
        lemma_keeps_refl(ar);
    }
    let mut out: Vec<usize> = Vec::new();
    let mut i: usize = 0;
    while i < rules.len()
        invariant
            i <= rules.len(),
            out.len() == i,
            ar.wf(),
            a0.wf(),
            keeps(&a0, ar),
            all_valid(&a0, vals@),
            prev == vts(&a0, vals@),
            forall|r: int|
                0 <= r < rules.len() ==> #[trigger] crate::ir::rule_ok(
                    vshapes(vals@),
                    vals.len() as int,
                    rules@[r].kind,
                ),
            forall|r: int| 0 <= r < i ==> #[trigger] real_in(ar@, out@[r] as int),
            forall|r: int|
                0 <= r < i ==> #[trigger] tm(ar, out@[r]) == t_mul(
                    rule_term(prev, rules@[r].kind),
                    Term::Const(rules@[r].weight),
                ),
        decreases rules.len() - i,
    {
        let ghost p = *ar;
        let ghost old_out = out@;
        proof {
            lemma_keeps_values(&a0, ar, vals@);
            assert(crate::ir::rule_ok(vshapes(vals@), vals.len() as int, rules@[i as int].kind));
        }
        let e = rule_error(ar, vals, &rules[i].kind);
        let ghost q = *ar;
        let w = weighted(ar, e, rules[i].weight);
        out.push(w);
        proof {
            lemma_keeps_trans(&p, &q, ar);
            lemma_keeps_trans(&a0, &p, ar);
            assert forall|r: int| 0 <= r <= i implies #[trigger] real_in(ar@, out@[r] as int) by {
                if r < i {
                    assert(out@[r] == old_out[r]);
                    assert(real_in(p@, old_out[r] as int));
                }
            }
            assert forall|r: int| 0 <= r <= i implies #[trigger] tm(ar, out@[r]) == t_mul(
                rule_term(prev, rules@[r].kind),
                Term::Const(rules@[r].weight),
            ) by {
                if r < i {
                    assert(out@[r] == old_out[r]);
                    assert(real_in(p@, old_out[r] as int));
                    assert(tm(ar, old_out[r]) == tm(&p, old_out[r]));
                }
            }
        }
        i = i + 1;
    }
    out
}

/// The sum over the first `k` entity errors `e` of `e^s / n`.
pub open spec fn power_sum(es: Seq<Term>, s: u64, n: Term, k: int) -> Term
    decreases k,
{
    if k <= 0 {
        t_zero()
    } else {
        t_add(power_sum(es, s, n, k - 1), t_div(t_pow(es[k - 1], s), n))
    }
}

/// The aggregate error: the power mean `((1/N) sum e_i^s)^(1/s)` of the
/// entity errors, for strictness `s` (bit pattern `s`) with reciprocal bit
/// pattern `inv`.
pub open spec fn total_term(es: Seq<Term>, s: u64, inv: u64) -> Term {
    t_pow(power_sum(es, s, nat_term(es.len()), es.len() as int), inv)
}

/// The aggregate error of the entity errors `errs`.
#[verifier::rlimit(60)]
pub fn aggregate(ar: &mut Arena, errs: &Vec<usize>, s: u64, inv: u64) -> (out: usize)
    requires
        old(ar).wf(),
        forall|i: int| 0 <= i < errs.len() ==> #[trigger] real_in(old(ar)@, errs@[i] as int),
    ensures
        final(ar).wf(),
        keeps(old(ar), final(ar)),
        real_in(final(ar)@, out as int),
        tm(final(ar), out) == total_term(terms_of(old(ar), errs@), s, inv),
{
    let ghost a0 = *ar;
    let ghost es = terms_of(old(ar), errs@);
    proof {
        lemma_keeps_refl(ar);
    }
    let n = nat_node(ar, errs.len() as u64);
    let mut acc: usize = ZERO;
    let mut i: usize = 0;
    while i < errs.len()
        invariant
            i <= errs.len(),
            ar.wf(),
            keeps(&a0, ar),
            es == terms_of(&a0, errs@),
            forall|r: int| 0 <= r < errs.len() ==> #[trigger] real_in(a0@, errs@[r] as int),
            real_in(ar@, n as int),
            tm(ar, n) == nat_term(errs.len() as nat),
            real_in(ar@, acc as int),
            tm(ar, acc) == power_sum(es, s, nat_term(errs.len() as nat), i as int),
        decreases errs.len() - i,
    {
        let ghost p = *ar;
        proof {
            assert(real_in(a0@, errs@[i as int] as int));
            assert(tm(&p, errs@[i as int]) == es[i as int]);
        }
        let x = ar.pow(errs[i], s);
        let ghost q1 = *ar;
        let y = ar.div(x, n);
        let ghost q2 = *ar;
        acc = ar.add(acc, y);
        proof {
            lemma_keeps_trans(&p, &q1, &q2);
            lemma_keeps_trans(&p, &q2, ar);
            lemma_keeps_trans(&a0, &p, ar);
        }
        i = i + 1;
    }
    let ghost p = *ar;
    let out = ar.pow(acc, inv);
    proof {
        lemma_keeps_trans(&a0, &p, ar);
    }
    out
}

/// The value of every entity, over the values of the expressions.
#[verifier::rlimit(60)]
pub fn lower_entities(
    ar: &mut Arena,
    ents_k: &Vec<EntityKind>,
    adj: &Vec<ValueExpr>,
    vars: &Vec<ValueExpr>,
) -> (out: Vec<ValueExpr>)
    requires
        old(ar).wf(),
        all_valid(old(ar), vars@),
        all_valid(old(ar), adj@),
        adj_ok(ents_k@, adj@),
        forall|e: int|
            0 <= e < ents_k.len() ==> #[trigger] crate::ir::entity_ok(
                vshapes(vars@),
                vars.len() as int,
                ents_k@[e],
            ),
    ensures
        final(ar).wf(),
        keeps(old(ar), final(ar)),
        out.len() == ents_k.len(),
        all_valid(final(ar), out@),
        forall|j: int|
            0 <= j < ents_k.len() ==> #[trigger] vt(final(ar), out@[j]) == crate::lower::entity_term(
                ents_k@[j],
                vts(old(ar), adj@)[j],
                vts(old(ar), vars@),
            ),
{
    let ghost a2 = *ar;
    let ghost adj_t = vts(old(ar), adj@);
    proof {
        lemma_keeps_refl(ar);
    }
    let mut ents: Vec<ValueExpr> = Vec::new();
    let mut e: usize = 0;
    while e < ents_k.len()
        invariant
            e <= ents_k.len(),
            ents.len() == e,
            ar.wf(),
            a2.wf(),
            keeps(&a2, ar),
            all_valid(&a2, vars@),
            all_valid(&a2, adj@),
            adj_ok(ents_k@, adj@),
            forall|k: int|
                0 <= k < ents_k.len() ==> #[trigger] crate::ir::entity_ok(
                    vshapes(vars@),
                    vars.len() as int,
                    ents_k@[k],
                ),
            all_valid(ar, ents@),
            forall|j: int|
                0 <= j < e ==> #[trigger] vt(ar, ents@[j]) == crate::lower::entity_term(
                    ents_k@[j],
                    adj_t[j],
                    vts(&a2, vars@),
                ),
            adj_t == vts(&a2, adj@),
        decreases ents_k.len() - e,
    {
        let ghost p = *ar;
        let ghost old_ents = ents@;
        proof {
            lemma_keeps_values(&a2, ar, vars@);
            lemma_keeps_values(&a2, ar, adj@);
            assert(crate::ir::entity_ok(vshapes(vars@), vars.len() as int, ents_k@[e as int]));
        }
        let v = crate::lower::lower_entity(ar, ents_k, adj, vars, e);
        ents.push(v);
        proof {
            lemma_keeps_trans(&a2, &p, ar);
            assert forall|j: int| 0 <= j < ents@.len() implies #[trigger] v_valid(ar, ents@[j]) by {
                if j < e {
                    assert(ents@[j] == old_ents[j]);
                    assert(v_valid(&p, old_ents[j]));
                    crate::lower::lemma_keeps_value(&p, ar, old_ents[j]);
                }
            }
            assert forall|j: int| 0 <= j <= e implies #[trigger] vt(ar, ents@[j]) == crate::lower::entity_term(
                ents_k@[j],
                adj_t[j],
                vts(&a2, vars@),
            ) by {
                if j < e {
                    assert(ents@[j] == old_ents[j]);
                    assert(v_valid(&p, old_ents[j]));
                    crate::lower::lemma_keeps_value(&p, ar, old_ents[j]);
                }
            }
        }
        e = e + 1;
    }
    ents
}

/// The trees that the entities read: a free point reads inputs `k` and
/// `k + 1` (x, then y), every other entity input `k`, where `k` counts the
/// inputs of the entities before it.
pub open spec fn adj_terms(es: Seq<EntityKind>) -> Seq<VTerm> {
    Seq::new(es.len(), |e: int| adj_term(es[e], inputs_before(es, e)))
}

/// Each expression's tree is its kind's closed form over the earlier ones.
#[verifier::opaque]
pub open spec fn values_lowered(
    es: Seq<EntityKind>,
    adj: Seq<VTerm>,
    vt: Seq<VTerm>,
    kinds: Seq<ExpressionKind>,
) -> bool {
    &&& vt.len() == kinds.len()
    &&& forall|i: int| 0 <= i < kinds.len() ==> #[trigger] vt[i] == expr_term(es, adj, vt.take(i), kinds[i])
}

/// Each entity's tree is its value over what it reads and the expressions.
#[verifier::opaque]
pub open spec fn entities_lowered(es: Seq<EntityKind>, adj: Seq<VTerm>, vars: Seq<VTerm>, ents: Seq<VTerm>) -> bool {
    &&& ents.len() == es.len()
    &&& forall|e: int| 0 <= e < es.len() ==> #[trigger] ents[e] == crate::lower::entity_term(es[e], adj[e], vars)
}

/// Each rule's tree is its weighted error over the expressions.
#[verifier::opaque]
pub open spec fn rules_lowered(vars: Seq<VTerm>, rules: Seq<Rule>, rt: Seq<Term>) -> bool {
    &&& rt.len() == rules.len()
    &&& forall|r: int|
        0 <= r < rules.len() ==> #[trigger] rt[r] == t_mul(rule_term(vars, rules[r].kind), Term::Const(rules[r].weight))
}

/// Each of the `n` entities' error is the sum, in rule order, of the errors of
/// the rules that list it.
#[verifier::opaque]
pub open spec fn errors_summed(rt: Seq<Term>, rules: Seq<Rule>, et: Seq<Term>, n: int) -> bool {
    &&& et.len() == n
    &&& forall|e: int| 0 <= e < n ==> #[trigger] et[e] == entity_error_term(rt, rule_lists(rules), e, rules.len() as int)
}

/// Every handle is a real handle of the arena.
pub open spec fn handles_real(a: &Arena, hs: Seq<usize>) -> bool {
    forall|i: int| 0 <= i < hs.len() ==> #[trigger] real_in(a@, hs[i] as int)
}

/// Handles keep their trees in an arena that keeps trees.
pub proof fn lemma_keeps_terms(a: &Arena, b: &Arena, hs: Seq<usize>)
    requires
        keeps(a, b),
        handles_real(a, hs),
    ensures
        terms_of(b, hs) == terms_of(a, hs),
        handles_real(b, hs),
{
    assert forall|i: int| 0 <= i < hs.len() implies #[trigger] real_in(b@, hs[i] as int) by {
        assert(real_in(a@, hs[i] as int));
        assert(b@[hs[i] as int] == a@[hs[i] as int]);
    }
    assert forall|i: int| 0 <= i < hs.len() implies terms_of(b, hs)[i] == terms_of(a, hs)[i] by {
        assert(real_in(a@, hs[i] as int));
    }
    assert(terms_of(b, hs) =~= terms_of(a, hs));
}

/// The lowered script: the arena and the handles of everything the search and
/// the figure read.
pub struct Compiled {
    pub arena: Arena,
    /// The value of each expression.
    pub variables: Vec<ValueExpr>,
    /// The value of each entity.
    pub entities: Vec<ValueExpr>,
    /// The weighted error of each rule.
    pub rule_errors: Vec<usize>,
    /// The error of each entity.
    pub errors: Vec<usize>,
    /// The aggregate error.
    pub total: usize,
    /// The number of inputs.
    pub input_count: usize,
}

/// Lowers the entities and the expressions of a well-formed script.
#[verifier::rlimit(100)]
pub fn lower_script(ir: &Intermediate) -> (out: (Arena, Vec<ValueExpr>, Vec<ValueExpr>))
    requires
        intermediate_ok(*ir),
    ensures
        out.0.wf(),
        out.0.inputs() == inputs_before(ir.entities@, ir.entities.len() as int),
        out.1.len() == ir.variables.len(),
        all_valid(&out.0, out.1@),
        vshapes(out.1@) == shapes_of(ir.variables@),
        out.2.len() == ir.entities.len(),
        all_valid(&out.0, out.2@),
        values_lowered(ir.entities@, adj_terms(ir.entities@), vts(&out.0, out.1@), ir.variables@),
        entities_lowered(ir.entities@, adj_terms(ir.entities@), vts(&out.0, out.1@), vts(&out.0, out.2@)),
{
    let input_count = count_inputs(&ir.entities);
    let mut ar = Arena::new(input_count);
    let adj = adjustables(&mut ar, &ir.entities);
    let ghost a1 = ar;
    let ghost adj_t = adj_terms(ir.entities@);
    proof {
        assert(vts(&a1, adj@) =~= adj_t) by {
            assert forall|e: int| 0 <= e < ir.entities.len() implies vts(&a1, adj@)[e] == adj_t[e] by {
                assert(vt(&a1, adj@[e]) == adj_term(ir.entities@[e], inputs_before(ir.entities@, e)));
            }
        }
    }
    let vars = lower_variables(&mut ar, &ir.entities, &adj, &ir.variables);
    let ghost a2 = ar;
    proof {
        assert(values_lowered(ir.entities@, adj_t, vts(&a2, vars@), ir.variables@)) by {
            reveal(values_lowered);
        }
        lemma_keeps_values(&a1, &ar, adj@);
        assert forall|e: int| 0 <= e < ir.entities.len() implies #[trigger] crate::ir::entity_ok(
            vshapes(vars@),
            vars.len() as int,
            ir.entities@[e],
        ) by {
            assert(crate::ir::entity_ok(shapes_of(ir.variables@), ir.variables.len() as int, ir.entities@[e]));
        }
    }
    let ents = lower_entities(&mut ar, &ir.entities, &adj, &vars);
    proof {
        lemma_keeps_values(&a2, &ar, vars@);
        assert(entities_lowered(ir.entities@, adj_t, vts(&a2, vars@), vts(&ar, ents@))) by {
            reveal(entities_lowered);
            assert forall|e: int| 0 <= e < ir.entities.len() implies #[trigger] vts(&ar, ents@)[e]
                == crate::lower::entity_term(ir.entities@[e], adj_t[e], vts(&a2, vars@)) by {
                assert(vt(&ar, ents@[e]) == crate::lower::entity_term(
                    ir.entities@[e],
                    vts(&a2, adj@)[e],
                    vts(&a2, vars@),
                ));
            }
        }
    }
    (ar, vars, ents)
}

/// Lowers a well-formed script for strictness `s` (an `f64` bit pattern) whose
/// reciprocal has bit pattern `inv`: the values of the expressions and of the
/// entities, the weighted error of each rule, the error of each entity, and
/// the aggregate error over them.
#[verifier::rlimit(100)]
pub fn compile(ir: &Intermediate, s: u64, inv: u64) -> (out: Compiled)
    requires
        intermediate_ok(*ir),
    ensures
        out.arena.wf(),
        out.input_count == inputs_before(ir.entities@, ir.entities.len() as int),
        out.arena.inputs() == out.input_count,
        out.variables.len() == ir.variables.len(),
        out.entities.len() == ir.entities.len(),
        out.rule_errors.len() == ir.rules.len(),
        out.errors.len() == ir.entities.len(),
        all_valid(&out.arena, out.variables@),
        all_valid(&out.arena, out.entities@),
        handles_real(&out.arena, out.rule_errors@),
        handles_real(&out.arena, out.errors@),
        real_in(out.arena@, out.total as int),
        values_lowered(ir.entities@, adj_terms(ir.entities@), vts(&out.arena, out.variables@), ir.variables@),
        entities_lowered(
            ir.entities@,
            adj_terms(ir.entities@),
            vts(&out.arena, out.variables@),
            vts(&out.arena, out.entities@),
        ),
        rules_lowered(vts(&out.arena, out.variables@), ir.rules@, terms_of(&out.arena, out.rule_errors@)),
        errors_summed(
            terms_of(&out.arena, out.rule_errors@),
            ir.rules@,
            terms_of(&out.arena, out.errors@),
            ir.entities.len() as int,
        ),
        tm(&out.arena, out.total) == total_term(terms_of(&out.arena, out.errors@), s, inv),
{
    let input_count = count_inputs(&ir.entities);
    let (mut ar, vars, ents) = lower_script(ir);
    let ghost a = ar;
    proof {
        ar.lemma_inputs_bound();
        assert forall|i: int| 0 <= i < ir.rules.len() implies #[trigger] crate::ir::rule_ok(
            vshapes(vars@),
            vars.len() as int,
            ir.rules@[i].kind,
        ) by {
            assert(crate::ir::rule_entry_ok(shapes_of(ir.variables@), ir.variables.len() as int, ir.entities.len() as int, ir.rules@[i]));
        }
    }
    let rerrs = rule_errors(&mut ar, &vars, &ir.rules);
    let ghost b = ar;
    proof {
        assert(rules_lowered(vts(&a, vars@), ir.rules@, terms_of(&b, rerrs@))) by {
            reveal(rules_lowered);
            assert forall|r: int| 0 <= r < ir.rules.len() implies #[trigger] terms_of(&b, rerrs@)[r]
                == t_mul(rule_term(vts(&a, vars@), ir.rules@[r].kind), Term::Const(ir.rules@[r].weight)) by {
                assert(tm(&b, rerrs@[r]) == t_mul(
                    rule_term(vts(&a, vars@), ir.rules@[r].kind),
                    Term::Const(ir.rules@[r].weight),
                ));
            }
        }
        assert(handles_real(&b, rerrs@));
        assert forall|i: int, j: int|
            0 <= i < ir.rules.len() && 0 <= j < ir.rules@[i].entities.len() implies (
            #[trigger] ir.rules@[i].entities@[j]).0 < ir.entities.len() by {
            assert(crate::ir::rule_entry_ok(shapes_of(ir.variables@), ir.variables.len() as int, ir.entities.len() as int, ir.rules@[i]));
        }
    }
    let errs = entity_errors(&mut ar, &rerrs, &ir.rules, ir.entities.len());
    let ghost c = ar;
    proof {
        assert(errors_summed(terms_of(&b, rerrs@), ir.rules@, terms_of(&c, errs@), ir.entities.len() as int)) by {
            reveal(errors_summed);
            assert forall|e: int| 0 <= e < ir.entities.len() implies #[trigger] terms_of(&c, errs@)[e]
                == entity_error_term(terms_of(&b, rerrs@), rule_lists(ir.rules@), e, ir.rules.len() as int) by {
                assert(tm(&c, errs@[e]) == entity_error_term(
                    terms_of(&b, rerrs@),
                    rule_lists(ir.rules@),
                    e,
                    ir.rules.len() as int,
                ));
            }
        }
        assert(handles_real(&c, errs@));
    }
    let total = aggregate(&mut ar, &errs, s, inv);
    proof {
        lemma_keeps_trans(&b, &c, &ar);
        lemma_keeps_trans(&a, &b, &ar);
        lemma_keeps_values(&a, &ar, vars@);
        lemma_keeps_values(&a, &ar, ents@);
        lemma_keeps_terms(&b, &ar, rerrs@);
        lemma_keeps_terms(&c, &ar, errs@);
    }
    Compiled { arena: ar, variables: vars, entities: ents, rule_errors: rerrs, errors: errs, total, input_count }
}

/// Two rules with the same kind and the same weight get one error handle.
pub proof fn lemma_identical_rules_share_handle(c: &Compiled, ir: &Intermediate, i: int, j: int)
    requires
        c.arena.wf(),
        c.rule_errors.len() == ir.rules.len(),
        handles_real(&c.arena, c.rule_errors@),
        rules_lowered(vts(&c.arena, c.variables@), ir.rules@, terms_of(&c.arena, c.rule_errors@)),
        0 <= i < ir.rules.len(),
        0 <= j < ir.rules.len(),
        ir.rules@[i].kind == ir.rules@[j].kind,
        ir.rules@[i].weight == ir.rules@[j].weight,
    ensures
        c.rule_errors@[i] == c.rule_errors@[j],
{
    reveal(rules_lowered);
    let rt = terms_of(&c.arena, c.rule_errors@);
    assert(rt[i] == rt[j]);
    assert(real_in(c.arena@, c.rule_errors@[i] as int));
    assert(real_in(c.arena@, c.rule_errors@[j] as int));
    crate::term::lemma_term_injective(&c.arena, c.rule_errors@[i] as int, c.rule_errors@[j] as int);
}

} // verus!
