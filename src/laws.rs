//! Properties that hold of every input, proved over the models that the
//! computing functions' contracts speak of.
use vstd::prelude::*;

use crate::class::{
    atfd_count, atfd_count_seq, class_model, cohesive, cohesive_pairs, cohesive_with, considered, considered_count,
    cyclomatic_sum, fields_of, god_rule, is_type_declaration, members, method_pairs, methods_of,
    nested_of, ClassModel,
};
use crate::count::saturate;
use crate::method::{
    branch_points, branch_points_seq, field_text, is_conditional, is_short_circuit,
    is_single_branch, method_model, MethodModel,
};
use crate::metrics::{god_lines, locations};
use crate::syntax::{Cst, SyntaxNode};

verus! {

/// `t` and its descendants hold no branch, loop, switch label other than
/// `default`, catch clause, throw, assert, ternary or short-circuit operator.
pub open spec fn decision_free(t: Cst) -> bool
    decreases t, 1nat,
{
    &&& !is_conditional(t.kind)
    &&& !is_single_branch(t.kind)
    &&& !(t.kind == "switch_label"@ && t.text != "default"@)
    &&& t.kind != "assert_statement"@
    &&& !is_short_circuit(t.kind)
    &&& decision_free_seq(t.children)
}

pub open spec fn decision_free_seq(cs: Seq<Cst>) -> bool
    decreases cs, 0nat,
{
    cs.len() == 0 || (decision_free_seq(cs.drop_last()) && decision_free(cs.last()))
}

proof fn lemma_no_branch_points(t: Cst)
    requires
        decision_free(t),
    ensures
        branch_points(t) == 0,
    decreases t, 1nat,
{
    lemma_no_branch_points_seq(t.children);
}

proof fn lemma_no_branch_points_seq(cs: Seq<Cst>)
    requires
        decision_free_seq(cs),
    ensures
        branch_points_seq(cs) == 0,
    decreases cs, 0nat,
{
    if cs.len() > 0 {
        lemma_no_branch_points_seq(cs.drop_last());
        lemma_no_branch_points(cs.last());
    }
}

/// A method without any decision point has cyclomatic complexity 1.
pub proof fn lemma_straight_line_method(t: Cst)
    requires
        decision_free(t),
    ensures
        method_model(t).cyclomatic == 1,
{
    lemma_no_branch_points(t);
}

/// The weighted method count is the sum of the complexities of the methods
/// declared directly in the type, exactly wherever that sum fits in `usize`.
pub proof fn lemma_wmc_is_sum(t: Cst, is_class: bool)
    ensures
        class_model(t, is_class).wmc == saturate(cyclomatic_sum(class_model(t, is_class).methods)),
        class_model(t, is_class).methods == methods_of(members(t, is_class)),
        cyclomatic_sum(class_model(t, is_class).methods) <= usize::MAX ==> class_model(
            t,
            is_class,
        ).wmc == cyclomatic_sum(class_model(t, is_class).methods),
{
}

proof fn lemma_considered_count_bound(ms: Seq<MethodModel>, cn: Seq<char>)
    ensures
        considered_count(ms, cn) <= ms.len(),
    decreases ms.len(),
{
    if ms.len() > 0 {
        lemma_considered_count_bound(ms.drop_last(), cn);
    }
}

/// With no more than one method there is no pair to compare: both counts of
/// the cohesion ratio are 0, and so is the cohesion.
pub proof fn lemma_tcc_of_small_class(ms: Seq<MethodModel>, fields: Set<Seq<char>>, cn: Seq<char>)
    requires
        ms.len() <= 1,
    ensures
        cohesive_pairs(ms, fields, cn) == 0,
        method_pairs(ms, cn) == 0,
{
    lemma_considered_count_bound(ms, cn);
    let k = considered_count(ms, cn);
    assert(k * (k - 1) == 0) by (nonlinear_arith)
        requires
            k <= 1,
    ;
    if ms.len() == 1 {
        assert(ms.drop_last().len() == 0);
        assert(cohesive_pairs(ms.drop_last(), fields, cn) == 0);
        assert(cohesive_with(ms.last(), ms.drop_last(), fields, cn) == 0);
    }
}

proof fn lemma_all_cohesive_with(
    m: MethodModel,
    prev: Seq<MethodModel>,
    fields: Set<Seq<char>>,
    cn: Seq<char>,
)
    requires
        forall|j: int| 0 <= j < prev.len() ==> cohesive(m, #[trigger] prev[j], fields),
    ensures
        cohesive_with(m, prev, fields, cn) == considered_count(prev, cn),
    decreases prev.len(),
{
    if prev.len() > 0 {
        assert(cohesive(m, prev[prev.len() - 1], fields));
        lemma_all_cohesive_with(m, prev.drop_last(), fields, cn);
    }
}

proof fn lemma_all_cohesive_pairs(ms: Seq<MethodModel>, fields: Set<Seq<char>>, cn: Seq<char>)
    requires
        forall|i: int, j: int|
            0 <= i < ms.len() && 0 <= j < ms.len() && i != j ==> cohesive(
                #[trigger] ms[i],
                #[trigger] ms[j],
                fields,
            ),
    ensures
        cohesive_pairs(ms, fields, cn) == method_pairs(ms, cn),
    decreases ms.len(),
{
    if ms.len() > 0 {
        let prev = ms.drop_last();
        let m = ms.last();
        assert forall|j: int| 0 <= j < prev.len() implies cohesive(m, #[trigger] prev[j], fields) by {
            assert(prev[j] == ms[j]);
            assert(m == ms[ms.len() - 1]);
        }
        assert forall|i: int, j: int|
            0 <= i < prev.len() && 0 <= j < prev.len() && i != j implies cohesive(
                #[trigger] prev[i],
                #[trigger] prev[j],
                fields,
            ) by {
            assert(prev[i] == ms[i] && prev[j] == ms[j]);
        }
        lemma_all_cohesive_pairs(prev, fields, cn);
        lemma_all_cohesive_with(m, prev, fields, cn);
        let k = considered_count(prev, cn);
        if considered(m, cn) {
            assert((k + 1) * k / 2 == k * (k - 1) / 2 + k) by (nonlinear_arith);
        }
    }
}

proof fn lemma_cohesive_with_bound(m: MethodModel, prev: Seq<MethodModel>, fields: Set<Seq<char>>, cn: Seq<char>)
    ensures
        cohesive_with(m, prev, fields, cn) <= considered_count(prev, cn),
    decreases prev.len(),
{
    if prev.len() > 0 {
        lemma_cohesive_with_bound(m, prev.drop_last(), fields, cn);
    }
}

/// Cohesion lies between 0 and 1: no more pairs are cohesive than there are
/// pairs.
pub proof fn lemma_tcc_at_most_one(ms: Seq<MethodModel>, fields: Set<Seq<char>>, cn: Seq<char>)
    ensures
        cohesive_pairs(ms, fields, cn) <= method_pairs(ms, cn),
    decreases ms.len(),
{
    if ms.len() > 0 {
        let prev = ms.drop_last();
        lemma_tcc_at_most_one(prev, fields, cn);
        lemma_cohesive_with_bound(ms.last(), prev, fields, cn);
        let k = considered_count(prev, cn);
        assert((k + 1) * k / 2 == k * (k - 1) / 2 + k) by (nonlinear_arith);
    }
}

/// Where at least two methods take part in the cohesion count and every two
/// methods use a common field of the class, every pair is cohesive: the
/// cohesion is 1.
pub proof fn lemma_tcc_of_cohesive_class(ms: Seq<MethodModel>, fields: Set<Seq<char>>, cn: Seq<char>)
    requires
        considered_count(ms, cn) >= 2,
        forall|i: int, j: int|
            0 <= i < ms.len() && 0 <= j < ms.len() && i != j ==> cohesive(
                #[trigger] ms[i],
                #[trigger] ms[j],
                fields,
            ),
    ensures
        method_pairs(ms, cn) > 0,
        cohesive_pairs(ms, fields, cn) == method_pairs(ms, cn),
{
    lemma_all_cohesive_pairs(ms, fields, cn);
    let k = considered_count(ms, cn);
    assert(k * (k - 1) / 2 > 0) by (nonlinear_arith)
        requires
            k >= 2,
    ;
}

/// A God Class has more than 5 foreign data accesses, a weighted method count
/// of at least 47 and a cohesion below 1/3; an ATFD of 5, a WMC of 46 or a
/// cohesion of exactly 1/3 each rule it out.
pub proof fn lemma_god_class_thresholds(atfd: nat, wmc: nat, cohesive_pairs: nat, method_pairs: nat)
    ensures
        god_rule(atfd, wmc, cohesive_pairs, method_pairs) <==> (atfd > 5 && wmc >= 47 && (
        method_pairs == 0 || 3 * cohesive_pairs < method_pairs)),
        atfd == 5 ==> !god_rule(atfd, wmc, cohesive_pairs, method_pairs),
        wmc == 46 ==> !god_rule(atfd, wmc, cohesive_pairs, method_pairs),
        method_pairs > 0 && 3 * cohesive_pairs == method_pairs ==> !god_rule(
            atfd,
            wmc,
            cohesive_pairs,
            method_pairs,
        ),
{
}

/// Whether `c` is not a nested type declaration.
pub open spec fn is_plain_member(c: Cst) -> bool {
    !is_type_declaration(c.kind)
}

proof fn lemma_members_without_types(cs: Seq<Cst>)
    ensures
        fields_of(cs) == fields_of(cs.filter(|c: Cst| is_plain_member(c))),
        methods_of(cs) == methods_of(cs.filter(|c: Cst| is_plain_member(c))),
    decreases cs.len(),
{
    reveal(Seq::filter);
    if cs.len() > 0 {
        let p = |c: Cst| is_plain_member(c);
        let rest = cs.drop_last().filter(p);
        lemma_members_without_types(cs.drop_last());
        crate::class::lemma_member_kinds_distinct();
        if p(cs.last()) {
            assert(rest.push(cs.last()).drop_last() =~= rest);
        } else {
            assert(fields_of(cs) =~= fields_of(cs.drop_last()));
            assert(methods_of(cs) =~= methods_of(cs.drop_last()));
        }
    }
}

/// Nested types do not count towards the type that declares them: two types
/// with the same name whose members agree once nested classes and enums are set
/// aside have the same fields, methods, weighted method count and cohesion,
/// and, with the same count of foreign data accesses, the same verdict.
pub proof fn lemma_nested_types_do_not_count(a: Cst, a_is_class: bool, b: Cst, b_is_class: bool)
    requires
        field_text(a, "name"@) == field_text(b, "name"@),
        members(a, a_is_class).filter(|c: Cst| is_plain_member(c)) == members(b, b_is_class).filter(
            |c: Cst| is_plain_member(c),
        ),
    ensures
        class_model(a, a_is_class).fields == class_model(b, b_is_class).fields,
        class_model(a, a_is_class).methods == class_model(b, b_is_class).methods,
        class_model(a, a_is_class).wmc == class_model(b, b_is_class).wmc,
        class_model(a, a_is_class).cohesive_pairs == class_model(b, b_is_class).cohesive_pairs,
        class_model(a, a_is_class).method_pairs == class_model(b, b_is_class).method_pairs,
        class_model(a, a_is_class).atfd == class_model(b, b_is_class).atfd ==> class_model(
            a,
            a_is_class,
        ).is_god == class_model(b, b_is_class).is_god,
{
    lemma_members_without_types(members(a, a_is_class));
    lemma_members_without_types(members(b, b_is_class));
}

/// `t` holds no field access and no method call.
pub open spec fn access_free(t: Cst) -> bool
    decreases t, 1nat,
{
    &&& t.kind != "field_access"@
    &&& t.kind != "method_invocation"@
    &&& access_free_seq(t.children)
}

pub open spec fn access_free_seq(cs: Seq<Cst>) -> bool
    decreases cs, 0nat,
{
    cs.len() == 0 || (access_free_seq(cs.drop_last()) && access_free(cs.last()))
}

/// `b` is `a` with subtrees free of accesses inserted among the children of
/// nodes that are not accesses themselves, at any depth.
pub open spec fn grows_quietly(a: Cst, b: Cst) -> bool
    decreases b, 1nat,
{
    ||| a == b
    ||| {
        &&& a.kind == b.kind
        &&& a.kind != "field_access"@
        &&& a.kind != "method_invocation"@
        &&& grows_quietly_seq(a.children, b.children)
    }
}

pub open spec fn grows_quietly_seq(a: Seq<Cst>, b: Seq<Cst>) -> bool
    decreases b, 0nat,
{
    if b.len() == 0 {
        a.len() == 0
    } else {
        ||| access_free(b.last()) && grows_quietly_seq(a, b.drop_last())
        ||| a.len() > 0 && grows_quietly(a.last(), b.last()) && grows_quietly_seq(
            a.drop_last(),
            b.drop_last(),
        )
    }
}

proof fn lemma_access_free_atfd(t: Cst, fields: Set<Seq<char>>)
    requires
        access_free(t),
    ensures
        atfd_count(t, fields) == 0,
    decreases t, 1nat,
{
    lemma_access_free_atfd_seq(t.children, fields);
}

proof fn lemma_access_free_atfd_seq(cs: Seq<Cst>, fields: Set<Seq<char>>)
    requires
        access_free_seq(cs),
    ensures
        atfd_count_seq(cs, fields) == 0,
    decreases cs, 0nat,
{
    if cs.len() > 0 {
        lemma_access_free_atfd_seq(cs.drop_last(), fields);
        lemma_access_free_atfd(cs.last(), fields);
    }
}

proof fn lemma_grows_quietly_atfd(a: Cst, b: Cst, fields: Set<Seq<char>>)
    requires
        grows_quietly(a, b),
    ensures
        atfd_count(a, fields) == atfd_count(b, fields),
    decreases b, 1nat,
{
    if a != b {
        lemma_grows_quietly_atfd_seq(a.children, b.children, fields);
    }
}

proof fn lemma_grows_quietly_atfd_seq(a: Seq<Cst>, b: Seq<Cst>, fields: Set<Seq<char>>)
    requires
        grows_quietly_seq(a, b),
    ensures
        atfd_count_seq(a, fields) == atfd_count_seq(b, fields),
    decreases b, 0nat,
{
    if b.len() > 0 {
        if access_free(b.last()) && grows_quietly_seq(a, b.drop_last()) {
            lemma_grows_quietly_atfd_seq(a, b.drop_last(), fields);
            lemma_access_free_atfd(b.last(), fields);
        } else {
            lemma_grows_quietly_atfd_seq(a.drop_last(), b.drop_last(), fields);
            lemma_grows_quietly_atfd(a.last(), b.last(), fields);
        }
    }
}

/// Adding fields, or methods without field accesses and method calls, to types
/// nested in a class leaves the class's own metrics and verdict unchanged: its
/// fields, methods, foreign data accesses, weighted method count, cohesion and
/// God Class verdict.
pub proof fn lemma_quiet_nested_growth(a: Cst, b: Cst, is_class: bool)
    requires
        field_text(a, "name"@) == field_text(b, "name"@),
        members(a, is_class).filter(|c: Cst| is_plain_member(c)) == members(b, is_class).filter(
            |c: Cst| is_plain_member(c),
        ),
        grows_quietly(a, b),
    ensures
        class_model(a, is_class).fields == class_model(b, is_class).fields,
        class_model(a, is_class).methods == class_model(b, is_class).methods,
        class_model(a, is_class).atfd == class_model(b, is_class).atfd,
        class_model(a, is_class).wmc == class_model(b, is_class).wmc,
        class_model(a, is_class).cohesive_pairs == class_model(b, is_class).cohesive_pairs,
        class_model(a, is_class).method_pairs == class_model(b, is_class).method_pairs,
        class_model(a, is_class).is_god == class_model(b, is_class).is_god,
{
    lemma_nested_types_do_not_count(a, is_class, b, is_class);
    lemma_grows_quietly_atfd(a, b, class_model(a, is_class).fields.to_set());
}

/// `c` is the metrics of one of the type declarations among `ms`, measured on
/// that declaration alone.
pub open spec fn measured_alone(ms: Seq<Cst>, c: ClassModel) -> bool {
    exists|j: int|
        0 <= j < ms.len() && is_type_declaration(#[trigger] ms[j].kind) && c == class_model(
            ms[j],
            ms[j].kind == "class_declaration"@,
        )
}

/// Each nested type is measured on its own declaration alone: its metrics are
/// those of a member declaration of the enclosing body, whatever surrounds it.
pub proof fn lemma_nested_measured_alone(ms: Seq<Cst>)
    ensures
        forall|i: int| 0 <= i < nested_of(ms).len() ==> measured_alone(ms, #[trigger] nested_of(ms)[i]),
    decreases ms.len(),
{
    if ms.len() > 0 {
        let prev = ms.drop_last();
        let last = ms.last();
        lemma_nested_measured_alone(prev);
        let tail = if is_type_declaration(last.kind) {
            seq![class_model(last, last.kind == "class_declaration"@)]
        } else {
            Seq::empty()
        };
        assert(nested_of(ms) == nested_of(prev) + tail);
        assert forall|i: int| 0 <= i < nested_of(ms).len() implies measured_alone(
            ms,
            #[trigger] nested_of(ms)[i],
        ) by {
            if i < nested_of(prev).len() {
                assert(nested_of(ms)[i] == nested_of(prev)[i]);
                assert(measured_alone(prev, nested_of(prev)[i]));
                let j = choose|j: int|
                    0 <= j < prev.len() && is_type_declaration(#[trigger] prev[j].kind)
                        && nested_of(prev)[i] == class_model(prev[j], prev[j].kind == "class_declaration"@);
                assert(ms[j] == prev[j]);
            } else {
                assert(nested_of(ms)[i] == tail[0]);
                assert(ms[ms.len() - 1] == last);
            }
        }
    }
}

/// Analysing two syntax trees with the same content gives the same metrics
/// and the same report: nothing but the tree decides them.
pub proof fn lemma_analysis_deterministic(a: SyntaxNode, b: SyntaxNode, path: Seq<char>)
    requires
        a.tree() == b.tree(),
    ensures
        nested_of(a.tree().children) == nested_of(b.tree().children),
        locations(path, god_lines(nested_of(a.tree().children))) == locations(
            path,
            god_lines(nested_of(b.tree().children)),
        ),
{
}

} // verus!
