use vstd::prelude::*;

use crate::count::{distinct_texts, insert_text, lemma_saturate_add, saturate, text_set};
use crate::syntax::{field_index, Cst, SyntaxNode};

verus! {

/// What is measured of one method or constructor.
pub struct MethodModel {
    pub name: Seq<char>,
    pub cyclomatic: nat,
    pub usage: Set<Seq<char>>,
}

/// Kinds whose controlling condition adds its short-circuit operators.
pub open spec fn is_conditional(k: Seq<char>) -> bool {
    ||| k == "if_statement"@
    ||| k == "while_statement"@
    ||| k == "do_statement"@
    ||| k == "for_statement"@
    ||| k == "ternary_expression"@
}

/// Kinds that add one path each.
pub open spec fn is_single_branch(k: Seq<char>) -> bool {
    ||| k == "enhanced_for_statement"@
    ||| k == "catch_clause"@
    ||| k == "throw_statement"@
}

/// Kinds where the walk for complexity stops: lambdas and the bodies of nested
/// types, which are not part of the enclosing method's paths.
pub open spec fn is_boundary(k: Seq<char>) -> bool {
    ||| k == "lambda_expression"@
    ||| k == "class_body"@
    ||| k == "enum_body"@
    ||| k == "interface_body"@
}

pub open spec fn is_short_circuit(k: Seq<char>) -> bool {
    k == "&&"@ || k == "||"@
}

/// The text of the child of `t` in the role `f`, or the empty text.
pub open spec fn field_text(t: Cst, f: Seq<char>) -> Seq<char> {
    let k = field_index(t, f);
    if 0 <= k < t.children.len() {
        t.children[k].text
    } else {
        Seq::empty()
    }
}

/// The number of `&&` and `||` tokens in `t`, `t` included.
pub open spec fn short_circuit_ops(t: Cst) -> nat
    decreases t, 1nat,
{
    (if is_short_circuit(t.kind) { 1nat } else { 0nat }) + short_circuit_ops_seq(t.children)
}

pub open spec fn short_circuit_ops_seq(cs: Seq<Cst>) -> nat
    decreases cs, 0nat,
{
    if cs.len() == 0 {
        0
    } else {
        short_circuit_ops_seq(cs.drop_last()) + short_circuit_ops(cs.last())
    }
}

/// The short-circuit operators in the `condition` child of `t`, where it has one.
pub open spec fn condition_ops(t: Cst) -> nat {
    let k = field_index(t, "condition"@);
    if 0 <= k < t.children.len() {
        short_circuit_ops(t.children[k])
    } else {
        0
    }
}

/// The paths that the node `t` adds by itself.
pub open spec fn own_points(t: Cst) -> nat {
    if is_conditional(t.kind) {
        1 + condition_ops(t)
    } else if is_single_branch(t.kind) {
        1
    } else if t.kind == "switch_label"@ && t.text != "default"@ {
        1
    } else if t.kind == "assert_statement"@ {
        2
    } else {
        0
    }
}

/// The decision points of `t` and its descendants, up to lambdas and nested
/// type bodies.
pub open spec fn branch_points(t: Cst) -> nat
    decreases t, 1nat,
{
    if is_boundary(t.kind) {
        0
    } else {
        own_points(t) + branch_points_seq(t.children)
    }
}

pub open spec fn branch_points_seq(cs: Seq<Cst>) -> nat
    decreases cs, 0nat,
{
    if cs.len() == 0 {
        0
    } else {
        branch_points_seq(cs.drop_last()) + branch_points(cs.last())
    }
}

/// The identifiers of `t` by itself: its own text for an identifier, the field
/// name for a qualified field access.
pub open spec fn own_usage(t: Cst) -> Set<Seq<char>> {
    if t.kind == "identifier"@ {
        set![t.text]
    } else if t.kind == "field_access"@ && 0 <= field_index(t, "field"@) < t.children.len() {
        set![field_text(t, "field"@)]
    } else {
        Set::empty()
    }
}

/// Every identifier and accessed field name in `t`, lambdas and nested types
/// included.
pub open spec fn usage(t: Cst) -> Set<Seq<char>>
    decreases t, 1nat,
{
    own_usage(t).union(usage_seq(t.children))
}

pub open spec fn usage_seq(cs: Seq<Cst>) -> Set<Seq<char>>
    decreases cs, 0nat,
{
    if cs.len() == 0 {
        Set::empty()
    } else {
        usage_seq(cs.drop_last()).union(usage(cs.last()))
    }
}

/// The metrics of the method or constructor declared by `t`.
pub open spec fn method_model(t: Cst) -> MethodModel {
    MethodModel {
        name: field_text(t, "name"@),
        cyclomatic: saturate(1 + branch_points(t)),
        usage: usage(t),
    }
}

/// Metrics of one method or constructor.
pub struct MetricsMethod {
    pub name: String,
    /// Cyclomatic complexity, saturating at `usize::MAX`.
    pub cyclomatic: usize,
    /// Every identifier the body names, without repetition.
    pub usage_field_list: Vec<String>,
}

impl View for MetricsMethod {
    type V = MethodModel;

    open spec fn view(&self) -> MethodModel {
        MethodModel {
            name: self.name@,
            cyclomatic: self.cyclomatic as nat,
            usage: text_set(self.usage_field_list@),
        }
    }
}

impl MetricsMethod {
    pub open spec fn wf(&self) -> bool {
        distinct_texts(self.usage_field_list@)
    }

    /// Metrics before any node is read: no name, complexity 1, no usage.
    pub fn new() -> (r: Self)
        ensures
            r.wf(),
            r@ == (MethodModel { name: Seq::empty(), cyclomatic: 1, usage: Set::empty() }),
    {
        let r = MetricsMethod { name: String::new(), cyclomatic: 1, usage_field_list: Vec::new() };
        assert(text_set(r.usage_field_list@) =~= Set::empty());
        r
    }

    /// Reads the method declared by `node`: its name, the paths through its body
    /// (added to the count held so far) and the identifiers it names (added to
    /// those held so far).
    pub fn compute(&mut self, node: &SyntaxNode)
        requires
            old(self).wf(),
        ensures
            final(self).wf(),
            final(self)@.name == (if 0 <= field_index(node.tree(), "name"@) { field_text(
                node.tree(),
                "name"@,
            ) } else { old(self)@.name }),
            final(self)@.cyclomatic == saturate(old(self)@.cyclomatic + branch_points(node.tree())),
            final(self)@.usage == old(self)@.usage.union(usage(node.tree())),
    {
        proof {
            SyntaxNode::lemma_trees(node.children@);
        }
        if let Some(k) = node.field_child_index("name") {
            self.name = node.children[k].text.clone();
        }
        self.compute_cyclomatic(node);
        self.compute_usage_field(node);
    }

    /// Adds the decision points of `node` and its descendants, up to lambdas and
    /// nested type bodies.
    pub fn compute_cyclomatic(&mut self, node: &SyntaxNode)
        ensures
            final(self).name == old(self).name,
            final(self).usage_field_list == old(self).usage_field_list,
            final(self)@.cyclomatic == saturate(old(self)@.cyclomatic + branch_points(node.tree())),
        decreases node,
    {
        let ghost t = node.tree();
        proof {
            SyntaxNode::lemma_trees(node.children@);
        }
        if node.is_kind("lambda_expression") || node.is_kind("class_body") || node.is_kind(
            "enum_body",
        ) || node.is_kind("interface_body") {
            return;
        }
        let ghost start = self.cyclomatic as nat;
        if node.is_kind("if_statement") || node.is_kind("while_statement") || node.is_kind(
            "do_statement",
        ) || node.is_kind("for_statement") || node.is_kind("ternary_expression") {
            self.cyclomatic = self.cyclomatic.saturating_add(1);
            if let Some(k) = node.field_child_index("condition") {
                self.compute_condition_complexity(&node.children[k]);
            }
            proof {
                lemma_saturate_add(start + 1, condition_ops(t));
            }
        } else if node.is_kind("enhanced_for_statement") || node.is_kind("catch_clause")
            || node.is_kind("throw_statement") {
            self.cyclomatic = self.cyclomatic.saturating_add(1);
        } else if node.is_kind("switch_label") && !crate::syntax::text_eq(
            node.text.as_str(),
            "default",
        ) {
            self.cyclomatic = self.cyclomatic.saturating_add(1);
        } else if node.is_kind("assert_statement") {
            self.cyclomatic = self.cyclomatic.saturating_add(2);
        }
        assert(self@.cyclomatic == saturate(start + own_points(t)));
        let ghost mid = start + own_points(t);
        let mut i: usize = 0;
        while i < node.children.len()
            invariant
                i <= node.children.len(),
                t == node.tree(),
                t.children.len() == node.children.len(),
                forall|j: int| 0 <= j < node.children.len() ==> t.children[j] == node.children@[j].tree(),
                self.name == old(self).name,
                self.usage_field_list == old(self).usage_field_list,
                self@.cyclomatic == saturate(mid + branch_points_seq(t.children.subrange(0, i as int))),
            decreases node.children.len() - i,
        {
            let ghost before = branch_points_seq(t.children.subrange(0, i as int));
            self.compute_cyclomatic(&node.children[i]);
            proof {
                lemma_saturate_add(mid + before, branch_points(t.children[i as int]));
                assert(t.children.subrange(0, i + 1).drop_last() =~= t.children.subrange(0, i as int));
            }
            i += 1;
        }
        assert(t.children.subrange(0, node.children.len() as int) =~= t.children);
    }

    /// Adds the `&&` and `||` tokens of `node` and its descendants.
    pub fn compute_condition_complexity(&mut self, node: &SyntaxNode)
        ensures
            final(self).name == old(self).name,
            final(self).usage_field_list == old(self).usage_field_list,
            final(self)@.cyclomatic == saturate(old(self)@.cyclomatic + short_circuit_ops(node.tree())),
        decreases node,
    {
        let ghost t = node.tree();
        proof {
            SyntaxNode::lemma_trees(node.children@);
        }
        let ghost start = self.cyclomatic as nat;
        if node.is_kind("&&") || node.is_kind("||") {
            self.cyclomatic = self.cyclomatic.saturating_add(1);
        }
        let ghost mid = start + (if is_short_circuit(t.kind) { 1nat } else { 0nat });
        let mut i: usize = 0;
        while i < node.children.len()
            invariant
                i <= node.children.len(),
                t == node.tree(),
                t.children.len() == node.children.len(),
                forall|j: int| 0 <= j < node.children.len() ==> t.children[j] == node.children@[j].tree(),
                self.name == old(self).name,
                self.usage_field_list == old(self).usage_field_list,
                self@.cyclomatic == saturate(mid + short_circuit_ops_seq(t.children.subrange(0, i as int))),
            decreases node.children.len() - i,
        {
            let ghost before = short_circuit_ops_seq(t.children.subrange(0, i as int));
            self.compute_condition_complexity(&node.children[i]);
            proof {
                lemma_saturate_add(mid + before, short_circuit_ops(t.children[i as int]));
                assert(t.children.subrange(0, i + 1).drop_last() =~= t.children.subrange(0, i as int));
            }
            i += 1;
        }
        assert(t.children.subrange(0, node.children.len() as int) =~= t.children);
    }

    /// Adds every identifier of `node` and its descendants, and the field name
    /// of every qualified field access among them.
    pub fn compute_usage_field(&mut self, node: &SyntaxNode)
        requires
            old(self).wf(),
        ensures
            final(self).wf(),
            final(self).name == old(self).name,
            final(self).cyclomatic == old(self).cyclomatic,
            final(self)@.usage == old(self)@.usage.union(usage(node.tree())),
        decreases node,
    {
        let ghost t = node.tree();
        proof {
            SyntaxNode::lemma_trees(node.children@);
        }
        let ghost start = self@.usage;
        if node.is_kind("identifier") {
            insert_text(&mut self.usage_field_list, node.text.clone());
        } else if node.is_kind("field_access") {
            if let Some(k) = node.field_child_index("field") {
                insert_text(&mut self.usage_field_list, node.children[k].text.clone());
            }
        }
        assert(self@.usage =~= start.union(own_usage(t)));
        let mut i: usize = 0;
        while i < node.children.len()
            invariant
                i <= node.children.len(),
                t == node.tree(),
                t.children.len() == node.children.len(),
                forall|j: int| 0 <= j < node.children.len() ==> t.children[j] == node.children@[j].tree(),
                self.wf(),
                self.name == old(self).name,
                self.cyclomatic == old(self).cyclomatic,
                self@.usage == start.union(own_usage(t)).union(usage_seq(t.children.subrange(0, i as int))),
            decreases node.children.len() - i,
        {
            self.compute_usage_field(&node.children[i]);
            proof {
                assert(t.children.subrange(0, i + 1).drop_last() =~= t.children.subrange(0, i as int));
                assert(self@.usage =~= start.union(own_usage(t)).union(usage_seq(t.children.subrange(0, i + 1))));
            }
            i += 1;
        }
        assert(t.children.subrange(0, node.children.len() as int) =~= t.children);
        assert(self@.usage =~= start.union(usage(t)));
    }
}

} // verus!
