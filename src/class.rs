use vstd::prelude::*;

use crate::count::{contains_text, lemma_saturate_add, lemma_text_set, saturate, texts};
use crate::method::{field_text, method_model, usage, MethodModel, MetricsMethod};
use crate::syntax::{field_index, kind_index_from, lemma_field_index_from, Cst, SyntaxNode};

verus! {

/// A class is a God Class only with more foreign data accesses than this.
pub const ATFD_MIN: usize = 5;

/// A class is a God Class only with at least this weighted method count.
pub const WMC_MIN: usize = 47;

/// A class is a God Class only with a cohesion below
/// `TCC_MAX_NUMERATOR / TCC_MAX_DENOMINATOR`.
pub const TCC_MAX_NUMERATOR: u128 = 1;

pub const TCC_MAX_DENOMINATOR: u128 = 3;

/// What is measured of one class or enum declaration.
pub struct ClassModel {
    pub name: Seq<char>,
    pub is_class: bool,
    pub line: nat,
    /// The fields declared directly in the body, in source order.
    pub fields: Seq<Seq<char>>,
    /// The types declared directly in the body, in source order.
    pub nested: Seq<ClassModel>,
    /// The methods and constructors declared directly in the body, in source order.
    pub methods: Seq<MethodModel>,
    pub atfd: nat,
    pub wmc: nat,
    /// Tight class cohesion is `cohesive_pairs / method_pairs`, and 0 when
    /// there are no pairs.
    pub cohesive_pairs: nat,
    pub method_pairs: nat,
    pub is_god: bool,
}

/// The 1-based line of the `name` child of `t`, or 0 where it has none.
pub open spec fn name_line(t: Cst) -> nat {
    let k = field_index(t, "name"@);
    if 0 <= k < t.children.len() {
        t.children[k].line
    } else {
        0
    }
}

pub open spec fn is_type_declaration(k: Seq<char>) -> bool {
    k == "class_declaration"@ || k == "enum_declaration"@
}

pub open spec fn is_method_declaration(k: Seq<char>) -> bool {
    k == "constructor_declaration"@ || k == "method_declaration"@
}

/// The member declarations of a type: the children of a class body, or of the
/// section of an enum body that follows its constants.
pub open spec fn members(t: Cst, is_class: bool) -> Seq<Cst> {
    let b = field_index(t, "body"@);
    if 0 <= b < t.children.len() {
        if is_class {
            t.children[b].children
        } else {
            let e = kind_index_from(t.children[b].children, "enum_body_declarations"@, 0);
            if 0 <= e < t.children[b].children.len() {
                t.children[b].children[e].children
            } else {
                Seq::empty()
            }
        }
    } else {
        Seq::empty()
    }
}

/// The names bound by the declarators among `cs`.
pub open spec fn declarator_names(cs: Seq<Cst>) -> Seq<Seq<char>>
    decreases cs.len(),
{
    if cs.len() == 0 {
        Seq::empty()
    } else {
        let d = cs.last();
        declarator_names(cs.drop_last()) + if d.field == Some("declarator"@) && 0 <= field_index(
            d,
            "name"@,
        ) < d.children.len() {
            seq![field_text(d, "name"@)]
        } else {
            Seq::empty()
        }
    }
}

/// The field names declared by the field declarations among `cs`.
pub open spec fn fields_of(cs: Seq<Cst>) -> Seq<Seq<char>>
    decreases cs.len(),
{
    if cs.len() == 0 {
        Seq::empty()
    } else {
        fields_of(cs.drop_last()) + if cs.last().kind == "field_declaration"@ {
            declarator_names(cs.last().children)
        } else {
            Seq::empty()
        }
    }
}

/// The metrics of the methods and constructors among `cs`.
pub open spec fn methods_of(cs: Seq<Cst>) -> Seq<MethodModel>
    decreases cs.len(),
{
    if cs.len() == 0 {
        Seq::empty()
    } else {
        methods_of(cs.drop_last()) + if is_method_declaration(cs.last().kind) {
            seq![method_model(cs.last())]
        } else {
            Seq::empty()
        }
    }
}

/// The metrics of the classes and enums among `cs`.
pub open spec fn nested_of(cs: Seq<Cst>) -> Seq<ClassModel>
    decreases cs, 0nat,
{
    if cs.len() == 0 {
        Seq::empty()
    } else {
        nested_of(cs.drop_last()) + if is_type_declaration(cs.last().kind) {
            seq![class_model(cs.last(), cs.last().kind == "class_declaration"@)]
        } else {
            Seq::empty()
        }
    }
}

/// The metrics of the class (`is_class`) or enum declared by `t`.
pub open spec fn class_model(t: Cst, is_class: bool) -> ClassModel
    decreases t, 1nat,
{
    let ms = members(t, is_class);
    let name = field_text(t, "name"@);
    let fields = fields_of(ms);
    let methods = methods_of(ms);
    let atfd = saturate(atfd_count(t, fields.to_set()));
    let wmc = saturate(cyclomatic_sum(methods));
    let pairs = cohesive_pairs(methods, fields.to_set(), name);
    let total = method_pairs(methods, name);
    proof {
        let b = field_index(t, "body"@);
        if 0 <= b < t.children.len() {
            let body = t.children[b];
            assert(decreases_to!(t => t.children));
            assert(decreases_to!(t.children => body));
            assert(decreases_to!(body => body.children));
            assert(decreases_to!(t => body.children));
            let e = kind_index_from(body.children, "enum_body_declarations"@, 0);
            if 0 <= e < body.children.len() {
                assert(decreases_to!(body.children => body.children[e]));
                assert(decreases_to!(body.children[e] => body.children[e].children));
                assert(decreases_to!(t => body.children[e].children));
            }
        }
    }
    ClassModel {
        name,
        is_class,
        line: name_line(t),
        fields,
        nested: if ms.len() == 0 {
            Seq::empty()
        } else {
            nested_of(ms)
        },
        methods,
        atfd,
        wmc,
        cohesive_pairs: pairs,
        method_pairs: total,
        is_god: god_rule(atfd, wmc, pairs, total),
    }
}

/// The kinds of member declarations are told apart by their names.
pub proof fn lemma_member_kinds_distinct()
    ensures
        "class_declaration"@ != "field_declaration"@,
        "enum_declaration"@ != "field_declaration"@,
        "constructor_declaration"@ != "field_declaration"@,
        "method_declaration"@ != "field_declaration"@,
        "class_declaration"@ != "constructor_declaration"@,
        "class_declaration"@ != "method_declaration"@,
        "enum_declaration"@ != "constructor_declaration"@,
        "enum_declaration"@ != "method_declaration"@,
{
    reveal_strlit("class_declaration");
    reveal_strlit("enum_declaration");
    reveal_strlit("constructor_declaration");
    reveal_strlit("method_declaration");
    reveal_strlit("field_declaration");
    assert("class_declaration"@[0] != "field_declaration"@[0]);
    assert("enum_declaration"@[0] != "field_declaration"@[0]);
    assert("constructor_declaration"@[0] != "field_declaration"@[0]);
    assert("method_declaration"@[0] != "field_declaration"@[0]);
    assert("class_declaration"@[1] != "constructor_declaration"@[1]);
    assert("class_declaration"@[0] != "method_declaration"@[0]);
    assert("enum_declaration"@[0] != "constructor_declaration"@[0]);
    assert("enum_declaration"@[0] != "method_declaration"@[0]);
}

pub open spec fn starts_with(s: Seq<char>, p: Seq<char>) -> bool {
    p.len() <= s.len() && s.subrange(0, p.len() as int) == p
}

pub open spec fn starts_upper(s: Seq<char>) -> bool {
    s.len() > 0 && 'A' <= s[0] <= 'Z'
}

/// Children of an argument list that are neither punctuation nor comments.
pub open spec fn is_argument(c: Cst) -> bool {
    &&& c.kind != "("@
    &&& c.kind != ")"@
    &&& c.kind != ","@
    &&& c.kind != "line_comment"@
    &&& c.kind != "block_comment"@
}

pub open spec fn argument_count(cs: Seq<Cst>) -> nat
    decreases cs.len(),
{
    if cs.len() == 0 {
        0
    } else {
        argument_count(cs.drop_last()) + if is_argument(cs.last()) { 1nat } else { 0nat }
    }
}

/// A read of another object's field: `o.f` where `o` is not `this` or `super`,
/// does not look like a type name, and `f` is not a field of the class.
pub open spec fn is_foreign_field_access(t: Cst, fields: Set<Seq<char>>) -> bool {
    let o = field_text(t, "object"@);
    &&& t.kind == "field_access"@
    &&& 0 <= field_index(t, "object"@) < t.children.len()
    &&& 0 <= field_index(t, "field"@) < t.children.len()
    &&& o != "this"@
    &&& o != "super"@
    &&& !starts_upper(o)
    &&& !fields.contains(field_text(t, "field"@))
}

/// A call of a getter (`get...` or `is...`, no argument) or a setter (`set...`,
/// one argument) on a receiver other than `this`.
pub open spec fn is_accessor_call(t: Cst) -> bool {
    let o = field_index(t, "object"@);
    let a = field_index(t, "arguments"@);
    let name = field_text(t, "name"@);
    &&& t.kind == "method_invocation"@
    &&& 0 <= o < t.children.len()
    &&& t.children[o].kind != "this"@
    &&& 0 <= field_index(t, "name"@) < t.children.len()
    &&& 0 <= a < t.children.len()
    &&& {
        ||| (starts_with(name, "get"@) || starts_with(name, "is"@)) && argument_count(
            t.children[a].children,
        ) == 0
        ||| starts_with(name, "set"@) && argument_count(t.children[a].children) == 1
    }
}

/// The accesses to foreign data in `t` and all its descendants.
pub open spec fn atfd_count(t: Cst, fields: Set<Seq<char>>) -> nat
    decreases t, 1nat,
{
    (if is_foreign_field_access(t, fields) || is_accessor_call(t) {
        1nat
    } else {
        0nat
    }) + atfd_count_seq(t.children, fields)
}

pub open spec fn atfd_count_seq(cs: Seq<Cst>, fields: Set<Seq<char>>) -> nat
    decreases cs, 0nat,
{
    if cs.len() == 0 {
        0
    } else {
        atfd_count_seq(cs.drop_last(), fields) + atfd_count(cs.last(), fields)
    }
}

pub open spec fn cyclomatic_sum(ms: Seq<MethodModel>) -> nat
    decreases ms.len(),
{
    if ms.len() == 0 {
        0
    } else {
        cyclomatic_sum(ms.drop_last()) + ms.last().cyclomatic
    }
}

/// Whether `m` takes part in the cohesion count: constructors, named after the
/// class, do not.
pub open spec fn considered(m: MethodModel, class_name: Seq<char>) -> bool {
    m.name != class_name
}

/// Two methods are cohesive when both use one field of the class.
pub open spec fn cohesive(a: MethodModel, b: MethodModel, fields: Set<Seq<char>>) -> bool {
    exists|x: Seq<char>| fields.contains(x) && a.usage.contains(x) && b.usage.contains(x)
}

/// The methods of `prev` taking part in the count that are cohesive with `m`.
pub open spec fn cohesive_with(
    m: MethodModel,
    prev: Seq<MethodModel>,
    fields: Set<Seq<char>>,
    class_name: Seq<char>,
) -> nat
    decreases prev.len(),
{
    if prev.len() == 0 {
        0
    } else {
        cohesive_with(m, prev.drop_last(), fields, class_name) + if considered(
            prev.last(),
            class_name,
        ) && cohesive(m, prev.last(), fields) {
            1nat
        } else {
            0nat
        }
    }
}

/// The unordered pairs of methods taking part in the count that are cohesive.
pub open spec fn cohesive_pairs(
    ms: Seq<MethodModel>,
    fields: Set<Seq<char>>,
    class_name: Seq<char>,
) -> nat
    decreases ms.len(),
{
    if ms.len() == 0 {
        0
    } else {
        cohesive_pairs(ms.drop_last(), fields, class_name) + if considered(ms.last(), class_name) {
            cohesive_with(ms.last(), ms.drop_last(), fields, class_name)
        } else {
            0nat
        }
    }
}

/// The number of methods taking part in the count.
pub open spec fn considered_count(ms: Seq<MethodModel>, class_name: Seq<char>) -> nat
    decreases ms.len(),
{
    if ms.len() == 0 {
        0
    } else {
        considered_count(ms.drop_last(), class_name) + if considered(ms.last(), class_name) {
            1nat
        } else {
            0nat
        }
    }
}

/// The unordered pairs of methods taking part in the count.
pub open spec fn method_pairs(ms: Seq<MethodModel>, class_name: Seq<char>) -> nat {
    let k = considered_count(ms, class_name);
    (k * (k - 1) / 2) as nat
}

/// Tight class cohesion below `TCC_MAX_NUMERATOR / TCC_MAX_DENOMINATOR`, where a
/// class without method pairs has cohesion 0.
pub open spec fn tcc_below_max(cohesive_pairs: nat, method_pairs: nat) -> bool {
    if method_pairs == 0 {
        0 < TCC_MAX_NUMERATOR
    } else {
        cohesive_pairs * TCC_MAX_DENOMINATOR < TCC_MAX_NUMERATOR * method_pairs
    }
}

/// The God Class rule.
pub open spec fn god_rule(atfd: nat, wmc: nat, cohesive_pairs: nat, method_pairs: nat) -> bool {
    &&& atfd > ATFD_MIN
    &&& wmc >= WMC_MIN
    &&& tcc_below_max(cohesive_pairs, method_pairs)
}

/// Whether `s` begins with `p`.
pub fn has_prefix(s: &str, p: &str) -> (r: bool)
    ensures
        r == starts_with(s@, p@),
{
    let n = p.unicode_len();
    if n > s.unicode_len() {
        return false;
    }
    let mut i: usize = 0;
    while i < n
        invariant
            n == p@.len(),
            n <= s@.len(),
            i <= n,
            forall|j: int| 0 <= j < i ==> s@[j] == p@[j],
        decreases n - i,
    {
        if s.get_char(i) != p.get_char(i) {
            assert(s@.subrange(0, n as int)[i as int] != p@[i as int]);
            return false;
        }
        i += 1;
    }
    assert(s@.subrange(0, n as int) =~= p@);
    true
}

/// Whether `s` begins with an ASCII capital letter.
pub fn has_upper_initial(s: &str) -> (r: bool)
    ensures
        r == starts_upper(s@),
{
    if s.is_empty() {
        false
    } else {
        let c = s.get_char(0);
        'A' <= c && c <= 'Z'
    }
}

/// The number of arguments in an argument list.
pub fn count_arguments(args: &SyntaxNode) -> (r: usize)
    ensures
        r == argument_count(args.tree().children),
{
    proof {
        SyntaxNode::lemma_trees(args.children@);
    }
    let ghost cs = args.tree().children;
    let mut n: usize = 0;
    let mut i: usize = 0;
    while i < args.children.len()
        invariant
            i <= args.children.len(),
            cs == args.tree().children,
            cs.len() == args.children.len(),
            forall|j: int| 0 <= j < args.children.len() ==> cs[j] == args.children@[j].tree(),
            n == argument_count(cs.subrange(0, i as int)),
            n <= i,
        decreases args.children.len() - i,
    {
        let c = &args.children[i];
        if !(c.is_kind("(") || c.is_kind(")") || c.is_kind(",") || c.is_kind("line_comment")
            || c.is_kind("block_comment")) {
            n += 1;
        }
        assert(cs.subrange(0, i + 1).drop_last() =~= cs.subrange(0, i as int));
        i += 1;
    }
    assert(cs.subrange(0, args.children.len() as int) =~= cs);
    n
}

/// Whether `node` reads a field of another object.
pub fn is_foreign_field_access_node(node: &SyntaxNode, fields: &Vec<String>) -> (r: bool)
    ensures
        r == is_foreign_field_access(node.tree(), texts(fields@).to_set()),
{
    proof {
        SyntaxNode::lemma_trees(node.children@);
        lemma_text_set(fields@);
    }
    if !node.is_kind("field_access") {
        return false;
    }
    let o = match node.field_child_index("object") {
        Some(o) => o,
        None => return false,
    };
    let f = match node.field_child_index("field") {
        Some(f) => f,
        None => return false,
    };
    let object = node.children[o].text.as_str();
    !crate::syntax::text_eq(object, "this") && !crate::syntax::text_eq(object, "super")
        && !has_upper_initial(object) && !contains_text(fields, node.children[f].text.as_str())
}

/// Whether `node` calls a getter or a setter on a receiver other than `this`.
pub fn is_accessor_call_node(node: &SyntaxNode) -> (r: bool)
    ensures
        r == is_accessor_call(node.tree()),
{
    proof {
        SyntaxNode::lemma_trees(node.children@);
    }
    if !node.is_kind("method_invocation") {
        return false;
    }
    let o = match node.field_child_index("object") {
        Some(o) => o,
        None => return false,
    };
    let n = match node.field_child_index("name") {
        Some(n) => n,
        None => return false,
    };
    let a = match node.field_child_index("arguments") {
        Some(a) => a,
        None => return false,
    };
    if node.children[o].is_kind("this") {
        return false;
    }
    let name = node.children[n].text.as_str();
    let count = count_arguments(&node.children[a]);
    ((has_prefix(name, "get") || has_prefix(name, "is")) && count == 0) || (has_prefix(name, "set")
        && count == 1)
}

/// The God Class rule on measured values.
pub fn is_god_class(atfd: usize, wmc: usize, cohesive_pairs: u128, method_pairs: u128) -> (r: bool)
    ensures
        r == god_rule(atfd as nat, wmc as nat, cohesive_pairs as nat, method_pairs as nat),
{
    let low_cohesion = if method_pairs == 0 {
        0 < TCC_MAX_NUMERATOR
    } else if cohesive_pairs > u128::MAX / TCC_MAX_DENOMINATOR {
        false
    } else {
        cohesive_pairs * TCC_MAX_DENOMINATOR < TCC_MAX_NUMERATOR * method_pairs
    };
    atfd > ATFD_MIN && wmc >= WMC_MIN && low_cohesion
}

/// The views of a list of method metrics.
pub open spec fn method_views(ms: Seq<MetricsMethod>) -> Seq<MethodModel> {
    ms.map_values(|m: MetricsMethod| m@)
}

/// Metrics of one class or enum, with those of the types nested in it.
pub struct MetricsClass {
    pub name: String,
    /// false for an enum.
    pub is_class: bool,
    /// Accesses to foreign data, saturating at `usize::MAX`.
    pub atfd: usize,
    /// Weighted methods per class, saturating at `usize::MAX`.
    pub wmc: usize,
    /// Tight class cohesion is `cohesive_pairs / method_pairs`, or 0 where
    /// `method_pairs` is 0.
    pub cohesive_pairs: u128,
    pub method_pairs: u128,
    pub is_god: bool,
    pub field_name_list: Vec<String>,
    pub metrics_class_list: Vec<MetricsClass>,
    pub metrics_method_list: Vec<MetricsMethod>,
    /// The 1-based line of the declaration's name.
    pub line: usize,
}

impl MetricsClass {
    pub open spec fn model(&self) -> ClassModel
        decreases self,
    {
        ClassModel {
            name: self.name@,
            is_class: self.is_class,
            line: self.line as nat,
            fields: texts(self.field_name_list@),
            nested: Self::models(self.metrics_class_list@),
            methods: method_views(self.metrics_method_list@),
            atfd: self.atfd as nat,
            wmc: self.wmc as nat,
            cohesive_pairs: self.cohesive_pairs as nat,
            method_pairs: self.method_pairs as nat,
            is_god: self.is_god,
        }
    }

    pub open spec fn models(cs: Seq<MetricsClass>) -> Seq<ClassModel>
        decreases cs,
    {
        if cs.len() == 0 {
            Seq::empty()
        } else {
            Self::models(cs.drop_last()).push(cs.last().model())
        }
    }

    /// Nothing read yet: every count 0 and every list empty.
    pub open spec fn is_fresh(&self) -> bool {
        &&& self.name@ == Seq::<char>::empty()
        &&& self.atfd == 0
        &&& self.wmc == 0
        &&& self.cohesive_pairs == 0
        &&& self.method_pairs == 0
        &&& !self.is_god
        &&& self.field_name_list@.len() == 0
        &&& self.metrics_class_list@.len() == 0
        &&& self.metrics_method_list@.len() == 0
        &&& self.line == 0
    }

    /// Metrics of a class (`is_class`) or enum before its declaration is read.
    pub fn new(is_class: bool) -> (r: Self)
        ensures
            r.is_fresh(),
            r.is_class == is_class,
    {
        MetricsClass {
            name: String::new(),
            is_class,
            atfd: 0,
            wmc: 0,
            cohesive_pairs: 0,
            method_pairs: 0,
            is_god: false,
            field_name_list: Vec::new(),
            metrics_class_list: Vec::new(),
            metrics_method_list: Vec::new(),
            line: 0,
        }
    }

    /// Reads the declaration `node` of a class or enum: name, line, fields,
    /// methods and nested types, then the counts and the verdict.
    pub fn compute(&mut self, node: &SyntaxNode)
        requires
            old(self).is_fresh(),
        ensures
            final(self).model() == class_model(node.tree(), old(self).is_class),
        decreases node, 1nat,
    {
        let ghost t = node.tree();
        proof {
            SyntaxNode::lemma_trees(node.children@);
            lemma_field_index_from(t.children, "name"@, 0);
            lemma_field_index_from(t.children, "body"@, 0);
        }
        if let Some(k) = node.field_child_index("name") {
            self.name = node.children[k].text.clone();
            self.line = node.children[k].line;
        }
        if let Some(b) = node.field_child_index("body") {
            let body = &node.children[b];
            proof {
                SyntaxNode::lemma_trees(body.children@);
                assert(body.tree() == t.children[b as int]);
            }
            if self.is_class {
                self.walk_body(body);
            } else if let Some(e) = body.kind_child_index("enum_body_declarations") {
                proof {
                    crate::syntax::lemma_kind_index_from(body.tree().children, "enum_body_declarations"@, 0);
                }
                self.walk_body(&body.children[e]);
            }
        }
        let ghost ms = members(t, self.is_class);
        assert(texts(self.field_name_list@) =~= fields_of(ms));
        assert(method_views(self.metrics_method_list@) =~= methods_of(ms));
        assert(Self::models(self.metrics_class_list@) =~= nested_of(ms));
        self.compute_atfd(node);
        self.compute_wmc();
        self.compute_tcc();
        self.compute_is_god();
        assert(self.model() =~= class_model(t, self.is_class));
    }

    /// Reads the member declarations among the children of `body`: fields,
    /// methods and constructors, nested classes and enums.
    pub fn walk_body(&mut self, body: &SyntaxNode)
        ensures
            final(self).name == old(self).name,
            final(self).is_class == old(self).is_class,
            final(self).line == old(self).line,
            final(self).atfd == old(self).atfd,
            final(self).wmc == old(self).wmc,
            final(self).cohesive_pairs == old(self).cohesive_pairs,
            final(self).method_pairs == old(self).method_pairs,
            final(self).is_god == old(self).is_god,
            texts(final(self).field_name_list@) == texts(old(self).field_name_list@) + fields_of(
                body.tree().children,
            ),
            method_views(final(self).metrics_method_list@) == method_views(
                old(self).metrics_method_list@,
            ) + methods_of(body.tree().children),
            Self::models(final(self).metrics_class_list@) == Self::models(
                old(self).metrics_class_list@,
            ) + nested_of(body.tree().children),
        decreases body, 0nat,
    {
        let ghost cs = body.tree().children;
        proof {
            SyntaxNode::lemma_trees(body.children@);
        }
        let mut i: usize = 0;
        while i < body.children.len()
            invariant
                i <= body.children.len(),
                cs == body.tree().children,
                cs.len() == body.children.len(),
                forall|j: int| 0 <= j < body.children.len() ==> cs[j] == body.children@[j].tree(),
                self.name == old(self).name,
                self.is_class == old(self).is_class,
                self.line == old(self).line,
                self.atfd == old(self).atfd,
                self.wmc == old(self).wmc,
                self.cohesive_pairs == old(self).cohesive_pairs,
                self.method_pairs == old(self).method_pairs,
                self.is_god == old(self).is_god,
                texts(self.field_name_list@) == texts(old(self).field_name_list@) + fields_of(
                    cs.subrange(0, i as int),
                ),
                method_views(self.metrics_method_list@) == method_views(
                    old(self).metrics_method_list@,
                ) + methods_of(cs.subrange(0, i as int)),
                Self::models(self.metrics_class_list@) == Self::models(
                    old(self).metrics_class_list@,
                ) + nested_of(cs.subrange(0, i as int)),
            decreases body.children.len() - i,
        {
            let c = &body.children[i];
            let ghost prev = *self;
            proof {
                lemma_member_kinds_distinct();
                let sub = cs.subrange(0, i + 1);
                assert(sub.drop_last() =~= cs.subrange(0, i as int));
                assert(sub.last() == c.tree());
            }
            if c.is_kind("class_declaration") || c.is_kind("enum_declaration") {
                let mut m = MetricsClass::new(c.is_kind("class_declaration"));
                m.compute(c);
                self.metrics_class_list.push(m);
                assert(self.metrics_class_list@.drop_last() =~= prev.metrics_class_list@);
                assert(texts(self.field_name_list@) =~= texts(prev.field_name_list@));
                assert(method_views(self.metrics_method_list@) =~= method_views(
                    prev.metrics_method_list@,
                ));
            } else if c.is_kind("constructor_declaration") || c.is_kind("method_declaration") {
                let mut m = MetricsMethod::new();
                m.compute(c);
                assert(m@.usage =~= usage(c.tree()));
                assert(m@ == method_model(c.tree()));
                self.metrics_method_list.push(m);
                assert(method_views(self.metrics_method_list@) =~= method_views(
                    prev.metrics_method_list@,
                ).push(m@));
                assert(texts(self.field_name_list@) =~= texts(prev.field_name_list@));
            } else if c.is_kind("field_declaration") {
                self.add_declarators(c);
                assert(method_views(self.metrics_method_list@) =~= method_views(
                    prev.metrics_method_list@,
                ));
            } else {
                assert(texts(self.field_name_list@) =~= texts(prev.field_name_list@));
                assert(method_views(self.metrics_method_list@) =~= method_views(
                    prev.metrics_method_list@,
                ));
            }
            assert(texts(self.field_name_list@) =~= texts(old(self).field_name_list@) + fields_of(
                cs.subrange(0, i + 1),
            ));
            assert(method_views(self.metrics_method_list@) =~= method_views(
                old(self).metrics_method_list@,
            ) + methods_of(cs.subrange(0, i + 1)));
            i += 1;
        }
        assert(cs.subrange(0, body.children.len() as int) =~= cs);
    }

    /// Adds the name of each declarator of the field declaration `decl`.
    pub fn add_declarators(&mut self, decl: &SyntaxNode)
        ensures
            *final(self) == (MetricsClass { field_name_list: final(self).field_name_list, ..*old(self) }),
            texts(final(self).field_name_list@) == texts(old(self).field_name_list@)
                + declarator_names(decl.tree().children),
    {
        let ghost cs = decl.tree().children;
        proof {
            SyntaxNode::lemma_trees(decl.children@);
        }
        let mut i: usize = 0;
        while i < decl.children.len()
            invariant
                i <= decl.children.len(),
                cs == decl.tree().children,
                cs.len() == decl.children.len(),
                forall|j: int| 0 <= j < decl.children.len() ==> cs[j] == decl.children@[j].tree(),
                *self == (MetricsClass { field_name_list: self.field_name_list, ..*old(self) }),
                texts(self.field_name_list@) == texts(old(self).field_name_list@) + declarator_names(
                    cs.subrange(0, i as int),
                ),
            decreases decl.children.len() - i,
        {
            let d = &decl.children[i];
            let ghost prev = self.field_name_list@;
            assert(cs.subrange(0, i + 1).drop_last() =~= cs.subrange(0, i as int));
            let is_declarator = match &d.field {
                Some(f) => crate::syntax::text_eq(f.as_str(), "declarator"),
                None => false,
            };
            if is_declarator {
                proof {
                    SyntaxNode::lemma_trees(d.children@);
                    lemma_field_index_from(d.tree().children, "name"@, 0);
                }
                if let Some(k) = d.field_child_index("name") {
                    self.field_name_list.push(d.children[k].text.clone());
                    assert(texts(self.field_name_list@) =~= texts(prev).push(d.children@[k as int].text@));
                } else {
                    assert(texts(self.field_name_list@) =~= texts(prev));
                }
            }
            i += 1;
        }
        assert(cs.subrange(0, decl.children.len() as int) =~= cs);
    }

    /// Adds the accesses to foreign data in `node` and all its descendants,
    /// nested types included.
    pub fn compute_atfd(&mut self, node: &SyntaxNode)
        ensures
            *final(self) == (MetricsClass { atfd: final(self).atfd, ..*old(self) }),
            final(self).atfd as nat == saturate(
                old(self).atfd as nat + atfd_count(node.tree(), texts(old(self).field_name_list@).to_set()),
            ),
        decreases node,
    {
        let ghost t = node.tree();
        let ghost fs = texts(self.field_name_list@).to_set();
        proof {
            SyntaxNode::lemma_trees(node.children@);
        }
        let ghost start = self.atfd as nat;
        if is_foreign_field_access_node(node, &self.field_name_list) || is_accessor_call_node(node) {
            self.atfd = self.atfd.saturating_add(1);
        }
        let ghost mid: nat = start + if is_foreign_field_access(t, fs) || is_accessor_call(t) {
            1nat
        } else {
            0nat
        };
        let mut i: usize = 0;
        while i < node.children.len()
            invariant
                i <= node.children.len(),
                t == node.tree(),
                fs == texts(old(self).field_name_list@).to_set(),
                t.children.len() == node.children.len(),
                forall|j: int| 0 <= j < node.children.len() ==> t.children[j] == node.children@[j].tree(),
                *self == (MetricsClass { atfd: self.atfd, ..*old(self) }),
                self.atfd as nat == saturate(mid + atfd_count_seq(t.children.subrange(0, i as int), fs)),
            decreases node.children.len() - i,
        {
            let ghost before = atfd_count_seq(t.children.subrange(0, i as int), fs);
            self.compute_atfd(&node.children[i]);
            proof {
                lemma_saturate_add(mid + before, atfd_count(t.children[i as int], fs));
                assert(t.children.subrange(0, i + 1).drop_last() =~= t.children.subrange(0, i as int));
            }
            i += 1;
        }
        assert(t.children.subrange(0, node.children.len() as int) =~= t.children);
    }

    /// Adds the complexities of the methods to the weighted method count.
    pub fn compute_wmc(&mut self)
        ensures
            *final(self) == (MetricsClass { wmc: final(self).wmc, ..*old(self) }),
            final(self).wmc as nat == saturate(
                old(self).wmc as nat + cyclomatic_sum(method_views(old(self).metrics_method_list@)),
            ),
            old(self).wmc as nat + cyclomatic_sum(method_views(old(self).metrics_method_list@))
                <= usize::MAX ==> final(self).wmc as nat == old(self).wmc as nat + cyclomatic_sum(
                method_views(old(self).metrics_method_list@),
            ),
    {
        let ghost ms = method_views(self.metrics_method_list@);
        let ghost start = self.wmc as nat;
        let mut i: usize = 0;
        while i < self.metrics_method_list.len()
            invariant
                i <= self.metrics_method_list.len(),
                ms == method_views(old(self).metrics_method_list@),
                *self == (MetricsClass { wmc: self.wmc, ..*old(self) }),
                self.wmc as nat == saturate(start + cyclomatic_sum(ms.subrange(0, i as int))),
            decreases self.metrics_method_list.len() - i,
        {
            proof {
                lemma_saturate_add(start + cyclomatic_sum(ms.subrange(0, i as int)), ms[i as int].cyclomatic);
                assert(ms.subrange(0, i + 1).drop_last() =~= ms.subrange(0, i as int));
            }
            self.wmc = self.wmc.saturating_add(self.metrics_method_list[i].cyclomatic);
            i += 1;
        }
        assert(ms.subrange(0, self.metrics_method_list.len() as int) =~= ms);
    }

    /// Whether methods `i` and `j` both use one of the class's fields.
    pub fn shares_field(&self, i: usize, j: usize) -> (r: bool)
        requires
            i < self.metrics_method_list.len(),
            j < self.metrics_method_list.len(),
        ensures
            r == cohesive(
                self.metrics_method_list@[i as int]@,
                self.metrics_method_list@[j as int]@,
                texts(self.field_name_list@).to_set(),
            ),
    {
        let ghost a = self.metrics_method_list@[i as int]@;
        let ghost b = self.metrics_method_list@[j as int]@;
        let ghost fs = texts(self.field_name_list@);
        let mut k: usize = 0;
        while k < self.field_name_list.len()
            invariant
                k <= self.field_name_list.len(),
                i < self.metrics_method_list.len(),
                j < self.metrics_method_list.len(),
                fs == texts(self.field_name_list@),
                a == self.metrics_method_list@[i as int]@,
                b == self.metrics_method_list@[j as int]@,
                forall|l: int| 0 <= l < k ==> !(a.usage.contains(fs[l]) && b.usage.contains(fs[l])),
            decreases self.field_name_list.len() - k,
        {
            let f = self.field_name_list[k].as_str();
            if contains_text(&self.metrics_method_list[i].usage_field_list, f) && contains_text(
                &self.metrics_method_list[j].usage_field_list,
                f,
            ) {
                assert(fs.to_set().contains(fs[k as int]));
                return true;
            }
            k += 1;
        }
        assert forall|x: Seq<char>| fs.to_set().contains(x) implies !(a.usage.contains(x)
            && b.usage.contains(x)) by {
            let l = choose|l: int| 0 <= l < fs.len() && fs[l] == x;
        }
        false
    }

    /// Counts the method pairs and the cohesive ones among them, leaving out
    /// the constructors.
    pub fn compute_tcc(&mut self)
        ensures
            *final(self) == (MetricsClass {
                cohesive_pairs: final(self).cohesive_pairs,
                method_pairs: final(self).method_pairs,
                ..*old(self)
            }),
            final(self).cohesive_pairs == cohesive_pairs(
                method_views(old(self).metrics_method_list@),
                texts(old(self).field_name_list@).to_set(),
                old(self).name@,
            ),
            final(self).method_pairs == method_pairs(
                method_views(old(self).metrics_method_list@),
                old(self).name@,
            ),
    {
        let ghost ms = method_views(self.metrics_method_list@);
        let ghost fs = texts(self.field_name_list@).to_set();
        let ghost cn = self.name@;
        let n = self.metrics_method_list.len();
        let mut num_method: usize = 0;
        let mut pairs: u128 = 0;
        let mut i: usize = 0;
        while i < n
            invariant
                n == self.metrics_method_list.len(),
                i <= n,
                *self == *old(self),
                ms == method_views(self.metrics_method_list@),
                fs == texts(self.field_name_list@).to_set(),
                cn == self.name@,
                num_method == considered_count(ms.subrange(0, i as int), cn),
                pairs == cohesive_pairs(ms.subrange(0, i as int), fs, cn),
                num_method <= i,
                pairs <= i * i,
            decreases n - i,
        {
            assert(ms.subrange(0, i + 1).drop_last() =~= ms.subrange(0, i as int));
            if self.metrics_method_list[i].name != self.name {
                num_method += 1;
                let ghost base = pairs as nat;
                let mut j: usize = 0;
                while j < i
                    invariant
                        n == self.metrics_method_list.len(),
                        j <= i < n,
                        *self == *old(self),
                        ms == method_views(self.metrics_method_list@),
                        fs == texts(self.field_name_list@).to_set(),
                        cn == self.name@,
                        base <= i * i,
                        pairs == base + cohesive_with(ms[i as int], ms.subrange(0, j as int), fs, cn),
                        pairs <= base + j,
                    decreases i - j,
                {
                    assert(ms.subrange(0, j + 1).drop_last() =~= ms.subrange(0, j as int));
                    if self.metrics_method_list[j].name != self.name && self.shares_field(i, j) {
                        assert(pairs + 1 <= i * i + i + 1);
                        assert(i * i + i + 1 <= u128::MAX) by (nonlinear_arith)
                            requires
                                i < n,
                                n <= usize::MAX,
                                usize::MAX <= u64::MAX,
                        ;
                        pairs += 1;
                    }
                    j += 1;
                }
                assert(ms.subrange(0, i as int) =~= ms.subrange(0, i + 1).drop_last());
                assert(pairs <= (i + 1) * (i + 1)) by (nonlinear_arith)
                    requires
                        pairs <= base + i,
                        base <= i * i,
                ;
            } else {
                assert(pairs <= (i + 1) * (i + 1)) by (nonlinear_arith)
                    requires
                        pairs <= i * i,
                ;
            }
            i += 1;
        }
        assert(ms.subrange(0, n as int) =~= ms);
        self.cohesive_pairs = pairs;
        let k = num_method as u128;
        self.method_pairs = if num_method > 1 {
            assert(k * (k - 1) <= u128::MAX) by (nonlinear_arith)
                requires
                    1 < k <= u64::MAX,
            ;
            k * (k - 1) / 2
        } else {
            assert(k * (k - 1) == 0) by (nonlinear_arith)
                requires
                    k <= 1,
            ;
            0
        };
    }

    /// Sets the verdict from the measured values.
    pub fn compute_is_god(&mut self)
        ensures
            *final(self) == (MetricsClass { is_god: final(self).is_god, ..*old(self) }),
            final(self).is_god == god_rule(
                old(self).atfd as nat,
                old(self).wmc as nat,
                old(self).cohesive_pairs as nat,
                old(self).method_pairs as nat,
            ),
    {
        self.is_god = is_god_class(self.atfd, self.wmc, self.cohesive_pairs, self.method_pairs);
    }
}

} // verus!
