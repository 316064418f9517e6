//! Indented outlines of a syntax tree, for inspecting what the parser produced.
use vstd::prelude::*;

use crate::count::{saturate, texts};
use crate::method::field_text;
use crate::syntax::{field_index, lemma_field_index_from, Cst, SyntaxNode};

verus! {

/// `n` spaces.
pub open spec fn spaces(n: nat) -> Seq<char> {
    Seq::new(n, |i: int| ' ')
}

/// The indentation of the children of a node indented by `indent`.
pub open spec fn deeper(indent: nat) -> nat {
    saturate(indent + 4)
}

/// One line per node of `t`, in pre-order: its kind, indented by four spaces
/// per level below `t`.
pub open spec fn kind_lines(t: Cst, indent: nat) -> Seq<Seq<char>>
    decreases t, 1nat,
{
    seq![spaces(indent) + t.kind] + kind_lines_seq(t.children, deeper(indent))
}

pub open spec fn kind_lines_seq(cs: Seq<Cst>, indent: nat) -> Seq<Seq<char>>
    decreases cs, 0nat,
{
    if cs.len() == 0 {
        Seq::empty()
    } else {
        kind_lines_seq(cs.drop_last(), indent) + kind_lines(cs.last(), indent)
    }
}

/// The lines `name: type` of the declarators among `cs`.
pub open spec fn declarator_lines(cs: Seq<Cst>, type_text: Seq<char>, indent: nat) -> Seq<Seq<char>>
    decreases cs.len(),
{
    if cs.len() == 0 {
        Seq::empty()
    } else {
        let d = cs.last();
        declarator_lines(cs.drop_last(), type_text, indent) + if d.field == Some("declarator"@) && 0
            <= field_index(d, "name"@) < d.children.len() {
            seq![spaces(indent) + field_text(d, "name"@) + ": "@ + type_text]
        } else {
            Seq::empty()
        }
    }
}

/// The lines that `t` gives by itself: `class <name>` for a class, one
/// `<name>: <type>` per declared field, `<name>(): <type>` for a method.
pub open spec fn own_attribute_lines(t: Cst, indent: nat) -> Seq<Seq<char>> {
    let has_name = 0 <= field_index(t, "name"@) < t.children.len();
    let has_type = 0 <= field_index(t, "type"@) < t.children.len();
    if t.kind == "class_declaration"@ && has_name {
        seq![spaces(indent) + "class "@ + field_text(t, "name"@)]
    } else if t.kind == "field_declaration"@ && has_type {
        declarator_lines(t.children, field_text(t, "type"@), indent)
    } else if t.kind == "method_declaration"@ && has_type && has_name {
        seq![spaces(indent) + field_text(t, "name"@) + "(): "@ + field_text(t, "type"@)]
    } else {
        Seq::empty()
    }
}

/// The declared classes, fields and methods of `t`, in pre-order, indented by
/// four spaces per level below `t`.
pub open spec fn attribute_lines(t: Cst, indent: nat) -> Seq<Seq<char>>
    decreases t, 1nat,
{
    own_attribute_lines(t, indent) + attribute_lines_seq(t.children, deeper(indent))
}

pub open spec fn attribute_lines_seq(cs: Seq<Cst>, indent: nat) -> Seq<Seq<char>>
    decreases cs, 0nat,
{
    if cs.len() == 0 {
        Seq::empty()
    } else {
        attribute_lines_seq(cs.drop_last(), indent) + attribute_lines(cs.last(), indent)
    }
}

/// `indent` spaces followed by `text`.
fn indented(indent: usize, text: &str) -> (r: String)
    ensures
        r@ == spaces(indent as nat) + text@,
{
    let mut s = String::new();
    let mut i: usize = 0;
    proof {
        reveal_strlit(" ");
    }
    while i < indent
        invariant
            i <= indent,
            s@ == spaces(i as nat),
            " "@ == seq![' '],
        decreases indent - i,
    {
        s.append(" ");
        assert(s@ =~= spaces((i + 1) as nat));
        i += 1;
    }
    s.append(text);
    s
}

fn push_kind_lines(node: &SyntaxNode, indent: usize, out: &mut Vec<String>)
    ensures
        texts(final(out)@) == texts(old(out)@) + kind_lines(node.tree(), indent as nat),
    decreases node,
{
    let ghost t = node.tree();
    let ghost start = texts(out@);
    proof {
        SyntaxNode::lemma_trees(node.children@);
    }
    out.push(indented(indent, node.kind.as_str()));
    let inner = indent.saturating_add(4);
    assert(texts(out@) =~= start + seq![spaces(indent as nat) + t.kind]);
    let ghost mid = texts(out@);
    let mut i: usize = 0;
    while i < node.children.len()
        invariant
            i <= node.children.len(),
            t == node.tree(),
            t.children.len() == node.children.len(),
            forall|j: int| 0 <= j < node.children.len() ==> t.children[j] == node.children@[j].tree(),
            inner == deeper(indent as nat),
            texts(out@) == mid + kind_lines_seq(t.children.subrange(0, i as int), inner as nat),
        decreases node.children.len() - i,
    {
        push_kind_lines(&node.children[i], inner, out);
        assert(t.children.subrange(0, i + 1).drop_last() =~= t.children.subrange(0, i as int));
        i += 1;
    }
    assert(t.children.subrange(0, node.children.len() as int) =~= t.children);
}

/// The kind of every node of `node`, in pre-order, one per line, indented by
/// `indent` spaces and four more per level.
pub fn tree_lines(node: &SyntaxNode, indent: usize) -> (r: Vec<String>)
    ensures
        texts(r@) == kind_lines(node.tree(), indent as nat),
{
    let mut out: Vec<String> = Vec::new();
    push_kind_lines(node, indent, &mut out);
    assert(texts(out@) =~= kind_lines(node.tree(), indent as nat));
    out
}

fn push_declarator_lines(decl: &SyntaxNode, type_text: &str, indent: usize, out: &mut Vec<String>)
    ensures
        texts(final(out)@) == texts(old(out)@) + declarator_lines(
            decl.tree().children,
            type_text@,
            indent as nat,
        ),
{
    let ghost cs = decl.tree().children;
    let ghost start = texts(out@);
    proof {
        SyntaxNode::lemma_trees(decl.children@);
    }
    let mut i: usize = 0;
    while i < decl.children.len()
        invariant
            i <= decl.children.len(),
            cs == decl.tree().children,
            cs.len() == decl.children.len(),
            forall|j: int| 0 <= j < decl.children.len() ==> cs[j] == decl.children@[j].tree(),
            texts(out@) == start + declarator_lines(cs.subrange(0, i as int), type_text@, indent as nat),
        decreases decl.children.len() - i,
    {
        let d = &decl.children[i];
        let ghost prev = texts(out@);
        assert(cs.subrange(0, i + 1).drop_last() =~= cs.subrange(0, i as int));
        let is_declarator = match &d.field {
            Some(f) => crate::syntax::text_eq(f.as_str(), "declarator"),
            None => false,
        };
        if is_declarator {
            proof {
                SyntaxNode::lemma_trees(d.children@);
                lemma_field_index_from(d.tree().children, "name"@, 0);
            }
            if let Some(k) = d.field_child_index("name") {
                let mut line = indented(indent, d.children[k].text.as_str());
                line.append(": ");
                line.append(type_text);
                out.push(line);
                assert(texts(out@) =~= prev.push(line@));
            }
        }
        i += 1;
    }
    assert(cs.subrange(0, decl.children.len() as int) =~= cs);
}

fn push_attribute_lines(node: &SyntaxNode, indent: usize, out: &mut Vec<String>)
    ensures
        texts(final(out)@) == texts(old(out)@) + attribute_lines(node.tree(), indent as nat),
    decreases node,
{
    let ghost t = node.tree();
    let ghost start = texts(out@);
    proof {
        SyntaxNode::lemma_trees(node.children@);
        lemma_field_index_from(t.children, "name"@, 0);
        lemma_field_index_from(t.children, "type"@, 0);
    }
    let name = node.field_child_index("name");
    let type_index = node.field_child_index("type");
    if node.is_kind("class_declaration") && name.is_some() {
        let mut line = indented(indent, "class ");
        line.append(node.children[name.unwrap()].text.as_str());
        out.push(line);
    } else if node.is_kind("field_declaration") && type_index.is_some() {
        push_declarator_lines(node, node.children[type_index.unwrap()].text.as_str(), indent, out);
    } else if node.is_kind("method_declaration") && type_index.is_some() && name.is_some() {
        let mut line = indented(indent, node.children[name.unwrap()].text.as_str());
        line.append("(): ");
        line.append(node.children[type_index.unwrap()].text.as_str());
        out.push(line);
    }
    assert(texts(out@) =~= start + own_attribute_lines(t, indent as nat));
    let inner = indent.saturating_add(4);
    let ghost mid = texts(out@);
    let mut i: usize = 0;
    while i < node.children.len()
        invariant
            i <= node.children.len(),
            t == node.tree(),
            t.children.len() == node.children.len(),
            forall|j: int| 0 <= j < node.children.len() ==> t.children[j] == node.children@[j].tree(),
            inner == deeper(indent as nat),
            texts(out@) == mid + attribute_lines_seq(t.children.subrange(0, i as int), inner as nat),
        decreases node.children.len() - i,
    {
        push_attribute_lines(&node.children[i], inner, out);
        assert(t.children.subrange(0, i + 1).drop_last() =~= t.children.subrange(0, i as int));
        i += 1;
    }
    assert(t.children.subrange(0, node.children.len() as int) =~= t.children);
}

/// The declared classes (`class <name>`), fields (`<name>: <type>`, one per
/// declarator) and methods (`<name>(): <type>`) of `node`, in pre-order, indented
/// by `indent` spaces and four more per level.
pub fn attribute_lines_of(node: &SyntaxNode, indent: usize) -> (r: Vec<String>)
    ensures
        texts(r@) == attribute_lines(node.tree(), indent as nat),
{
    let mut out: Vec<String> = Vec::new();
    push_attribute_lines(node, indent, &mut out);
    assert(texts(out@) =~= attribute_lines(node.tree(), indent as nat));
    out
}

} // verus!
