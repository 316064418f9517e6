use vstd::prelude::*;

verus! {

/// The abstract value of a syntax tree node: everything the metrics read of it.
pub struct Cst {
    pub kind: Seq<char>,
    pub field: Option<Seq<char>>,
    pub text: Seq<char>,
    pub line: nat,
    pub children: Seq<Cst>,
}

/// A node of a concrete syntax tree, with every child (named or anonymous) kept
/// in source order.
pub struct SyntaxNode {
    /// The grammar's name for the node (`if_statement`, `&&`, ...).
    pub kind: String,
    /// The role under which the node stands in its parent (`name`, `body`, ...).
    pub field: Option<String>,
    /// The source text that the node spans.
    pub text: String,
    /// The 1-based line on which the node starts.
    pub line: usize,
    pub children: Vec<SyntaxNode>,
}

pub open spec fn field_view(f: Option<String>) -> Option<Seq<char>> {
    match f {
        Some(s) => Some(s@),
        None => None,
    }
}

impl SyntaxNode {
    pub open spec fn tree(&self) -> Cst
        decreases self,
    {
        Cst {
            kind: self.kind@,
            field: field_view(self.field),
            text: self.text@,
            line: self.line as nat,
            children: Self::trees(self.children@),
        }
    }

    pub open spec fn trees(cs: Seq<SyntaxNode>) -> Seq<Cst>
        decreases cs,
    {
        if cs.len() == 0 {
            Seq::empty()
        } else {
            Self::trees(cs.drop_last()).push(cs.last().tree())
        }
    }

    pub proof fn lemma_trees(cs: Seq<SyntaxNode>)
        ensures
            Self::trees(cs).len() == cs.len(),
            forall|i: int| 0 <= i < cs.len() ==> #[trigger] Self::trees(cs)[i] == cs[i].tree(),
        decreases cs.len(),
    {
        if cs.len() > 0 {
            Self::lemma_trees(cs.drop_last());
        }
    }

    /// The position of the first child that stands in the role `name`, if any.
    pub fn field_child_index(&self, name: &str) -> (r: Option<usize>)
        ensures
            match r {
                Some(k) => k == field_index(self.tree(), name@) && k < self.children.len(),
                None => field_index(self.tree(), name@) == -1,
            },
    {
        proof {
            Self::lemma_trees(self.children@);
        }
        let mut i: usize = 0;
        while i < self.children.len()
            invariant
                i <= self.children.len(),
                Self::trees(self.children@).len() == self.children.len(),
                field_index(self.tree(), name@) == field_index_from(self.tree().children, name@, i as int),
            decreases self.children.len() - i,
        {
            proof {
                Self::lemma_trees(self.children@);
                assert(self.tree().children[i as int] == self.children@[i as int].tree());
            }
            let found = match &self.children[i].field {
                Some(f) => text_eq(f.as_str(), name),
                None => false,
            };
            if found {
                return Some(i);
            }
            i += 1;
        }
        None
    }

    /// The position of the first child of kind `kind`, if any.
    pub fn kind_child_index(&self, kind: &str) -> (r: Option<usize>)
        ensures
            match r {
                Some(k) => k == kind_index_from(self.tree().children, kind@, 0) && k
                    < self.children.len(),
                None => kind_index_from(self.tree().children, kind@, 0) == -1,
            },
    {
        proof {
            Self::lemma_trees(self.children@);
        }
        let mut i: usize = 0;
        while i < self.children.len()
            invariant
                i <= self.children.len(),
                Self::trees(self.children@).len() == self.children.len(),
                kind_index_from(self.tree().children, kind@, 0) == kind_index_from(
                    self.tree().children,
                    kind@,
                    i as int,
                ),
            decreases self.children.len() - i,
        {
            proof {
                Self::lemma_trees(self.children@);
                assert(self.tree().children[i as int] == self.children@[i as int].tree());
            }
            if self.children[i].is_kind(kind) {
                return Some(i);
            }
            i += 1;
        }
        None
    }

    /// Whether the node's kind is `kind`.
    pub fn is_kind(&self, kind: &str) -> (r: bool)
        ensures
            r == (self.kind@ == kind@),
    {
        text_eq(self.kind.as_str(), kind)
    }
}

/// The position, from `i` on, of the first of `cs` that stands in the role `f`;
/// -1 where there is none.
pub open spec fn field_index_from(cs: Seq<Cst>, f: Seq<char>, i: int) -> int
    decreases cs.len() - i,
{
    if i < 0 || i >= cs.len() {
        -1
    } else if cs[i].field == Some(f) {
        i
    } else {
        field_index_from(cs, f, i + 1)
    }
}

/// The position of the first child of `t` that stands in the role `f`; -1 where
/// there is none.
pub open spec fn field_index(t: Cst, f: Seq<char>) -> int {
    field_index_from(t.children, f, 0)
}

pub proof fn lemma_field_index_from(cs: Seq<Cst>, f: Seq<char>, i: int)
    ensures
        field_index_from(cs, f, i) == -1 || (i <= field_index_from(cs, f, i) < cs.len()
            && cs[field_index_from(cs, f, i)].field == Some(f)),
    decreases cs.len() - i,
{
    if 0 <= i < cs.len() && cs[i].field != Some(f) {
        lemma_field_index_from(cs, f, i + 1);
    }
}

/// The position, from `i` on, of the first of `cs` of kind `k`; -1 where there
/// is none.
pub open spec fn kind_index_from(cs: Seq<Cst>, k: Seq<char>, i: int) -> int
    decreases cs.len() - i,
{
    if i < 0 || i >= cs.len() {
        -1
    } else if cs[i].kind == k {
        i
    } else {
        kind_index_from(cs, k, i + 1)
    }
}

pub proof fn lemma_kind_index_from(cs: Seq<Cst>, k: Seq<char>, i: int)
    ensures
        kind_index_from(cs, k, i) == -1 || (i <= kind_index_from(cs, k, i) < cs.len()
            && cs[kind_index_from(cs, k, i)].kind == k),
    decreases cs.len() - i,
{
    if 0 <= i < cs.len() && cs[i].kind != k {
        lemma_kind_index_from(cs, k, i + 1);
    }
}

/// Whether `a` and `b` hold the same characters.
pub fn text_eq(a: &str, b: &str) -> (r: bool)
    ensures
        r == (a@ == b@),
{
    let n = a.unicode_len();
    if n != b.unicode_len() {
        return false;
    }
    let mut i: usize = 0;
    while i < n
        invariant
            n == a@.len(),
            n == b@.len(),
            i <= n,
            forall|j: int| 0 <= j < i ==> a@[j] == b@[j],
        decreases n - i,
    {
        if a.get_char(i) != b.get_char(i) {
            return false;
        }
        i += 1;
    }
    assert(a@ =~= b@);
    true
}

} // verus!
