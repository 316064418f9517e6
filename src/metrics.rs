use vstd::prelude::*;

use crate::class::{nested_of, ClassModel, MetricsClass};
use crate::count::texts;
use crate::syntax::SyntaxNode;

verus! {

/// The decimal digit `d`.
pub open spec fn digit(d: nat) -> char {
    if d == 0 { '0' }
    else if d == 1 { '1' }
    else if d == 2 { '2' }
    else if d == 3 { '3' }
    else if d == 4 { '4' }
    else if d == 5 { '5' }
    else if d == 6 { '6' }
    else if d == 7 { '7' }
    else if d == 8 { '8' }
    else { '9' }
}

/// `n` written in decimal, without sign or leading zeros.
pub open spec fn decimal(n: nat) -> Seq<char>
    decreases n,
{
    if n < 10 {
        seq![digit(n)]
    } else {
        decimal(n / 10).push(digit(n % 10))
    }
}

/// The report line `<path>:<line>:`.
pub open spec fn location(path: Seq<char>, line: nat) -> Seq<char> {
    path + ":"@ + decimal(line) + ":"@
}

/// The lines of the God Classes among `c` and the types nested in it, in
/// source pre-order.
pub open spec fn god_lines_of(c: ClassModel) -> Seq<nat>
    decreases c, 1nat,
{
    (if c.is_god { seq![c.line] } else { Seq::empty() }) + god_lines(c.nested)
}

pub open spec fn god_lines(cs: Seq<ClassModel>) -> Seq<nat>
    decreases cs, 0nat,
{
    if cs.len() == 0 {
        Seq::empty()
    } else {
        god_lines(cs.drop_last()) + god_lines_of(cs.last())
    }
}

/// The report lines of the God Classes at `lines`.
pub open spec fn locations(path: Seq<char>, lines: Seq<nat>) -> Seq<Seq<char>> {
    lines.map_values(|l: nat| location(path, l))
}

/// The one-character text of the decimal digit `d`.
fn digit_text(d: usize) -> (r: &'static str)
    requires
        d < 10,
    ensures
        r@ == seq![digit(d as nat)],
{
    if d == 0 {
        proof { reveal_strlit("0"); }
        "0"
    } else if d == 1 {
        proof { reveal_strlit("1"); }
        "1"
    } else if d == 2 {
        proof { reveal_strlit("2"); }
        "2"
    } else if d == 3 {
        proof { reveal_strlit("3"); }
        "3"
    } else if d == 4 {
        proof { reveal_strlit("4"); }
        "4"
    } else if d == 5 {
        proof { reveal_strlit("5"); }
        "5"
    } else if d == 6 {
        proof { reveal_strlit("6"); }
        "6"
    } else if d == 7 {
        proof { reveal_strlit("7"); }
        "7"
    } else if d == 8 {
        proof { reveal_strlit("8"); }
        "8"
    } else {
        proof { reveal_strlit("9"); }
        "9"
    }
}

/// Appends `n` in decimal to `s`.
fn append_decimal(s: &mut String, n: usize)
    ensures
        final(s)@ == old(s)@ + decimal(n as nat),
    decreases n,
{
    let ghost start = s@;
    if n >= 10 {
        append_decimal(s, n / 10);
    }
    s.append(digit_text(n % 10));
    assert(s@ =~= start + decimal(n as nat));
}

/// The report line `<path>:<line>:`.
fn format_location(path: &str, line: usize) -> (r: String)
    ensures
        r@ == location(path@, line as nat),
{
    let mut s = String::from_str(path);
    s.append(":");
    append_decimal(&mut s, line);
    s.append(":");
    s
}

impl MetricsClass {
    pub proof fn lemma_models(cs: Seq<MetricsClass>)
        ensures
            Self::models(cs).len() == cs.len(),
            forall|i: int| 0 <= i < cs.len() ==> #[trigger] Self::models(cs)[i] == cs[i].model(),
        decreases cs.len(),
    {
        if cs.len() > 0 {
            Self::lemma_models(cs.drop_last());
        }
    }

    /// Appends to `out` the report line of this type, if it is a God Class, and
    /// then those of the types nested in it.
    pub fn god_class_report(&self, path: &str, out: &mut Vec<String>)
        ensures
            texts(final(out)@) == texts(old(out)@) + locations(path@, god_lines_of(self.model())),
        decreases self,
    {
        let ghost c = self.model();
        let ghost start = texts(out@);
        proof {
            Self::lemma_models(self.metrics_class_list@);
        }
        if self.is_god {
            out.push(format_location(path, self.line));
        }
        assert(texts(out@) =~= start + locations(
            path@,
            if c.is_god { seq![c.line] } else { Seq::empty() },
        ));
        let ghost mid = texts(out@);
        let mut i: usize = 0;
        while i < self.metrics_class_list.len()
            invariant
                i <= self.metrics_class_list.len(),
                c == self.model(),
                c.nested.len() == self.metrics_class_list.len(),
                forall|j: int| 0 <= j < self.metrics_class_list.len() ==> c.nested[j] == self.metrics_class_list@[j].model(),
                texts(out@) == mid + locations(path@, god_lines(c.nested.subrange(0, i as int))),
            decreases self.metrics_class_list.len() - i,
        {
            self.metrics_class_list[i].god_class_report(path, out);
            proof {
                let sub = c.nested.subrange(0, i + 1);
                assert(sub.drop_last() =~= c.nested.subrange(0, i as int));
                assert(locations(path@, god_lines(sub)) =~= locations(path@, god_lines(c.nested.subrange(0, i as int)))
                    + locations(path@, god_lines_of(c.nested[i as int])));
            }
            i += 1;
        }
        assert(c.nested.subrange(0, self.metrics_class_list.len() as int) =~= c.nested);
        assert(locations(path@, god_lines_of(c)) =~= locations(
            path@,
            if c.is_god { seq![c.line] } else { Seq::empty() },
        ) + locations(path@, god_lines(c.nested)));
    }
}

/// The metrics of the top-level classes and enums of a compilation unit.
pub struct Metrics {
    pub metrics_class_list: Vec<MetricsClass>,
}

impl Metrics {
    pub open spec fn model(&self) -> Seq<ClassModel> {
        MetricsClass::models(self.metrics_class_list@)
    }

    /// No compilation unit read yet.
    pub fn new() -> (r: Self)
        ensures
            r.model() == Seq::<ClassModel>::empty(),
    {
        Metrics { metrics_class_list: Vec::new() }
    }

    /// Adds the metrics of each class and enum declared at the top level of the
    /// compilation unit `root`, in source order.
    pub fn compute(&mut self, root: &SyntaxNode)
        ensures
            final(self).model() == old(self).model() + nested_of(root.tree().children),
    {
        let ghost cs = root.tree().children;
        proof {
            SyntaxNode::lemma_trees(root.children@);
        }
        let mut i: usize = 0;
        while i < root.children.len()
            invariant
                i <= root.children.len(),
                cs == root.tree().children,
                cs.len() == root.children.len(),
                forall|j: int| 0 <= j < root.children.len() ==> cs[j] == root.children@[j].tree(),
                self.model() == old(self).model() + nested_of(cs.subrange(0, i as int)),
            decreases root.children.len() - i,
        {
            let c = &root.children[i];
            let ghost prev = self.model();
            proof {
                let sub = cs.subrange(0, i + 1);
                assert(sub.drop_last() =~= cs.subrange(0, i as int));
            }
            if c.is_kind("class_declaration") || c.is_kind("enum_declaration") {
                let mut m = MetricsClass::new(c.is_kind("class_declaration"));
                m.compute(c);
                let ghost before = self.metrics_class_list@;
                self.metrics_class_list.push(m);
                assert(self.metrics_class_list@.drop_last() =~= before);
            }
            assert(self.model() =~= old(self).model() + nested_of(cs.subrange(0, i + 1)));
            i += 1;
        }
        assert(cs.subrange(0, root.children.len() as int) =~= cs);
    }

    /// The report lines `<path>:<line>:` of every God Class, nested ones
    /// included, in source pre-order.
    pub fn god_class_report(&self, path: &str) -> (r: Vec<String>)
        ensures
            texts(r@) == locations(path@, god_lines(self.model())),
    {
        let mut out: Vec<String> = Vec::new();
        proof {
            MetricsClass::lemma_models(self.metrics_class_list@);
        }
        let ghost cs = self.model();
        let mut i: usize = 0;
        while i < self.metrics_class_list.len()
            invariant
                i <= self.metrics_class_list.len(),
                cs == self.model(),
                cs.len() == self.metrics_class_list.len(),
                forall|j: int| 0 <= j < self.metrics_class_list.len() ==> cs[j] == self.metrics_class_list@[j].model(),
                texts(out@) == locations(path@, god_lines(cs.subrange(0, i as int))),
            decreases self.metrics_class_list.len() - i,
        {
            self.metrics_class_list[i].god_class_report(path, &mut out);
            proof {
                let sub = cs.subrange(0, i + 1);
                assert(sub.drop_last() =~= cs.subrange(0, i as int));
                assert(locations(path@, god_lines(sub)) =~= locations(path@, god_lines(cs.subrange(0, i as int)))
                    + locations(path@, god_lines_of(cs[i as int])));
            }
            i += 1;
        }
        assert(cs.subrange(0, self.metrics_class_list.len() as int) =~= cs);
        out
    }
}

/// The metrics of every top-level class and enum of the compilation unit
/// `root`, each holding those of its nested types.
pub fn analyze(root: &SyntaxNode) -> (r: Metrics)
    ensures
        r.model() == nested_of(root.tree().children),
{
    let mut metrics = Metrics::new();
    metrics.compute(root);
    assert(metrics.model() =~= nested_of(root.tree().children));
    metrics
}

/// The report lines `<path>:<line>:` of the God Classes of the compilation unit
/// `root`, nested ones included, in source pre-order.
pub fn god_class_lines(root: &SyntaxNode, path: &str) -> (r: Vec<String>)
    ensures
        texts(r@) == locations(path@, god_lines(nested_of(root.tree().children))),
{
    let metrics = analyze(root);
    metrics.god_class_report(path)
}

} // verus!
