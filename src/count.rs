use vstd::prelude::*;

verus! {

/// `n`, or `usize::MAX` where `n` does not fit: what a count kept with
/// saturating additions holds.
pub open spec fn saturate(n: nat) -> nat {
    if n > usize::MAX {
        usize::MAX as nat
    } else {
        n
    }
}

/// Saturating twice is saturating once: a running count may saturate at any step.
pub proof fn lemma_saturate_add(a: nat, b: nat)
    ensures
        saturate(saturate(a) + b) == saturate(a + b),
{
}

/// The set of the texts held by `v`.
pub open spec fn text_set(v: Seq<String>) -> Set<Seq<char>> {
    Set::new(|x: Seq<char>| exists|i: int| 0 <= i < v.len() && v[i]@ == x)
}

/// The texts held by `v`, in order.
pub open spec fn texts(v: Seq<String>) -> Seq<Seq<char>> {
    v.map_values(|s: String| s@)
}

pub proof fn lemma_text_set(v: Seq<String>)
    ensures
        text_set(v) == texts(v).to_set(),
{
    assert forall|x: Seq<char>| text_set(v).contains(x) implies texts(v).to_set().contains(x) by {
        let i = choose|i: int| 0 <= i < v.len() && v[i]@ == x;
        assert(texts(v)[i] == x);
    }
    assert forall|x: Seq<char>| texts(v).to_set().contains(x) implies text_set(v).contains(x) by {
        let i = choose|i: int| 0 <= i < texts(v).len() && texts(v)[i] == x;
        assert(v[i]@ == x);
    }
    assert(text_set(v) =~= texts(v).to_set());
}

/// No text occurs twice in `v`.
pub open spec fn distinct_texts(v: Seq<String>) -> bool {
    forall|i: int, j: int| 0 <= i < j < v.len() ==> v[i]@ != v[j]@
}

/// Whether `v` holds the text `s`.
pub fn contains_text(v: &Vec<String>, s: &str) -> (r: bool)
    ensures
        r == text_set(v@).contains(s@),
{
    let mut i: usize = 0;
    while i < v.len()
        invariant
            i <= v.len(),
            forall|j: int| 0 <= j < i ==> v@[j]@ != s@,
        decreases v.len() - i,
    {
        if crate::syntax::text_eq(v[i].as_str(), s) {
            return true;
        }
        i += 1;
    }
    false
}

/// Adds `s` to `v` unless `v` holds it already.
pub fn insert_text(v: &mut Vec<String>, s: String)
    requires
        distinct_texts(old(v)@),
    ensures
        distinct_texts(final(v)@),
        text_set(final(v)@) == text_set(old(v)@).insert(s@),
{
    if !contains_text(v, s.as_str()) {
        let ghost prev = v@;
        let ghost sv = s@;
        v.push(s);
        assert(text_set(v@) =~= text_set(prev).insert(sv)) by {
            assert(v@[prev.len() as int]@ == sv);
            assert forall|x: Seq<char>| text_set(prev).contains(x) implies text_set(v@).contains(x) by {
                let i = choose|i: int| 0 <= i < prev.len() && prev[i]@ == x;
                assert(v@[i] == prev[i]);
            }
        }
    } else {
        assert(text_set(v@) =~= text_set(v@).insert(s@));
    }
}

} // verus!
