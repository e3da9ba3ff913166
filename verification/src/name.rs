//! Tool names, and the place of a name in a list of names.

use crate::samples::find_in_list;
use crate::text::{copy_text, same_text};
use vstd::prelude::*;
use vstd::std_specs::cmp::PartialEqSpec;
use vstd::string::*;

verus! {

/// The name of a tool. Two names are equal where their texts are.
#[derive(Debug)]
pub struct ToolName(pub String);

impl View for ToolName {
    type V = Seq<char>;

    open spec fn view(&self) -> Seq<char> {
        self.0@
    }
}

impl PartialEq for ToolName {
    fn eq(&self, other: &ToolName) -> (r: bool) {
        same_text(self.0.as_str(), other.0.as_str())
    }
}

impl vstd::std_specs::cmp::PartialEqSpecImpl for ToolName {
    open spec fn obeys_eq_spec() -> bool {
        true
    }

    open spec fn eq_spec(&self, other: &ToolName) -> bool {
        self.0@ == other.0@
    }
}

impl ToolName {
    pub fn new(text: &str) -> (r: ToolName)
        ensures
            r@ == text@,
    {
        ToolName(copy_text(text))
    }

    /// The text of the name.
    pub fn as_str(&self) -> (r: &str)
        ensures
            r@ == self@,
    {
        self.0.as_str()
    }
}

/// The names of a list, each as its text.
pub open spec fn names_view(names: Seq<ToolName>) -> Seq<Seq<char>> {
    names.map_values(|n: ToolName| n@)
}

/// Whether `i` is the first place at which `names` holds `target`.
pub open spec fn is_first_place(names: Seq<Seq<char>>, target: Seq<char>, i: int) -> bool {
    &&& 0 <= i < names.len()
    &&& names[i] == target
    &&& forall|j: int| 0 <= j < i ==> names[j] != target
}

/// The first place at which `names` holds `target`, if it holds it.
pub open spec fn first_place(names: Seq<Seq<char>>, target: Seq<char>) -> Option<int> {
    if exists|i: int| is_first_place(names, target, i) {
        Some(choose|i: int| is_first_place(names, target, i))
    } else {
        None
    }
}

/// A first place is the first place.
pub proof fn lemma_first_place_is(names: Seq<Seq<char>>, target: Seq<char>, i: int)
    requires
        is_first_place(names, target, i),
    ensures
        first_place(names, target) == Some(i),
{
    let k = choose|k: int| is_first_place(names, target, k);
    if k < i {
        assert(names[k] != target);
    } else if i < k {
        assert(names[i] != target);
    }
}

/// A name that the list does not hold has no place, and only such a name.
pub proof fn lemma_absent_has_no_place(names: Seq<Seq<char>>, target: Seq<char>)
    ensures
        first_place(names, target) is None <==> !names.contains(target),
{
    if names.contains(target) {
        let i = choose|i: int| 0 <= i < names.len() && names[i] == target;
        lemma_some_first_place(names, target, i);
    }
    if first_place(names, target) is Some {
        let k = choose|k: int| is_first_place(names, target, k);
        assert(names[k] == target);
    }
}

/// A name that stands at `i` has a first place, at `i` or before it.
pub proof fn lemma_some_first_place(names: Seq<Seq<char>>, target: Seq<char>, i: int)
    requires
        0 <= i < names.len(),
        names[i] == target,
    ensures
        exists|k: int| 0 <= k <= i && is_first_place(names, target, k),
    decreases i,
{
    if forall|j: int| 0 <= j < i ==> names[j] != target {
        assert(is_first_place(names, target, i));
    } else {
        let j = choose|j: int| 0 <= j < i && names[j] == target;
        lemma_some_first_place(names, target, j);
    }
}

/// Where a name occurs twice, its place is that of its first occurrence,
/// not of a later one.
pub proof fn lemma_first_occurrence_wins(names: Seq<Seq<char>>, i: int, j: int)
    requires
        0 <= i < j < names.len(),
        names[i] == names[j],
        forall|k: int| 0 <= k < i ==> names[k] != names[j],
    ensures
        first_place(names, names[j]) == Some(i),
        first_place(names, names[j]) != Some(j),
{
    assert(is_first_place(names, names[j], i));
    lemma_first_place_is(names, names[j], i);
}

/// Every name of a list is found at its own place exactly where the list
/// holds no name twice.
pub proof fn lemma_each_at_its_place_iff_distinct(names: Seq<Seq<char>>)
    ensures
        names.no_duplicates() <==> forall|i: int|
            0 <= i < names.len() ==> first_place(names, #[trigger] names[i]) == Some(i),
{
    if names.no_duplicates() {
        assert forall|i: int| 0 <= i < names.len() implies first_place(names, #[trigger] names[i])
            == Some(i) by {
            assert(is_first_place(names, names[i], i));
            lemma_first_place_is(names, names[i], i);
        }
    }
    if forall|i: int| 0 <= i < names.len() ==> first_place(names, #[trigger] names[i]) == Some(i) {
        assert forall|i: int, j: int| 0 <= i < names.len() && 0 <= j < names.len() && i != j implies names[i]
            != names[j] by {
            if names[i] == names[j] {
                assert(first_place(names, names[i]) == Some(i));
                assert(first_place(names, names[j]) == Some(j));
            }
        }
    }
}

/// The first place at which the list holds the name.
pub fn find_name(names: &[ToolName], target: &ToolName) -> (r: Option<usize>)
    ensures
        match r {
            Some(i) => first_place(names_view(names@), target@) == Some(i as int) && i < names@.len(),
            None => first_place(names_view(names@), target@) is None,
        },
        r is None <==> !names_view(names@).contains(target@),
{
    let r = find_in_list(names, target);
    proof {
        let texts = names_view(names@);
        assert forall|j: int| 0 <= j < names@.len() implies (#[trigger] names@[j]).eq_spec(target) == (
        texts[j] == target@) by {}
        lemma_absent_has_no_place(texts, target@);
        match r {
            Some(i) => {
                assert(is_first_place(texts, target@, i as int));
                lemma_first_place_is(texts, target@, i as int);
            },
            None => {
                if texts.contains(target@) {
                    let k = choose|k: int| 0 <= k < texts.len() && texts[k] == target@;
                    assert(names@[k].eq_spec(target));
                }
            },
        }
    }
    r
}

} // verus!
