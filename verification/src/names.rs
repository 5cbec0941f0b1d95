//! Lookup by name in an ordered list of names.

use vstd::prelude::*;

verus! {

/// Index of the first of `names`, from `from` on, that equals `name`.
pub open spec fn index_from(names: Seq<Seq<char>>, name: Seq<char>, from: int) -> Option<int>
    decreases names.len() - from,
{
    if from < 0 || from >= names.len() {
        None
    } else if names[from] == name {
        Some(from)
    } else {
        index_from(names, name, from + 1)
    }
}

/// Index of the first of `names` that equals `name`.
pub open spec fn index_of(names: Seq<Seq<char>>, name: Seq<char>) -> Option<int> {
    index_from(names, name, 0)
}

/// No name occurs twice.
pub open spec fn distinct(names: Seq<Seq<char>>) -> bool {
    forall|i: int, j: int| 0 <= i < j < names.len() ==> names[i] != names[j]
}

/// What `index_from` finds is the first match, and `None` means no match.
pub proof fn lemma_index_from(names: Seq<Seq<char>>, name: Seq<char>, from: int)
    requires
        0 <= from,
    ensures
        match index_from(names, name, from) {
            Some(k) => from <= k < names.len() && names[k] == name && forall|j: int|
                from <= j < k ==> names[j] != name,
            None => forall|j: int| from <= j < names.len() ==> names[j] != name,
        },
    decreases names.len() - from,
{
    if from < names.len() && names[from] != name {
        lemma_index_from(names, name, from + 1);
    }
}

/// Among distinct names, a name is found at the place where it stands.
pub proof fn lemma_index_of_distinct(names: Seq<Seq<char>>, i: int)
    requires
        distinct(names),
        0 <= i < names.len(),
    ensures
        index_of(names, names[i]) == Some(i),
{
    lemma_index_from(names, names[i], 0);
}

/// Something that has a name.
pub trait Named {
    spec fn name_model(&self) -> Seq<char>;

    fn name_ref(&self) -> (r: &String)
        ensures
            r@ == self.name_model(),
    ;
}

/// The names of `items`, in order.
pub open spec fn names_of<T: Named>(items: Seq<T>) -> Seq<Seq<char>> {
    Seq::new(items.len(), |i: int| items[i].name_model())
}

/// Index of the first of `items` named `name`.
pub fn find_named<T: Named>(items: &Vec<T>, name: &String) -> (r: Option<usize>)
    ensures
        match r {
            Some(k) => k < items.len() && index_of(names_of(items@), name@) == Some(k as int),
            None => index_of(names_of(items@), name@).is_none(),
        },
{
    let ghost names = names_of(items@);
    let mut i: usize = 0;
    while i < items.len()
        invariant
            i <= items.len(),
            names == names_of(items@),
            index_of(names, name@) == index_from(names, name@, i as int),
        decreases items.len() - i,
    {
        if *items[i].name_ref() == *name {
            return Some(i);
        }
        i += 1;
    }
    None
}

/// Whether no two of `items` share a name.
pub fn all_distinct<T: Named>(items: &Vec<T>) -> (r: bool)
    ensures
        r == distinct(names_of(items@)),
{
    let ghost names = names_of(items@);
    let mut i: usize = 0;
    while i < items.len()
        invariant
            i <= items.len(),
            names == names_of(items@),
            forall|a: int, b: int| 0 <= a < b < names.len() && a < i ==> names[a] != names[b],
        decreases items.len() - i,
    {
        let mut j: usize = i + 1;
        while j < items.len()
            invariant
                i < j <= items.len(),
                names == names_of(items@),
                forall|b: int| i < b < j ==> names[i as int] != names[b],
            decreases items.len() - j,
        {
            if *items[i].name_ref() == *items[j].name_ref() {
                assert(names[i as int] == names[j as int]);
                return false;
            }
            j += 1;
        }
        i += 1;
    }
    true
}

} // verus!
