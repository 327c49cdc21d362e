//! Looking a name up in a list of names.

use vstd::prelude::*;

verus! {

/// What a list of strings holds, each string as its characters.
pub open spec fn texts(names: Seq<String>) -> Seq<Seq<char>> {
    Seq::new(names.len(), |i: int| names[i]@)
}

/// `i` is the first place at which `names` holds `name`.
pub open spec fn first_at(names: Seq<Seq<char>>, name: Seq<char>, i: int) -> bool {
    &&& 0 <= i < names.len()
    &&& names[i] == name
    &&& forall|j: int| 0 <= j < i ==> names[j] != name
}

/// `names` holds `name` nowhere.
pub open spec fn absent(names: Seq<Seq<char>>, name: Seq<char>) -> bool {
    forall|j: int| 0 <= j < names.len() ==> names[j] != name
}

/// The first place at which `names` holds `name`, if there is one.
pub open spec fn lookup(names: Seq<Seq<char>>, name: Seq<char>) -> Option<int>
    decreases names.len(),
{
    if names.len() == 0 {
        None
    } else {
        match lookup(names.drop_last(), name) {
            Some(i) => Some(i),
            None => if names.last() == name {
                Some(names.len() - 1)
            } else {
                None
            },
        }
    }
}

/// No two entries of `names` are equal.
pub open spec fn distinct(names: Seq<Seq<char>>) -> bool {
    forall|i: int, j: int| 0 <= i < j < names.len() ==> names[i] != names[j]
}

/// `lookup` gives the first place that holds the name, and nothing exactly when
/// no place holds it.
pub proof fn lemma_lookup(names: Seq<Seq<char>>, name: Seq<char>)
    ensures
        match lookup(names, name) {
            Some(i) => first_at(names, name, i),
            None => absent(names, name),
        },
    decreases names.len(),
{
    if names.len() > 0 {
        lemma_lookup(names.drop_last(), name);
        match lookup(names.drop_last(), name) {
            Some(i) => {
                assert(names.drop_last()[i] == name);
                assert forall|j: int| 0 <= j < i implies names[j] != name by {
                    assert(names.drop_last()[j] != name);
                }
            },
            None => {
                assert forall|j: int| 0 <= j < names.len() - 1 implies names[j] != name by {
                    assert(names.drop_last()[j] != name);
                }
            },
        }
    }
}

/// The place that `first_at` describes is the one that `lookup` gives.
pub proof fn lemma_lookup_found(names: Seq<Seq<char>>, name: Seq<char>, i: int)
    requires
        first_at(names, name, i),
    ensures
        lookup(names, name) == Some(i),
{
    lemma_lookup(names, name);
}

/// A name that is absent is not found.
pub proof fn lemma_lookup_absent(names: Seq<Seq<char>>, name: Seq<char>)
    requires
        absent(names, name),
    ensures
        lookup(names, name).is_none(),
{
    lemma_lookup(names, name);
}

/// The first place at which `names` holds `name`, if there is one.
pub fn find_name(names: &Vec<String>, name: &String) -> (r: Option<usize>)
    ensures
        match r {
            Some(i) => lookup(texts(names@), name@) == Some(i as int),
            None => lookup(texts(names@), name@).is_none(),
        },
{
    let mut i: usize = 0;
    while i < names.len()
        invariant
            i <= names.len(),
            forall|j: int| 0 <= j < i ==> texts(names@)[j] != name@,
        decreases names.len() - i,
    {
        if names[i] == *name {
            proof {
                assert(texts(names@)[i as int] == name@);
                lemma_lookup_found(texts(names@), name@, i as int);
            }
            return Some(i);
        }
        assert(texts(names@)[i as int] == names[i as int]@);
        i += 1;
    }
    proof {
        lemma_lookup_absent(texts(names@), name@);
    }
    None
}

/// A copy of a list of strings.
pub fn copy_strings(a: &Vec<String>) -> (r: Vec<String>)
    ensures
        texts(r@) == texts(a@),
{
    let mut r: Vec<String> = Vec::new();
    let mut i: usize = 0;
    while i < a.len()
        invariant
            i <= a.len(),
            r.len() == i,
            forall|j: int| 0 <= j < i ==> r[j]@ == a[j]@,
        decreases a.len() - i,
    {
        r.push(a[i].clone());
        i += 1;
    }
    proof {
        assert(texts(r@) =~= texts(a@));
    }
    r
}

} // verus!
