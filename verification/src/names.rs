//! Finding a name in a list of names: the first place where it stands.

use vstd::prelude::*;

verus! {

/// Whether `i` is the first place in `names` where `name` stands.
pub open spec fn is_first(names: Seq<Seq<char>>, name: Seq<char>, i: int) -> bool {
    &&& 0 <= i < names.len()
    &&& names[i] == name
    &&& forall|j: int| 0 <= j < i ==> names[j] != name
}

/// The first place in `names` where `name` stands, if it stands there at all.
pub open spec fn first_index(names: Seq<Seq<char>>, name: Seq<char>) -> Option<int> {
    if names.contains(name) {
        Some(choose|i: int| is_first(names, name, i))
    } else {
        None
    }
}

/// A name that stands somewhere has a first place, and only one.
pub proof fn lemma_first_index(names: Seq<Seq<char>>, name: Seq<char>)
    ensures
        match first_index(names, name) {
            Some(i) => is_first(names, name, i),
            None => !names.contains(name),
        },
        forall|i: int| is_first(names, name, i) ==> first_index(names, name) == Some(i),
{
    if names.contains(name) {
        let k = lemma_least(names, name, names.len() as int);
        assert(is_first(names, name, k));
        let c = choose|i: int| is_first(names, name, i);
        assert forall|i: int| is_first(names, name, i) implies i == c by {
            if i < c {
                assert(names[i] != name);
            } else if c < i {
                assert(names[c] != name);
            }
        }
    } else {
        assert forall|i: int| is_first(names, name, i) implies false by {
            assert(names.contains(names[i]));
        }
    }
}

/// Among the first `n` names, the first place where `name` stands.
proof fn lemma_least(names: Seq<Seq<char>>, name: Seq<char>, n: int) -> (k: int)
    requires
        0 <= n <= names.len(),
        exists|i: int| 0 <= i < n && names[i] == name,
    ensures
        is_first(names, name, k),
        k < n,
    decreases n,
{
    if exists|i: int| 0 <= i < n - 1 && names[i] == name {
        lemma_least(names, name, n - 1)
    } else {
        assert(names[n - 1] == name);
        n - 1
    }
}

/// Looks `name` up in `names`: the first place where it stands.
pub(crate) fn find_name(names: &Vec<String>, name: &String) -> (r: Option<usize>)
    ensures
        match r {
            Some(i) => first_index(names@.map_values(|s: String| s@), name@) == Some(i as int),
            None => first_index(names@.map_values(|s: String| s@), name@) is None,
        },
{
    let ghost all = names@.map_values(|s: String| s@);
    let mut i: usize = 0;
    while i < names.len()
        invariant
            i <= names.len(),
            all == names@.map_values(|s: String| s@),
            forall|j: int| 0 <= j < i ==> all[j] != name@,
        decreases names.len() - i,
    {
        if names[i] == *name {
            proof {
                assert(is_first(all, name@, i as int));
                lemma_first_index(all, name@);
            }
            return Some(i);
        }
        i += 1;
    }
    proof {
        if all.contains(name@) {
            let k = choose|k: int| 0 <= k < all.len() && all[k] == name@;
            assert(all[k] != name@);
        }
    }
    None
}

} // verus!
