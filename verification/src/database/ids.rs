//! Sets of ids, and what an insertion does to the ids that refer past it.

use std::collections::HashSet;
use vstd::prelude::*;

verus! {

broadcast use vstd::std_specs::hash::group_hash_axioms;

/// What a reference `x` becomes when an item is inserted at `at`: references
/// to later items, and to the item that was at `at`, move up by one.
pub open spec fn shifted(x: usize, at: usize) -> usize {
    if x >= at && x < usize::MAX {
        (x + 1) as usize
    } else {
        x
    }
}

/// The set of what each id of `ids` becomes when an item is inserted at `at`.
pub open spec fn shifted_ids(ids: Set<usize>, at: usize) -> Set<usize> {
    Set::new(|y: usize| exists|x: usize| ids.contains(x) && shifted(x, at) == y)
}

/// What `x` becomes when an item is inserted at `at`.
pub fn shift_id(x: usize, at: usize) -> (r: usize)
    ensures
        r == shifted(x, at),
{
    if x >= at && x < usize::MAX {
        x + 1
    } else {
        x
    }
}

/// An optional reference after an insertion at `at`.
pub fn shift_optional_id(x: Option<usize>, at: usize) -> (r: Option<usize>)
    ensures
        r == match x {
            Some(v) => Some(shifted(v, at)),
            None => None,
        },
{
    match x {
        Some(v) => Some(shift_id(v, at)),
        None => None,
    }
}

proof fn lemma_shifted_insert(ids: Set<usize>, x: usize, at: usize)
    ensures
        shifted_ids(ids.insert(x), at) == shifted_ids(ids, at).insert(shifted(x, at)),
{
    let a = shifted_ids(ids.insert(x), at);
    let b = shifted_ids(ids, at).insert(shifted(x, at));
    assert forall|y: usize| a.contains(y) <==> b.contains(y) by {
        if a.contains(y) {
            let w = choose|w: usize| ids.insert(x).contains(w) && shifted(w, at) == y;
            if w != x {
                assert(ids.contains(w) && shifted(w, at) == y);
            }
        }
        if b.contains(y) {
            if y == shifted(x, at) {
                assert(ids.insert(x).contains(x) && shifted(x, at) == y);
            } else {
                let w = choose|w: usize| ids.contains(w) && shifted(w, at) == y;
                assert(ids.insert(x).contains(w) && shifted(w, at) == y);
            }
        }
    }
    assert(a =~= b);
}

/// A copy of a set of ids.
pub fn clone_ids(ids: &HashSet<usize>) -> (r: HashSet<usize>)
    ensures
        r@ == ids@,
{
    let r = shift_ids(ids, usize::MAX);
    proof {
        assert(shifted_ids(ids@, usize::MAX) =~= ids@) by {
            assert forall|y: usize| ids@.contains(y) implies shifted_ids(
                ids@,
                usize::MAX,
            ).contains(y) by {
                assert(ids@.contains(y) && shifted(y, usize::MAX) == y);
            }
        }
    }
    r
}

/// The set of what each id of `ids` becomes when an item is inserted at `at`.
pub fn shift_ids(ids: &HashSet<usize>, at: usize) -> (r: HashSet<usize>)
    ensures
        r@ == shifted_ids(ids@, at),
{
    let mut r: HashSet<usize> = HashSet::new();
    proof {
        assert(shifted_ids(Set::empty(), at) =~= Set::empty());
        assert(Seq::<usize>::empty().to_set() =~= Set::empty());
    }
    for x in it: ids.iter()
        invariant
            it.seq().unref().to_set() == ids@,
            r@ == shifted_ids(it.seq().unref().take(it.index()).to_set(), at),
            it.index() == it.seq().len() ==> r@ == shifted_ids(ids@, at),
    {
        let ghost before = it.seq().unref().take(it.index());
        r.insert(shift_id(*x, at));
        proof {
            let next = it.seq().unref().take(it.index() + 1);
            assert(next =~= before.push(*x));
            before.lemma_push_to_set_commute(*x);
            lemma_shifted_insert(before.to_set(), *x, at);
            assert(it.index() + 1 == it.seq().len() ==> next =~= it.seq().unref());
        }
    }
    r
}

/// What each id of the list `ids` becomes when an item is inserted at `at`.
pub open spec fn shifted_list(ids: Seq<usize>, at: usize) -> Seq<usize> {
    ids.map_values(|x: usize| shifted(x, at))
}

/// Replaces each id of the list by what it becomes when an item is inserted at `at`.
pub fn shift_id_list(ids: &mut Vec<usize>, at: usize)
    ensures
        final(ids)@ == shifted_list(old(ids)@, at),
{
    let ghost before = ids@;
    let mut i: usize = 0;
    while i < ids.len()
        invariant
            i <= ids.len(),
            ids@.len() == before.len(),
            forall|j: int| 0 <= j < i ==> ids@[j] == shifted(before[j], at),
            forall|j: int| i <= j < before.len() ==> ids@[j] == before[j],
        decreases ids.len() - i,
    {
        let x = ids[i];
        ids[i] = shift_id(x, at);
        i += 1;
    }
    proof {
        assert(ids@ =~= shifted_list(before, at));
    }
}

/// A copy of a list of ids.
pub fn clone_id_list(ids: &Vec<usize>) -> (r: Vec<usize>)
    ensures
        r@ == ids@,
{
    let r = ids.clone();
    proof {
        assert(r@ =~= ids@);
    }
    r
}

/// The kinds of item that the database keeps.
#[derive(Clone, Copy, PartialEq, Eq, Structural, Hash, Debug)]
pub enum ItemKind {
    Device,
    Chat,
    Folder,
    File,
    Tag,
    AccessMode,
    UserData,
    ChatConfiguration,
}

/// A reference after an insertion at `at`, where the insertion is of the
/// kind that the reference refers to (`applies`); unchanged otherwise.
pub open spec fn shifted_if(applies: bool, x: usize, at: usize) -> usize {
    if applies {
        shifted(x, at)
    } else {
        x
    }
}

/// An optional reference after an insertion at `at`, where it applies.
pub open spec fn shifted_option_if(applies: bool, x: Option<usize>, at: usize) -> Option<usize> {
    match x {
        Some(v) => Some(shifted_if(applies, v, at)),
        None => None,
    }
}

/// A set of references after an insertion at `at`, where it applies.
pub open spec fn shifted_ids_if(applies: bool, ids: Set<usize>, at: usize) -> Set<usize> {
    if applies {
        shifted_ids(ids, at)
    } else {
        ids
    }
}

/// A list of references after an insertion at `at`, where it applies.
pub open spec fn shifted_list_if(applies: bool, ids: Seq<usize>, at: usize) -> Seq<usize> {
    if applies {
        shifted_list(ids, at)
    } else {
        ids
    }
}

/// Brings a reference up to date after an insertion at `at`.
pub fn shift_id_if(applies: bool, x: &mut usize, at: usize)
    ensures
        *final(x) == shifted_if(applies, *old(x), at),
{
    if applies {
        *x = shift_id(*x, at);
    }
}

/// Brings an optional reference up to date after an insertion at `at`.
pub fn shift_option_if(applies: bool, x: &mut Option<usize>, at: usize)
    ensures
        *final(x) == shifted_option_if(applies, *old(x), at),
{
    if applies {
        *x = shift_optional_id(*x, at);
    }
}

/// Brings a set of references up to date after an insertion at `at`.
pub fn shift_ids_if(applies: bool, ids: &mut HashSet<usize>, at: usize)
    ensures
        final(ids)@ == shifted_ids_if(applies, old(ids)@, at),
{
    if applies {
        *ids = shift_ids(ids, at);
    }
}

/// Brings a list of references up to date after an insertion at `at`.
pub fn shift_list_if(applies: bool, ids: &mut Vec<usize>, at: usize)
    ensures
        final(ids)@ == shifted_list_if(applies, old(ids)@, at),
{
    if applies {
        shift_id_list(ids, at);
    }
}

} // verus!
