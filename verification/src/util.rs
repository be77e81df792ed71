//! Which identifier names a virtual key.

use vstd::prelude::*;

verus! {

/// The text of each identifier of a watched set, in the set's order.
pub open spec fn names(ids: Seq<String>) -> Seq<Seq<char>> {
    Seq::new(ids.len(), |i: int| ids[i]@)
}

/// The text of an optional virtual key name.
pub open spec fn name_of(vk: Option<String>) -> Option<Seq<char>> {
    match vk {
        Some(name) => Some(name@),
        None => None,
    }
}

/// The virtual key that `id` activates in the watched set `set`: `id` itself
/// where the set holds it, none otherwise. The match is exact and
/// case-sensitive; the empty identifier is a member like any other.
pub open spec fn classify(set: Seq<Seq<char>>, id: Seq<char>) -> Option<Seq<char>> {
    if set.contains(id) {
        Some(id)
    } else {
        None
    }
}

/// An identifier activates itself where the watched set holds it, and
/// nothing where it does not; so no identifier activates anything in the
/// empty set.
pub proof fn lemma_classify_member(set: Seq<Seq<char>>, id: Seq<char>)
    ensures
        classify(set, id) == Some(id) <==> set.contains(id),
        classify(set, id) is None <==> !set.contains(id),
        set.len() == 0 ==> classify(set, id) is None,
{
}

/// Tests `id` against the watched set `ids` and gives back the virtual key it
/// activates, if any.
pub fn vk(ids: &Vec<String>, id: String) -> (found: Option<String>)
    ensures
        name_of(found) == classify(names(ids@), id@),
{
    let mut i: usize = 0;
    while i < ids.len()
        invariant
            i <= ids.len(),
            forall|j: int| 0 <= j < i ==> #[trigger] names(ids@)[j] != id@,
        decreases ids.len() - i,
    {
        if ids[i] == id {
            assert(names(ids@)[i as int] == id@);
            return Some(id);
        }
        i += 1;
    }
    None
}

} // verus!
