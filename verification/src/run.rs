//! The diagnostic mode: identifiers are shown as they change, and the daemon
//! is left alone.

use vstd::prelude::*;

verus! {

/// Takes the raw identifier `new` from a source whose last identifier was
/// `current`, and says whether it is to be shown: it is where it differs from
/// the last one. Either way `new` is the last one from now on.
pub fn id_mode(current: &mut String, new: String) -> (show: bool)
    ensures
        show == (new@ != old(current)@),
        final(current)@ == new@,
{
    if *current == new {
        return false;
    }
    *current = new;
    true
}

} // verus!
