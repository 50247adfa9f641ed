//! The optional features this build of the library holds.

use vstd::prelude::*;

verus! {

/// Each optional feature by name, with whether this build holds it: none
/// is held, colour output, environment variables as a scope and reading
/// from a terminal being left to the program around the library.
pub fn features() -> (r: Vec<(bool, String)>)
    ensures
        r@.len() == 3,
        forall|i: int| 0 <= i < 3 ==> !(#[trigger] r@[i]).0,
        r@[0].1@ == "color"@,
        r@[1].1@ == "envvar"@,
        r@[2].1@ == "stdin-tty"@,
{
    vec![(false, "color".to_owned()), (false, "envvar".to_owned()), (false, "stdin-tty".to_owned())]
}

} // verus!
