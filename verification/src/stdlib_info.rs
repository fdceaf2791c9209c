use vstd::prelude::*;

verus! {

/// Initializes the standard library. There is nothing to set up.
pub fn init() {
}

/// The version of the standard library.
pub fn version() -> (v: &'static str)
    ensures
        v@ == "2.0.0-core"@,
{
    "2.0.0-core"
}

} // verus!
