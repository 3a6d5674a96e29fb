//! How the program was started. Only a packaged Windows install has a package
//! identity and a startup task; this build runs unpackaged, so it reports
//! neither.
use vstd::prelude::*;

verus! {

/// Whether the program runs from an installed app package: never, for this
/// unpackaged build.
pub fn is_packaged() -> (r: bool)
    ensures
        !r,
{
    false
}

/// Whether the system's startup task launched the program: never, as only a
/// packaged install registers one.
pub fn launched_by_startup_task() -> (r: bool)
    ensures
        !r,
{
    false
}

} // verus!
