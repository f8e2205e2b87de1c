//! The boundary to the OS's error reporting.

use vstd::prelude::*;

verus! {

/// The error code the OS left behind for the calling thread's last failed
/// call.  What it is depends on the history of the process, so nothing is
/// promised of it.
///
/// Relies on `std::io::Error::last_os_error`, which reads the thread's
/// `errno` value, and on `raw_os_error`, which hands back the raw code an
/// error built from `errno` always carries.
#[verifier::external_body]
pub fn errno() -> i32 {
    std::io::Error::last_os_error().raw_os_error().unwrap_or(0)
}

} // verus!
