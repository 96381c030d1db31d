//! Bounded-buffer C++ symbol demangling.
//!
//! A caller stages raw mangled bytes in a fixed-capacity input buffer,
//! invokes a single decode operation, and reads the decoded text back out
//! of a fixed-capacity output buffer. Output that does not fit is silently
//! truncated; every failure is reported as a decoded length of zero.

use vstd::prelude::*;

pub mod decoder;
pub mod sink;

verus! {

/// Capacity of the input buffer that holds mangled bytes.
pub const MANGLED_CAPACITY: usize = 1024;

/// Capacity of the output buffer that holds decoded text.
pub const DEMANGLED_CAPACITY: usize = 1024;

} // verus!
