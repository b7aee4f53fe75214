//! Errors of a single run's setup. Each is fatal for that one run alone:
//! it is reported upward, never retried, and never affects sibling runs.

use vstd::prelude::*;

verus! {

/// Why preparing one VM run failed.
#[derive(Clone, Copy, Debug, PartialEq, Eq, Structural)]
pub enum VmError {
    /// The launch option is not one of the supported ABI modes.
    UnsupportedLaunchOption,
    /// A supplied contract body cannot be hashed under the selected
    /// encoding scheme.
    BytecodeNotHashable,
    /// No code could be resolved for the entry address.
    EntryCodeUnresolved,
}

} // verus!
