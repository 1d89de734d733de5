//! CPU statistics for Linux hosts: parsers for the kernel's CPU files
//! (`/proc/stat`, `/proc/softirqs`, `/proc/cpuinfo`, the CPU range files under
//! `/sys`), the arithmetic that turns two samples into a difference, and the
//! text reports built from them.
use vstd::prelude::*;

pub mod cpuinfo;
pub mod hardware_laws;
pub mod history;
pub mod laws;
pub mod layout_laws;
pub mod linked;
pub mod order;
pub mod range;
pub mod report;
pub mod softirqs;
pub mod stat;
pub mod summary;
pub mod text;
pub mod topology;

verus! {
} // verus!
