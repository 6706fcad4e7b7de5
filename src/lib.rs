//! Verified core of a native interop bridge: the values that cross the
//! boundary between a managed runtime and native code, the lifecycle of
//! native state handed out as integer tokens, and the schedule of a
//! background progress reporter.
pub mod counter;
pub mod dot;
pub mod marshal;
pub mod progress;
