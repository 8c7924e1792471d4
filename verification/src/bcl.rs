use vstd::prelude::*;

verus! {

/// Date-time in the BCL protobuf interchange shape: a tick value, its
/// scale, and a kind tag.  The wire codec that reads and writes it lives
/// outside this core.
#[derive(Debug, Clone, Copy, PartialEq, Eq, Structural)]
pub struct BclDateTime {
    pub value: i64,
    pub scale: i32,
    pub kind: i32,
}

} // verus!
