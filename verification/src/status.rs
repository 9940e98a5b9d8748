use vstd::prelude::*;

verus! {

/// Status taxonomy returned to RPC callers. A handler error never crashes the
/// listener: it is mapped to one of these codes and sent back on the wire.
#[derive(Clone, Copy, Debug, PartialEq, Eq, Structural)]
pub enum StatusCode {
    Okay,
    InvalidArgument,
    NotFound,
    Internal,
    Unavailable,
}

} // verus!
