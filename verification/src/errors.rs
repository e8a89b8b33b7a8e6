use vstd::prelude::*;

verus! {

/// The error kinds that the node's operations surface.
///
/// Boot-time failures (`NetworkStartup`) are fatal; wiring mistakes
/// (`AlpnCollision`) are fatal; per-operation failures (`UnknownAuthor`,
/// `NotFound`, `NoProtocol`) surface to the caller; background peer errors
/// (`PeerTransient`) are retried and never surface; `Internal` marks an
/// invariant violation.
#[derive(Clone, Copy, Debug, PartialEq, Eq, Structural)]
pub enum NodeError {
    NetworkStartup,
    AlpnCollision,
    NoProtocol,
    UnknownAuthor,
    NotFound,
    PeerTransient,
    Internal,
}

} // verus!
