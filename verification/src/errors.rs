use vstd::prelude::*;

verus! {

/// The failure taxonomy of the pack store.
///
/// Absence of an object is never an error: lookups report it as `None`.
#[derive(Clone, Copy, Debug, PartialEq, Eq, Structural)]
pub enum Error {
    /// Index construction from a raw pack is not available; a pre-built
    /// index must be supplied.
    NotImplemented,
    /// A malformed record: a truncated or oversized variable-length
    /// integer, a truncated stream, a byte range outside the archive, or a
    /// delta whose base cannot be resolved.
    CorruptedPackfile,
    /// A record whose type tag falls outside every recognised kind.
    /// The name follows the loose-object path's classification, kept
    /// deliberately distinct from plain pack corruption.
    BadLooseObject,
}

} // verus!
