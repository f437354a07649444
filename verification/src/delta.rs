use vstd::prelude::*;

verus! {

/// The type tag of a record stored as a delta against a base at a
/// backward offset in the same archive.
pub const OFS_DELTA: u8 = 6;

/// The type tag of a record stored as a delta against a base named by
/// its identifier.
pub const REF_DELTA: u8 = 7;

/// The delta-application collaborator: an opaque algorithm that turns an
/// instruction buffer and a base object's content into the reconstructed
/// content. An implementation chooses `apply_spec` as the mathematical
/// statement of what it computes and must prove `apply` against it; the
/// store's contracts then speak of that statement.
pub trait DeltaApply {
    /// What applying an instruction buffer to a base yields.
    spec fn apply_spec(&self, instructions: Seq<u8>, base: Seq<u8>) -> Seq<u8>;

    /// Applies an instruction buffer to a base object's content.
    fn apply(&self, instructions: &[u8], base: &[u8]) -> (r: Vec<u8>)
        ensures
            r@ == self.apply_spec(instructions@, base@),
    ;
}

} // verus!
