use vstd::prelude::*;

verus! {

/// The type of a particle: an index into the interaction matrix and the
/// colour table.
#[derive(Clone, Copy, Debug, PartialEq, Eq, Structural)]
pub struct ParticleType(pub usize);

} // verus!
