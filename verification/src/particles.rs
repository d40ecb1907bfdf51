use vstd::prelude::*;

use crate::components::ParticleType;
use crate::config::{NUM_TYPES, PARTICLES_PER_TYPE};

verus! {

/// The type of the `i`-th spawned particle.
pub open spec fn spawn_type_at(i: int) -> int {
    i / PARTICLES_PER_TYPE as int
}

/// The types of the particles spawned at start-up, in spawn order: each type
/// in turn, `PARTICLES_PER_TYPE` particles of it.
pub fn spawn_types() -> (types: Vec<ParticleType>)
    ensures
        types.len() == NUM_TYPES * PARTICLES_PER_TYPE,
        forall|i: int| 0 <= i < types.len() ==> #[trigger] types[i].0 == spawn_type_at(i),
{
    let mut types: Vec<ParticleType> = Vec::new();
    let mut type_idx: usize = 0;
    while type_idx < NUM_TYPES
        invariant
            type_idx <= NUM_TYPES,
            types.len() == type_idx * PARTICLES_PER_TYPE,
            forall|i: int| 0 <= i < types.len() ==> #[trigger] types[i].0 == spawn_type_at(i),
        decreases NUM_TYPES - type_idx,
    {
        let mut n: usize = 0;
        while n < PARTICLES_PER_TYPE
            invariant
                type_idx < NUM_TYPES,
                n <= PARTICLES_PER_TYPE,
                types.len() == type_idx * PARTICLES_PER_TYPE + n,
                forall|i: int| 0 <= i < types.len() ==> #[trigger] types[i].0 == spawn_type_at(i),
            decreases PARTICLES_PER_TYPE - n,
        {
            types.push(ParticleType(type_idx));
            n += 1;
        }
        type_idx += 1;
    }
    types
}

/// Every spawned particle has a valid type (an index into the interaction
/// matrix), and the particles of type `t` are exactly the block
/// `t * PARTICLES_PER_TYPE .. (t + 1) * PARTICLES_PER_TYPE`: each type gets
/// `PARTICLES_PER_TYPE` particles.
pub proof fn lemma_spawn_layout(i: int, t: int)
    requires
        0 <= i < NUM_TYPES * PARTICLES_PER_TYPE,
    ensures
        0 <= spawn_type_at(i) < NUM_TYPES,
        spawn_type_at(i) == t <==> t * PARTICLES_PER_TYPE <= i < (t + 1) * PARTICLES_PER_TYPE,
{
    assert(0 <= spawn_type_at(i) < NUM_TYPES);
    assert(spawn_type_at(i) * PARTICLES_PER_TYPE <= i < (spawn_type_at(i) + 1) * PARTICLES_PER_TYPE);
    if t * PARTICLES_PER_TYPE <= i < (t + 1) * PARTICLES_PER_TYPE {
        if t < spawn_type_at(i) {
            assert((t + 1) * PARTICLES_PER_TYPE <= spawn_type_at(i) * PARTICLES_PER_TYPE) by (nonlinear_arith)
                requires t + 1 <= spawn_type_at(i);
        } else if t > spawn_type_at(i) {
            assert((spawn_type_at(i) + 1) * PARTICLES_PER_TYPE <= t * PARTICLES_PER_TYPE) by (nonlinear_arith)
                requires spawn_type_at(i) + 1 <= t;
        }
    }
}

} // verus!
