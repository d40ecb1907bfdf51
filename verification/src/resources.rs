use vstd::prelude::*;

verus! {

/// Global simulation state: whether the simulation is paused and whether the
/// interaction-matrix editor window is shown.
#[derive(Clone, Copy, Debug, PartialEq, Eq, Structural)]
pub struct SimState {
    pub paused: bool,
    pub show_matrix_editor: bool,
}

impl Default for SimState {
    /// Running, with the editor hidden.
    fn default() -> (s: Self)
        ensures
            !s.paused,
            !s.show_matrix_editor,
    {
        SimState { paused: false, show_matrix_editor: false }
    }
}

impl SimState {
    /// Whether the physics step runs this frame (it does not while paused).
    pub fn simulation_running(&self) -> (r: bool)
        ensures
            r == !self.paused,
    {
        !self.paused
    }
}

/// Request to scatter every particle to a fresh position with zero velocity.
#[derive(Clone, Copy, Debug, PartialEq, Eq, Structural)]
pub struct ResetParticlesEvent;

} // verus!
