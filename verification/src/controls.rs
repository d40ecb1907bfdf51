use vstd::prelude::*;

use crate::resources::SimState;

verus! {

/// Which of the hot keys went down this frame ("just pressed", so that a
/// held key acts once).
#[derive(Clone, Copy, Debug, PartialEq, Eq, Structural)]
pub struct KeyPresses {
    /// Space: pause / resume.
    pub space: bool,
    /// R: new random interaction matrix, and the particles start over.
    pub key_r: bool,
    /// T: scatter the particles again.
    pub key_t: bool,
    /// S: show / hide the matrix editor.
    pub key_s: bool,
}

/// What the caller has to do beyond the state change.
#[derive(Clone, Copy, Debug, PartialEq, Eq, Structural)]
pub struct KeyActions {
    /// The pause flag flipped (the caller reports the new state).
    pub pause_toggled: bool,
    /// Fill the interaction matrix with fresh random values.
    pub randomize_matrix: bool,
    /// Send a `ResetParticlesEvent` (asked for by R and by T).
    pub reset_particles: bool,
}

/// The simulation state after the keys of one frame.
pub open spec fn state_after_keys(s: SimState, keys: KeyPresses) -> SimState {
    SimState {
        paused: if keys.space { !s.paused } else { s.paused },
        show_matrix_editor: if keys.key_s { !s.show_matrix_editor } else { s.show_matrix_editor },
    }
}

/// The actions that the keys of one frame ask for.
pub open spec fn actions_for_keys(keys: KeyPresses) -> KeyActions {
    KeyActions {
        pause_toggled: keys.space,
        randomize_matrix: keys.key_r,
        reset_particles: keys.key_r || keys.key_t,
    }
}

/// Applies one frame of hot keys: Space flips the pause flag, S flips the
/// editor flag, R asks for a new matrix and a particle reset, T for a
/// particle reset alone.
pub fn handle_keyboard(keys: KeyPresses, sim_state: &mut SimState) -> (actions: KeyActions)
    ensures
        *final(sim_state) == state_after_keys(*old(sim_state), keys),
        actions == actions_for_keys(keys),
        final(sim_state).paused == (old(sim_state).paused != keys.space),
        final(sim_state).show_matrix_editor == (old(sim_state).show_matrix_editor != keys.key_s),
        actions.pause_toggled == keys.space,
        actions.randomize_matrix == keys.key_r,
        actions.reset_particles == (keys.key_r || keys.key_t),
{
    if keys.space {
        sim_state.paused = !sim_state.paused;
    }
    if keys.key_s {
        sim_state.show_matrix_editor = !sim_state.show_matrix_editor;
    }
    KeyActions {
        pause_toggled: keys.space,
        randomize_matrix: keys.key_r,
        reset_particles: keys.key_r || keys.key_t,
    }
}

/// The same keys pressed in two frames leave the simulation state as it was:
/// both Space and S are toggles.
pub proof fn lemma_keys_twice_restore(s: SimState, keys: KeyPresses)
    ensures
        state_after_keys(state_after_keys(s, keys), keys) == s,
{
}

/// R and T never change the pause flag or the editor flag.
pub proof fn lemma_reset_keys_keep_state(s: SimState, keys: KeyPresses)
    requires
        !keys.space,
        !keys.key_s,
    ensures
        state_after_keys(s, keys) == s,
{
}

/// Only Space touches the pause flag, only S the editor flag.
pub proof fn lemma_keys_are_independent(s: SimState, keys: KeyPresses)
    ensures
        state_after_keys(s, keys).paused == (s.paused != keys.space),
        state_after_keys(s, keys).show_matrix_editor == (s.show_matrix_editor != keys.key_s),
{
}

/// Each action is decided by its own keys alone: the pause is reported
/// exactly when Space went down, the matrix is randomized exactly when R went
/// down, and a particle reset is asked for exactly when R or T went down,
/// whatever else is pressed in the same frame.
pub proof fn lemma_actions_follow_keys(keys: KeyPresses)
    ensures
        actions_for_keys(keys).pause_toggled == keys.space,
        actions_for_keys(keys).randomize_matrix == keys.key_r,
        actions_for_keys(keys).reset_particles == (keys.key_r || keys.key_t),
{
}

/// Keys pressed alongside do not change an action: two frames that agree on
/// R ask alike for a new matrix, two that agree on R and T ask alike for a
/// reset, and two that agree on Space report alike.
pub proof fn lemma_actions_ignore_other_keys(a: KeyPresses, b: KeyPresses)
    ensures
        a.key_r == b.key_r ==> actions_for_keys(a).randomize_matrix == actions_for_keys(
            b,
        ).randomize_matrix,
        a.key_r == b.key_r && a.key_t == b.key_t ==> actions_for_keys(a).reset_particles
            == actions_for_keys(b).reset_particles,
        a.space == b.space ==> actions_for_keys(a).pause_toggled == actions_for_keys(
            b,
        ).pause_toggled,
        a.key_t ==> actions_for_keys(a).reset_particles,
        a.key_r ==> actions_for_keys(a).randomize_matrix && actions_for_keys(a).reset_particles,
{
}

} // verus!
