use particle_life::controls::{handle_keyboard, KeyActions, KeyPresses};
use particle_life::hud::pause_indicator;
use particle_life::resources::{ResetParticlesEvent, SimState};

fn keys(space: bool, key_r: bool, key_t: bool, key_s: bool) -> KeyPresses {
    KeyPresses { space, key_r, key_t, key_s }
}

#[test]
fn default_state_runs_with_editor_hidden() {
    let s = SimState::default();
    assert!(!s.paused);
    assert!(!s.show_matrix_editor);
    assert!(s.simulation_running());
}

#[test]
fn space_toggles_pause() {
    let mut s = SimState::default();
    let a = handle_keyboard(keys(true, false, false, false), &mut s);
    assert!(s.paused);
    assert!(!s.show_matrix_editor);
    assert!(!s.simulation_running());
    assert_eq!(a, KeyActions { pause_toggled: true, randomize_matrix: false, reset_particles: false });
    handle_keyboard(keys(true, false, false, false), &mut s);
    assert!(!s.paused);
    assert!(s.simulation_running());
}

#[test]
fn s_toggles_editor_only() {
    let mut s = SimState { paused: true, show_matrix_editor: false };
    let a = handle_keyboard(keys(false, false, false, true), &mut s);
    assert_eq!(s, SimState { paused: true, show_matrix_editor: true });
    assert_eq!(a, KeyActions { pause_toggled: false, randomize_matrix: false, reset_particles: false });
}

#[test]
fn r_alone_randomizes_and_restarts() {
    let before = SimState { paused: false, show_matrix_editor: false };
    let mut s = before;
    let a = handle_keyboard(keys(false, true, false, false), &mut s);
    assert_eq!(s, before);
    assert_eq!(a, KeyActions { pause_toggled: false, randomize_matrix: true, reset_particles: true });
}

#[test]
fn t_alone_restarts_only() {
    let before = SimState { paused: true, show_matrix_editor: false };
    let mut s = before;
    let a = handle_keyboard(keys(false, false, true, false), &mut s);
    assert_eq!(s, before);
    assert_eq!(a, KeyActions { pause_toggled: false, randomize_matrix: false, reset_particles: true });
}

#[test]
fn r_and_t_ask_for_actions_and_keep_state() {
    let before = SimState { paused: true, show_matrix_editor: true };
    let mut s = before;
    let a = handle_keyboard(keys(false, true, true, false), &mut s);
    assert_eq!(s, before);
    assert_eq!(a, KeyActions { pause_toggled: false, randomize_matrix: true, reset_particles: true });
}

#[test]
fn no_keys_no_change() {
    let before = SimState { paused: false, show_matrix_editor: true };
    let mut s = before;
    let a = handle_keyboard(keys(false, false, false, false), &mut s);
    assert_eq!(s, before);
    assert_eq!(a, KeyActions { pause_toggled: false, randomize_matrix: false, reset_particles: false });
}

#[test]
fn same_keys_twice_restore_state() {
    for bits in 0u8..16 {
        let k = keys(bits & 1 != 0, bits & 2 != 0, bits & 4 != 0, bits & 8 != 0);
        for start in [
            SimState { paused: false, show_matrix_editor: false },
            SimState { paused: true, show_matrix_editor: false },
            SimState { paused: false, show_matrix_editor: true },
            SimState { paused: true, show_matrix_editor: true },
        ] {
            let mut s = start;
            handle_keyboard(k, &mut s);
            handle_keyboard(k, &mut s);
            assert_eq!(s, start);
        }
    }
}

#[test]
fn all_keys_at_once() {
    let mut s = SimState::default();
    let a = handle_keyboard(keys(true, true, true, true), &mut s);
    assert_eq!(s, SimState { paused: true, show_matrix_editor: true });
    assert_eq!(a, KeyActions { pause_toggled: true, randomize_matrix: true, reset_particles: true });
}

#[test]
fn pause_indicator_text() {
    assert_eq!(pause_indicator(&SimState { paused: true, show_matrix_editor: false }), "|| ПАУЗА");
    assert_eq!(pause_indicator(&SimState { paused: false, show_matrix_editor: true }), "");
}

#[test]
fn reset_event_is_a_plain_value() {
    assert_eq!(ResetParticlesEvent, ResetParticlesEvent);
}
