use vstd::prelude::*;

use crate::resources::SimState;

verus! {

/// Text of the pause indicator: a marker while paused, empty otherwise.
pub fn pause_indicator(state: &SimState) -> (text: &'static str)
    ensures
        text@ == (if state.paused { "|| ПАУЗА"@ } else { ""@ }),
{
    if state.paused {
        "|| ПАУЗА"
    } else {
        ""
    }
}

} // verus!
