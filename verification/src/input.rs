//! The input snapshot: keyboard events are turned into a state-based,
//! device-independent axis/button record that the physics step consumes.

use vstd::prelude::*;

verus! {

/// Keys the game reacts to. Anything else maps to `Other` and is ignored.
#[derive(Clone, Copy, Debug, PartialEq, Eq, Structural)]
pub enum KeyCode {
    Up,
    Left,
    Right,
    Space,
    P,
    Escape,
    Q,
    Other,
}

/// What the caller must do after a key event, beyond the input snapshot
/// update: nothing, write a screenshot, or quit the game.
#[derive(Clone, Copy, Debug, PartialEq, Eq, Structural)]
pub enum KeyAction {
    Ignore,
    Screenshot,
    Quit,
}

/// Debounced axis/button snapshot. `xaxis` is -1, 0 or 1 (left/right),
/// `yaxis` is 0 or 1 (thrust), `fire` is the fire button held.
#[derive(Clone, Copy, Debug, PartialEq, Eq, Structural)]
pub struct InputState {
    pub xaxis: i8,
    pub yaxis: i8,
    pub fire: bool,
}

impl InputState {
    /// The neutral snapshot's value.
    pub open spec fn spec_neutral() -> InputState {
        InputState { xaxis: 0, yaxis: 0, fire: false }
    }

    /// The axes only ever take their deflected or neutral values.
    pub open spec fn wf(self) -> bool {
        &&& -1 <= self.xaxis <= 1
        &&& 0 <= self.yaxis <= 1
    }
}

impl Default for InputState {
    /// The neutral snapshot: no deflection, fire released.
    fn default() -> (s: Self)
        ensures
            s == (InputState { xaxis: 0, yaxis: 0, fire: false }),
    {
        InputState { xaxis: 0, yaxis: 0, fire: false }
    }
}

} // verus!
