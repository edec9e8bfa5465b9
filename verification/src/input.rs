//! The keys that are held down.
//!
//! The simulation reads the keys during a tick and never changes them; only
//! key events from outside do.

use vstd::prelude::*;

verus! {

/// Key code of the space bar.
pub const KEY_SPACE: u32 = 32;

/// Key code of the left arrow.
pub const KEY_LEFT: u32 = 37;

/// Key code of the up arrow.
pub const KEY_UP: u32 = 38;

/// Key code of the right arrow.
pub const KEY_RIGHT: u32 = 39;

/// Key code of the down arrow.
pub const KEY_DOWN: u32 = 40;

/// The controls of the ship.
#[derive(Clone, Copy, Debug, PartialEq, Eq, Structural)]
pub enum InputIndex {
    Forward,
    Backward,
    Left,
    Right,
    Fire,
}

/// The control that a key code is bound to, if any: the arrow keys steer and
/// thrust, the space bar fires.
pub open spec fn control_of_key(code: u32) -> Option<InputIndex> {
    if code == KEY_UP {
        Some(InputIndex::Forward)
    } else if code == KEY_DOWN {
        Some(InputIndex::Backward)
    } else if code == KEY_LEFT {
        Some(InputIndex::Left)
    } else if code == KEY_RIGHT {
        Some(InputIndex::Right)
    } else if code == KEY_SPACE {
        Some(InputIndex::Fire)
    } else {
        None
    }
}

impl InputIndex {
    /// The control that a key code is bound to, if any.
    pub fn from_key_code(code: u32) -> (control: Option<InputIndex>)
        ensures
            control == control_of_key(code),
    {
        if code == KEY_UP {
            Some(InputIndex::Forward)
        } else if code == KEY_DOWN {
            Some(InputIndex::Backward)
        } else if code == KEY_LEFT {
            Some(InputIndex::Left)
        } else if code == KEY_RIGHT {
            Some(InputIndex::Right)
        } else if code == KEY_SPACE {
            Some(InputIndex::Fire)
        } else {
            None
        }
    }
}

/// One flag for each control: whether its key is held down.
#[derive(Clone, Copy, Debug, PartialEq, Eq, Structural)]
pub struct Inputs {
    pub forward: bool,
    pub backward: bool,
    pub left: bool,
    pub right: bool,
    pub fire: bool,
}

impl Inputs {
    /// Whether the key of `index` is held.
    pub open spec fn held(self, index: InputIndex) -> bool {
        match index {
            InputIndex::Forward => self.forward,
            InputIndex::Backward => self.backward,
            InputIndex::Left => self.left,
            InputIndex::Right => self.right,
            InputIndex::Fire => self.fire,
        }
    }

    /// These flags with the flag of `index` set to `down`.
    pub open spec fn with(self, index: InputIndex, down: bool) -> Inputs {
        match index {
            InputIndex::Forward => Inputs { forward: down, ..self },
            InputIndex::Backward => Inputs { backward: down, ..self },
            InputIndex::Left => Inputs { left: down, ..self },
            InputIndex::Right => Inputs { right: down, ..self },
            InputIndex::Fire => Inputs { fire: down, ..self },
        }
    }

    /// These flags after an event on the key `code`: a bound key sets its
    /// flag to `down`, any other key changes nothing.
    pub open spec fn after_key(self, code: u32, down: bool) -> Inputs {
        match control_of_key(code) {
            Some(index) => self.with(index, down),
            None => self,
        }
    }

    /// No key is held.
    pub fn new() -> (inputs: Inputs)
        ensures
            inputs == (Inputs {
                forward: false,
                backward: false,
                left: false,
                right: false,
                fire: false,
            }),
            forall|index: InputIndex| !inputs.held(index),
    {
        Inputs { forward: false, backward: false, left: false, right: false, fire: false }
    }

    /// Whether the key of `index` is held.
    pub fn is_down(&self, index: InputIndex) -> (down: bool)
        ensures
            down == self.held(index),
    {
        match index {
            InputIndex::Forward => self.forward,
            InputIndex::Backward => self.backward,
            InputIndex::Left => self.left,
            InputIndex::Right => self.right,
            InputIndex::Fire => self.fire,
        }
    }

    /// Sets the flag of `index`.
    pub fn set(&mut self, index: InputIndex, down: bool)
        ensures
            *final(self) == old(self).with(index, down),
    {
        match index {
            InputIndex::Forward => {
                self.forward = down;
            },
            InputIndex::Backward => {
                self.backward = down;
            },
            InputIndex::Left => {
                self.left = down;
            },
            InputIndex::Right => {
                self.right = down;
            },
            InputIndex::Fire => {
                self.fire = down;
            },
        }
    }

    /// A key went down.
    pub fn key_down(&mut self, code: u32)
        ensures
            *final(self) == old(self).after_key(code, true),
    {
        match InputIndex::from_key_code(code) {
            Some(index) => {
                self.set(index, true);
            },
            None => {},
        }
    }

    /// A key went up.
    pub fn key_up(&mut self, code: u32)
        ensures
            *final(self) == old(self).after_key(code, false),
    {
        match InputIndex::from_key_code(code) {
            Some(index) => {
                self.set(index, false);
            },
            None => {},
        }
    }
}

/// Setting a flag changes what `is_down` answers for that control and for no
/// other.
pub proof fn lemma_set_changes_one(inputs: Inputs, index: InputIndex, down: bool, other: InputIndex)
    ensures
        inputs.with(index, down).held(index) == down,
        other != index ==> inputs.with(index, down).held(other) == inputs.held(other),
{
}

} // verus!
