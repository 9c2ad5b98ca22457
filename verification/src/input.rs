//! The movement keys and the direction they ask for.

use vstd::prelude::*;

verus! {

/// One of the four movement keys.
#[derive(Clone, Copy, Debug, PartialEq, Eq, Structural)]
pub enum Key {
    Up,
    Left,
    Down,
    Right,
}

/// Which movement keys are held down.
#[derive(Clone, Copy, Debug, PartialEq, Eq, Structural)]
pub struct KeyState {
    pub left: bool,
    pub right: bool,
    pub up: bool,
    pub down: bool,
}

/// The direction along one axis that two opposed keys ask for: -1 for the
/// one, 1 for the other, 0 when both or neither are held.
pub open spec fn axis(negative: bool, positive: bool) -> int {
    if negative == positive {
        0
    } else if negative {
        -1
    } else {
        1
    }
}

impl KeyState {
    /// No key is held.
    pub fn new() -> (state: Self)
        ensures
            state == (KeyState { left: false, right: false, up: false, down: false }),
    {
        KeyState { left: false, right: false, up: false, down: false }
    }

    /// The state after `key` went down (`pressed`) or up.
    pub open spec fn with(self, key: Key, pressed: bool) -> KeyState {
        match key {
            Key::Up => KeyState { up: pressed, ..self },
            Key::Left => KeyState { left: pressed, ..self },
            Key::Down => KeyState { down: pressed, ..self },
            Key::Right => KeyState { right: pressed, ..self },
        }
    }

    /// Records that `key` went down (`pressed`) or up.
    pub fn set(&mut self, key: Key, pressed: bool)
        ensures
            *final(self) == old(self).with(key, pressed),
    {
        match key {
            Key::Up => {
                self.up = pressed;
            },
            Key::Left => {
                self.left = pressed;
            },
            Key::Down => {
                self.down = pressed;
            },
            Key::Right => {
                self.right = pressed;
            },
        }
    }

    /// The direction of the move that the keys ask for, as the signs of its
    /// two components: left is -1 and right is 1; up is -1 and down is 1.
    pub fn move_direction(&self) -> (direction: (i8, i8))
        ensures
            direction.0 == axis(self.left, self.right),
            direction.1 == axis(self.up, self.down),
    {
        let dx: i8 = if self.left {
            if self.right {
                0
            } else {
                -1
            }
        } else if self.right {
            1
        } else {
            0
        };
        let dy: i8 = if self.down {
            if self.up {
                0
            } else {
                1
            }
        } else if self.up {
            -1
        } else {
            0
        };
        (dx, dy)
    }
}

} // verus!
