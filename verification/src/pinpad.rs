//! The pinpad: four digits, one of which is selected, changed by keys and
//! by clicks until the code is sent off.

use vstd::prelude::*;

verus! {

/// How many digits the code has.
pub const N_NUMS: usize = 4;

/// A key as the pinpad understands it.
#[derive(Debug, Clone, Copy, PartialEq, Eq, Structural)]
pub enum PinpadKey {
    Enter,
    Left,
    Right,
    Up,
    Down,
    /// A key with a decimal digit on it, and the value of the digit.
    Digit(u8),
    Backspace,
    /// Any other key.
    Other,
}

/// A button of the mouse.
#[derive(Debug, Clone, Copy, PartialEq, Eq, Structural)]
pub enum PinpadButton {
    Left,
    Right,
    Middle,
}

/// What follows from a key.
#[derive(Debug, Clone, Copy, PartialEq, Eq, Structural)]
pub enum PinpadAction {
    /// The code is complete and is to be sent.
    Submit,
    /// A sound is to be played.
    PlaySfx,
    /// Nothing.
    Nothing,
}

/// The state of the pinpad.
#[derive(Debug, Clone, Copy, PartialEq, Eq, Structural)]
pub struct Pinpad {
    pub d0: u8,
    pub d1: u8,
    pub d2: u8,
    pub d3: u8,
    /// Which digit is selected, counted from 0.
    pub selected: usize,
}

/// The digit after `d` when counting up or down around the ten digits.
pub open spec fn turned(d: u8, up: bool) -> u8 {
    if up {
        ((d + 1) % 10) as u8
    } else {
        ((d + 9) % 10) as u8
    }
}

impl Pinpad {
    /// What must hold of a pinpad: every digit is below ten and one of the
    /// four is selected.
    pub open spec fn wf(self) -> bool {
        self.d0 < 10 && self.d1 < 10 && self.d2 < 10 && self.d3 < 10 && self.selected < N_NUMS
    }

    /// The digit at place `i`.
    pub open spec fn digit(self, i: int) -> u8 {
        if i == 0 {
            self.d0
        } else if i == 1 {
            self.d1
        } else if i == 2 {
            self.d2
        } else {
            self.d3
        }
    }

    /// The pinpad with the digit at place `i` replaced.
    pub open spec fn with_digit(self, i: int, d: u8) -> Pinpad {
        if i == 0 {
            Pinpad { d0: d, ..self }
        } else if i == 1 {
            Pinpad { d1: d, ..self }
        } else if i == 2 {
            Pinpad { d2: d, ..self }
        } else {
            Pinpad { d3: d, ..self }
        }
    }

    /// What a key does. The arrows to the sides move the selection around
    /// the four places, the arrows up and down turn the selected digit
    /// around the ten digits, a digit key sets the selected digit and moves
    /// on to the next place, and backspace clears the selected digit and
    /// moves back; enter and other keys change nothing.
    pub open spec fn pressed(self, key: PinpadKey) -> Pinpad {
        let i = self.selected as int;
        match key {
            PinpadKey::Left => Pinpad { selected: ((self.selected + 3) % 4) as usize, ..self },
            PinpadKey::Right => Pinpad { selected: ((self.selected + 1) % 4) as usize, ..self },
            PinpadKey::Up => self.with_digit(i, turned(self.digit(i), true)),
            PinpadKey::Down => self.with_digit(i, turned(self.digit(i), false)),
            PinpadKey::Digit(d) => if d < 10 {
                Pinpad {
                    selected: if self.selected < 3 {
                        (self.selected + 1) as usize
                    } else {
                        3
                    },
                    ..self.with_digit(i, d)
                }
            } else {
                self
            },
            PinpadKey::Backspace => Pinpad {
                selected: if self.selected > 0 {
                    (self.selected - 1) as usize
                } else {
                    0
                },
                ..self.with_digit(i, 0)
            },
            _ => self,
        }
    }

    /// What follows from a key: enter sends the code off, any key that the
    /// pinpad knows gives a sound, any other nothing.
    pub open spec fn action(key: PinpadKey) -> PinpadAction {
        match key {
            PinpadKey::Enter => PinpadAction::Submit,
            PinpadKey::Other => PinpadAction::Nothing,
            PinpadKey::Digit(d) => if d < 10 {
                PinpadAction::PlaySfx
            } else {
                PinpadAction::Nothing
            },
            _ => PinpadAction::PlaySfx,
        }
    }

    /// What a click on the digit at place `i` does: it selects the digit,
    /// or, where the digit is selected already, turns it up with the left
    /// button and down with the right.
    pub open spec fn clicked(self, i: int, button: PinpadButton) -> Pinpad {
        if self.selected != i {
            Pinpad { selected: i as usize, ..self }
        } else {
            match button {
                PinpadButton::Left => self.with_digit(i, turned(self.digit(i), true)),
                PinpadButton::Right => self.with_digit(i, turned(self.digit(i), false)),
                PinpadButton::Middle => self,
            }
        }
    }

    /// A pinpad of four zeros with the first selected.
    pub fn new() -> (r: Self)
        ensures
            r.wf(),
            r == (Pinpad { d0: 0, d1: 0, d2: 0, d3: 0, selected: 0 }),
    {
        Pinpad { d0: 0, d1: 0, d2: 0, d3: 0, selected: 0 }
    }

    /// The four digits, as they are sent.
    pub fn code(&self) -> (r: [u8; 4])
        ensures
            r@ == seq![self.d0, self.d1, self.d2, self.d3],
    {
        let r = [self.d0, self.d1, self.d2, self.d3];
        assert(r@ =~= seq![self.d0, self.d1, self.d2, self.d3]);
        r
    }

    /// The digit at place `i`.
    pub fn get(&self, i: usize) -> (r: u8)
        ensures
            r == self.digit(i as int),
    {
        if i == 0 {
            self.d0
        } else if i == 1 {
            self.d1
        } else if i == 2 {
            self.d2
        } else {
            self.d3
        }
    }

    /// Replaces the digit at place `i`.
    fn set(&mut self, i: usize, d: u8)
        ensures
            *final(self) == old(self).with_digit(i as int, d),
    {
        if i == 0 {
            self.d0 = d;
        } else if i == 1 {
            self.d1 = d;
        } else if i == 2 {
            self.d2 = d;
        } else {
            self.d3 = d;
        }
    }

    /// Turns the digit at place `i` up or down.
    fn turn(&mut self, i: usize, up: bool)
        requires
            old(self).wf(),
        ensures
            *final(self) == old(self).with_digit(i as int, turned(old(self).digit(i as int), up)),
            final(self).wf(),
    {
        let d = self.get(i);
        let next: u8 = if up {
            (d + 1) % 10
        } else {
            (d + 9) % 10
        };
        self.set(i, next);
    }

    /// Takes a key and says what follows from it.
    pub fn press(&mut self, key: PinpadKey) -> (r: PinpadAction)
        requires
            old(self).wf(),
        ensures
            final(self).wf(),
            *final(self) == old(self).pressed(key),
            r == Pinpad::action(key),
    {
        let i = self.selected;
        match key {
            PinpadKey::Enter => PinpadAction::Submit,
            PinpadKey::Left => {
                self.selected = (i + 3) % 4;
                PinpadAction::PlaySfx
            },
            PinpadKey::Right => {
                self.selected = (i + 1) % 4;
                PinpadAction::PlaySfx
            },
            PinpadKey::Up => {
                self.turn(i, true);
                PinpadAction::PlaySfx
            },
            PinpadKey::Down => {
                self.turn(i, false);
                PinpadAction::PlaySfx
            },
            PinpadKey::Digit(d) => {
                if d < 10 {
                    self.set(i, d);
                    self.selected = if i < 3 {
                        i + 1
                    } else {
                        3
                    };
                    PinpadAction::PlaySfx
                } else {
                    PinpadAction::Nothing
                }
            },
            PinpadKey::Backspace => {
                self.set(i, 0);
                self.selected = if i > 0 {
                    i - 1
                } else {
                    0
                };
                PinpadAction::PlaySfx
            },
            PinpadKey::Other => PinpadAction::Nothing,
        }
    }

    /// Takes a click on the digit at place `i`.
    pub fn click(&mut self, i: usize, button: PinpadButton)
        requires
            old(self).wf(),
            i < N_NUMS,
        ensures
            final(self).wf(),
            *final(self) == old(self).clicked(i as int, button),
    {
        if self.selected != i {
            self.selected = i;
        } else {
            match button {
                PinpadButton::Left => self.turn(i, true),
                PinpadButton::Right => self.turn(i, false),
                PinpadButton::Middle => {},
            }
        }
    }
}

/// Turning a digit up and then down, or down and then up, gives the digit
/// again.
pub proof fn lemma_turn_back(d: u8)
    requires
        d < 10,
    ensures
        turned(d, true) < 10,
        turned(d, false) < 10,
        turned(turned(d, true), false) == d,
        turned(turned(d, false), true) == d,
{
}

} // verus!
