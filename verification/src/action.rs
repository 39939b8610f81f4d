//! Single-tick commands and the macro-actions that are played out as a
//! sequence of them.

use vstd::prelude::*;

verus! {

/// One command that the game accepts per tick.
#[derive(Clone, Copy, Debug, PartialEq, Eq, Structural)]
pub enum SingularAction {
    Idle,
    Left,
    Right,
    Rotate,
    Down,
}

/// A placement decision: a number of rotations followed by a signed
/// horizontal shift (negative is left), realised one command per tick.
#[derive(Clone, Copy, Debug, PartialEq, Eq, Structural)]
pub struct ComposedAction {
    pub rotation: i32,
    pub shift: i32,
}

impl ComposedAction {
    /// The command that `decompose` emits next.
    pub open spec fn next_command(self) -> SingularAction {
        if self.rotation != 0 {
            SingularAction::Rotate
        } else if self.shift < 0 {
            SingularAction::Left
        } else if self.shift > 0 {
            SingularAction::Right
        } else {
            SingularAction::Idle
        }
    }

    /// What is left of the action once `next_command` has been emitted.
    pub open spec fn remainder(self) -> ComposedAction {
        if self.rotation != 0 {
            ComposedAction { rotation: (self.rotation - 1) as i32, shift: self.shift }
        } else if self.shift < 0 {
            ComposedAction { rotation: 0, shift: (self.shift + 1) as i32 }
        } else if self.shift > 0 {
            ComposedAction { rotation: 0, shift: (self.shift - 1) as i32 }
        } else {
            self
        }
    }

    /// Number of commands still to be emitted, for a non-negative rotation count.
    pub open spec fn remaining(self) -> nat {
        (self.rotation + if self.shift < 0 { -self.shift } else { self.shift as int }) as nat
    }

    /// The whole command sequence obtained by decomposing until empty.
    pub open spec fn commands(self) -> Seq<SingularAction>
        decreases self.remaining(),
    {
        if self.rotation < 0 || (self.rotation == 0 && self.shift == 0) {
            Seq::empty()
        } else {
            seq![self.next_command()] + self.remainder().commands()
        }
    }

    pub fn new() -> (r: ComposedAction)
        ensures
            r.rotation == 0,
            r.shift == 0,
    {
        ComposedAction { rotation: 0, shift: 0 }
    }

    pub fn is_empty(&self) -> (b: bool)
        ensures
            b == (self.rotation == 0 && self.shift == 0),
    {
        self.rotation == 0 && self.shift == 0
    }

    /// Splits off the next single command and returns it with the rest of
    /// the action. An empty action yields `Idle` and itself.
    pub fn decompose(&self) -> (r: (SingularAction, ComposedAction))
        requires
            self.rotation > i32::MIN,
        ensures
            r.0 == self.next_command(),
            r.1 == self.remainder(),
    {
        if self.rotation != 0 {
            (SingularAction::Rotate, ComposedAction { rotation: self.rotation - 1, shift: self.shift })
        } else if self.shift < 0 {
            (SingularAction::Left, ComposedAction { rotation: 0, shift: self.shift + 1 })
        } else if self.shift > 0 {
            (SingularAction::Right, ComposedAction { rotation: 0, shift: self.shift - 1 })
        } else {
            (SingularAction::Idle, *self)
        }
    }

    /// Decomposing an action with `r >= 0` rotations and shift `s` until it
    /// is empty emits `r` times `Rotate`, then `|s|` times `Left` (for a
    /// negative `s`) or `Right`, and nothing else.
    pub proof fn lemma_commands(self)
        requires
            self.rotation >= 0,
        ensures
            self.commands().len() == self.remaining(),
            forall|i: int| 0 <= i < self.rotation ==> self.commands()[i] == SingularAction::Rotate,
            forall|i: int|
                self.rotation <= i < self.remaining() ==> self.commands()[i] == if self.shift < 0 {
                    SingularAction::Left
                } else {
                    SingularAction::Right
                },
        decreases self.remaining(),
    {
        if !(self.rotation == 0 && self.shift == 0) {
            self.remainder().lemma_commands();
        }
    }
}

} // verus!
