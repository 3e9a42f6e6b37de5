//! The tracked world position of the mouse cursor.

use vstd::prelude::*;

use crate::zone::Pos;

verus! {

/// The most recent world position of the mouse cursor.
///
/// The engine turns a viewport cursor position into world coordinates once
/// per frame; when the cursor is outside the window there is no reading and
/// the last known position is kept.
#[derive(Clone, Copy, PartialEq, Eq, Structural, Debug)]
pub struct MouseWorldPosition(pub Pos);

impl MouseWorldPosition {
    /// Takes this frame's reading, keeping the old position when there is
    /// none.
    pub fn update(&mut self, reading: Option<Pos>)
        ensures
            reading is Some ==> final(self).0 == reading->Some_0,
            reading is None ==> final(self).0 == old(self).0,
    {
        if let Some(p) = reading {
            self.0 = p;
        }
    }
}

} // verus!
