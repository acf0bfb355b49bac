//! The one piece of the window-layout vocabulary that is plain data:
//! whether a window wants to stay open after an update pass.

use vstd::prelude::*;

verus! {

/// What a layout answers when asked to update: the window lives on, or it
/// is done and should be torn down.
#[derive(Clone, Copy, Debug, PartialEq, Eq, Structural)]
pub enum WindowLifeStatus {
    Alive,
    Dead,
}

} // verus!
