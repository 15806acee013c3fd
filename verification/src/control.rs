//! The interface's modal states: a key means different things depending on
//! the mode the interface is in. The key-to-action dispatch itself lives
//! with the terminal layer; these are the modes it dispatches over.

use vstd::prelude::*;

verus! {

/// Mode of the terminal interface.
#[derive(Default, Debug, PartialEq, Eq, Hash, Clone)]
pub enum Mode {
    #[default]
    Normal,
    Insert(EditMode),
    Datetime,
    Visual,
}

/// Mode of the line editor.
#[derive(Default, Debug, PartialEq, Eq, Hash, Clone)]
pub enum EditMode {
    #[default]
    Normal,
    Insert,
    Visual,
    Replace,
}

} // verus!
