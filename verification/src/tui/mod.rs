//! The terminal inventory browser: its state machine, its key handling and
//! the texts its panes show. Drawing them is left to the program.
use vstd::prelude::*;

pub mod app;
pub mod input;
pub mod session;
pub mod views;

verus! {
}
