use vstd::prelude::*;

pub mod text;
pub mod helper;
pub mod paths;
pub mod gpu;
pub mod pattern;
pub mod writer;
pub mod settings;
pub mod plans;
pub mod tray;
pub mod autostart;
pub mod ui;
pub mod acceptance;

verus! {

} // verus!
