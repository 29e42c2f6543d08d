//! What the tray icon asks of the application.
use vstd::prelude::*;

verus! {

/// What the tray, on its own thread, asks of the application.
#[derive(Clone, Copy, Debug, PartialEq, Eq, Structural)]
pub enum TrayCommand {
    ShowWindow,
    Quit,
}

} // verus!
