//! The windows of the host application.
use vstd::prelude::*;

verus! {

/// The label of the main window.
pub const MAIN_WINDOW_LABEL: &'static str = "main";

/// The kinds of window the host opens.
#[derive(Clone, Copy, Debug, PartialEq, Eq, Structural)]
pub enum WindowType {
    Dashboard,
}

impl WindowType {
    /// The label under which a window of this kind is registered.
    pub fn label(&self) -> (r: &'static str)
        ensures
            r@ == MAIN_WINDOW_LABEL@,
    {
        match self {
            WindowType::Dashboard => MAIN_WINDOW_LABEL,
        }
    }
}

} // verus!
