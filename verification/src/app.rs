//! The application layer: the closed set of interactive modes a session
//! can be in, and the pre-initialization placeholder.

use vstd::prelude::*;

use crate::less::Less;
use crate::shell::Shell;

verus! {

/// The placeholder application installed before the session is
/// initialized; it reacts to nothing.
pub struct EmptyApp {}

impl EmptyApp {
    /// The placeholder.
    pub fn new() -> (r: EmptyApp) {
        EmptyApp {}
    }
}

/// The active interactive mode: the pre-initialization placeholder, the
/// shell, or the pager.  Whoever is active handles the next character;
/// handing a new application back is the only transition mechanism.
pub enum App {
    Empty(EmptyApp),
    Shell(Shell),
    Pager(Less),
}

} // verus!
