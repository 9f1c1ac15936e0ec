//! Whether the terminal still has to be given back to the shell.
use vstd::prelude::*;

verus! {

/// Remembers whether the terminal has been restored, so that a program that
/// ends early restores it once and one that ends normally does not twice.
pub struct TerminalGuard {
    cleanup_done: bool,
}

impl TerminalGuard {
    /// Whether the terminal has been restored.
    pub closed spec fn cleaned_up(&self) -> bool {
        self.cleanup_done
    }

    /// A guard for a terminal that has not been restored yet.
    pub fn new() -> (g: TerminalGuard)
        ensures
            !g.cleaned_up(),
    {
        TerminalGuard { cleanup_done: false }
    }

    /// Records that the terminal has been restored.
    pub fn mark_cleaned_up(&mut self)
        ensures
            final(self).cleaned_up(),
    {
        self.cleanup_done = true;
    }

    /// Whether the terminal still has to be restored.
    pub fn needs_cleanup(&self) -> (r: bool)
        ensures
            r == !self.cleaned_up(),
    {
        !self.cleanup_done
    }
}

} // verus!
