use vstd::prelude::*;

verus! {

/// The key codes that the application distinguishes.
#[derive(Clone, Copy, Debug, PartialEq, Eq, Structural)]
pub enum KeyCode {
    Char(char),
    Up,
    Down,
    Enter,
    Esc,
    Backspace,
    Other,
}

/// A key press: its code and whether the Control modifier was held.
#[derive(Clone, Copy, Debug, PartialEq, Eq, Structural)]
pub struct KeyInput {
    pub code: KeyCode,
    pub ctrl: bool,
}

impl KeyInput {
    /// A key press without the Control modifier.
    pub fn plain(code: KeyCode) -> (k: KeyInput)
        ensures
            k.code == code,
            !k.ctrl,
    {
        KeyInput { code, ctrl: false }
    }

    /// A key press with the Control modifier held.
    pub fn with_ctrl(code: KeyCode) -> (k: KeyInput)
        ensures
            k.code == code,
            k.ctrl,
    {
        KeyInput { code, ctrl: true }
    }

    /// Whether this is Ctrl+C, the interrupt chord.
    pub open spec fn is_ctrl_c(self) -> bool {
        self.ctrl && self.code == KeyCode::Char('c')
    }
}

} // verus!
