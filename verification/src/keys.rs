//! Keys, and what they ask for.
use vstd::prelude::*;

verus! {

/// A key of the keyboard.
#[derive(Clone, Copy, Debug, PartialEq, Eq, Structural)]
pub enum KeyCode {
    Char(char),
    Esc,
    Left,
    Right,
    Up,
    Down,
    PageUp,
    PageDown,
    Home,
    End,
    /// Any other key.
    Other,
}

/// The modifiers that are held down with a key.
#[derive(Clone, Copy, Debug, PartialEq, Eq, Structural)]
pub struct KeyModifiers {
    pub control: bool,
    pub shift: bool,
}

impl KeyModifiers {
    pub fn none() -> (m: Self)
        ensures
            !m.control && !m.shift,
    {
        KeyModifiers { control: false, shift: false }
    }

    pub fn control() -> (m: Self)
        ensures
            m.control && !m.shift,
    {
        KeyModifiers { control: true, shift: false }
    }

    pub fn shift() -> (m: Self)
        ensures
            !m.control && m.shift,
    {
        KeyModifiers { control: false, shift: true }
    }
}

/// A key that was pressed.
#[derive(Clone, Copy, Debug, PartialEq, Eq, Structural)]
pub struct KeyEvent {
    pub code: KeyCode,
    pub modifiers: KeyModifiers,
}

impl KeyEvent {
    pub fn new(code: KeyCode, modifiers: KeyModifiers) -> (key: Self)
        ensures
            key.code == code,
            key.modifiers == modifiers,
    {
        KeyEvent { code, modifiers }
    }
}

/// What a key asks for while the table is shown.
#[derive(Clone, Copy, Debug, PartialEq, Eq, Structural)]
pub enum Action {
    Ignore,
    Quit,
    ShowHelp,
    MoveLeft,
    MoveDown,
    MoveUp,
    MoveRight,
    ScrollLeft,
    ScrollDown,
    ScrollUp,
    ScrollRight,
    PageUp,
    PageDown,
    Top,
    Bottom,
    ColStart,
    ColEnd,
    /// First press of `gg`.
    AwaitTop,
    PreviousSheet,
    NextSheet,
}

/// What a key asks for together with Ctrl.
pub open spec fn control_action(code: KeyCode) -> Action {
    match code {
        KeyCode::Char('f') => Action::PageDown,
        KeyCode::Char('b') => Action::PageUp,
        KeyCode::Char('c') => Action::Quit,
        _ => Action::Ignore,
    }
}

/// What a key asks for without Ctrl.
pub open spec fn plain_action(code: KeyCode, shift: bool) -> Action {
    match code {
        KeyCode::Char('q') => Action::Quit,
        KeyCode::Char('?') => Action::ShowHelp,
        KeyCode::Char('h') => Action::MoveLeft,
        KeyCode::Char('j') => Action::MoveDown,
        KeyCode::Char('k') => Action::MoveUp,
        KeyCode::Char('l') => Action::MoveRight,
        KeyCode::Char('H') => Action::ScrollLeft,
        KeyCode::Char('J') => Action::ScrollDown,
        KeyCode::Char('K') => Action::ScrollUp,
        KeyCode::Char('L') => Action::ScrollRight,
        KeyCode::Char('[') => Action::PreviousSheet,
        KeyCode::Char(']') => Action::NextSheet,
        KeyCode::Char('g') => Action::AwaitTop,
        KeyCode::Char('G') => Action::Bottom,
        KeyCode::Char('0') => Action::ColStart,
        KeyCode::Char('$') => Action::ColEnd,
        KeyCode::Char(_) => Action::Ignore,
        KeyCode::Esc => Action::Quit,
        KeyCode::Left => if shift {
            Action::ScrollLeft
        } else {
            Action::MoveLeft
        },
        KeyCode::Right => if shift {
            Action::ScrollRight
        } else {
            Action::MoveRight
        },
        KeyCode::Up => if shift {
            Action::ScrollUp
        } else {
            Action::MoveUp
        },
        KeyCode::Down => if shift {
            Action::ScrollDown
        } else {
            Action::MoveDown
        },
        KeyCode::PageDown => Action::PageDown,
        KeyCode::PageUp => Action::PageUp,
        KeyCode::Home => Action::Top,
        KeyCode::End => Action::Bottom,
        KeyCode::Other => Action::Ignore,
    }
}

/// What a key asks for while the table is shown.
pub open spec fn action_of(key: KeyEvent) -> Action {
    if key.modifiers.control {
        control_action(key.code)
    } else {
        plain_action(key.code, key.modifiers.shift)
    }
}

impl KeyEvent {
    /// What the key asks for while the table is shown.
    pub fn action(&self) -> (action: Action)
        ensures
            action == action_of(*self),
    {
        let shift = self.modifiers.shift;
        if self.modifiers.control {
            return match self.code {
                KeyCode::Char('f') => Action::PageDown,
                KeyCode::Char('b') => Action::PageUp,
                KeyCode::Char('c') => Action::Quit,
                _ => Action::Ignore,
            };
        }
        match self.code {
            KeyCode::Char('q') | KeyCode::Esc => Action::Quit,
            KeyCode::Char('?') => Action::ShowHelp,

            // Movement: hjkl
            KeyCode::Char('h') => Action::MoveLeft,
            KeyCode::Char('j') => Action::MoveDown,
            KeyCode::Char('k') => Action::MoveUp,
            KeyCode::Char('l') => Action::MoveRight,

            // View scroll: HJKL
            KeyCode::Char('H') => Action::ScrollLeft,
            KeyCode::Char('J') => Action::ScrollDown,
            KeyCode::Char('K') => Action::ScrollUp,
            KeyCode::Char('L') => Action::ScrollRight,

            // View scroll: Shift+arrows (same as HJKL)
            KeyCode::Left if shift => Action::ScrollLeft,
            KeyCode::Right if shift => Action::ScrollRight,
            KeyCode::Up if shift => Action::ScrollUp,
            KeyCode::Down if shift => Action::ScrollDown,

            // Arrow keys: cursor movement
            KeyCode::Left => Action::MoveLeft,
            KeyCode::Right => Action::MoveRight,
            KeyCode::Up => Action::MoveUp,
            KeyCode::Down => Action::MoveDown,

            // Sheet navigation: [ / ]
            KeyCode::Char('[') => Action::PreviousSheet,
            KeyCode::Char(']') => Action::NextSheet,

            // Jump: g (first press of gg) / G (last row) / 0 (first col) / $ (last col)
            KeyCode::Char('g') => Action::AwaitTop,
            KeyCode::Char('G') => Action::Bottom,
            KeyCode::Char('0') => Action::ColStart,
            KeyCode::Char('$') => Action::ColEnd,

            // Page up/down (without Ctrl)
            KeyCode::PageDown => Action::PageDown,
            KeyCode::PageUp => Action::PageUp,
            KeyCode::Home => Action::Top,
            KeyCode::End => Action::Bottom,
            _ => Action::Ignore,
        }
    }
}

/// Keys that do the same: arrows and `hjkl`, arrows with Shift and `HJKL`,
/// paging with and without Ctrl, End and `G`.
pub proof fn lemma_keys_that_agree(key: KeyEvent, shifted: KeyEvent, ctrl: KeyEvent)
    requires
        !key.modifiers.control && !key.modifiers.shift,
        !shifted.modifiers.control && shifted.modifiers.shift,
        ctrl.modifiers.control,
    ensures
        key.code == KeyCode::Left ==> action_of(key) == plain_action(KeyCode::Char('h'), false),
        key.code == KeyCode::Down ==> action_of(key) == plain_action(KeyCode::Char('j'), false),
        key.code == KeyCode::Up ==> action_of(key) == plain_action(KeyCode::Char('k'), false),
        key.code == KeyCode::Right ==> action_of(key) == plain_action(KeyCode::Char('l'), false),
        shifted.code == KeyCode::Left ==> action_of(shifted) == plain_action(
            KeyCode::Char('H'),
            true,
        ),
        shifted.code == KeyCode::Down ==> action_of(shifted) == plain_action(
            KeyCode::Char('J'),
            true,
        ),
        shifted.code == KeyCode::Up ==> action_of(shifted) == plain_action(
            KeyCode::Char('K'),
            true,
        ),
        shifted.code == KeyCode::Right ==> action_of(shifted) == plain_action(
            KeyCode::Char('L'),
            true,
        ),
        ctrl.code == KeyCode::Char('f') ==> action_of(ctrl) == plain_action(
            KeyCode::PageDown,
            false,
        ),
        ctrl.code == KeyCode::Char('b') ==> action_of(ctrl) == plain_action(
            KeyCode::PageUp,
            false,
        ),
        key.code == KeyCode::End ==> action_of(key) == plain_action(KeyCode::Char('G'), false),
{
}

} // verus!
