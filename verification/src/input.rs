//! Keyboard input: the keys the terminal reports and the commands they
//! stand for.
use vstd::prelude::*;

verus! {

/// A key as the terminal reports it.
#[derive(Clone, Copy, Debug, PartialEq, Eq, Structural)]
pub enum KeyCode {
    Backspace,
    Enter,
    Left,
    Right,
    Up,
    Down,
    Home,
    End,
    PageUp,
    PageDown,
    Tab,
    BackTab,
    Delete,
    Insert,
    /// A function key, `F(n)`.
    F(u8),
    Char(char),
    Null,
    Esc,
    /// Any other key.
    Other,
}

/// The Shift modifier bit.
pub const MOD_SHIFT: u8 = 0b0000_0001;

/// The Control modifier bit.
pub const MOD_CONTROL: u8 = 0b0000_0010;

/// The Alt modifier bit.
pub const MOD_ALT: u8 = 0b0000_0100;

/// A key press: the key and the modifier bits held with it.
#[derive(Clone, Copy, Debug, PartialEq, Eq, Structural)]
pub struct KeyInput {
    pub code: KeyCode,
    pub modifiers: u8,
}

/// The commands of the interface.
#[derive(Clone, Copy, Debug, PartialEq, Eq, Structural)]
pub enum InputEvent {
    NextPanel,
    PrevPanel,
    NextItem,
    PrevItem,
    NextDevice,
    PrevDevice,
    ShowOptions,
    SaveSettings,
    ReloadSettings,
    Quit,
    Reset,
    Pause,
    ToggleTrafficUnits,
    ToggleDataUnits,
    ToggleGraphs,
    ToggleMultiple,
    ZoomIn,
    ZoomOut,
    IncreaseRefresh,
    DecreaseRefresh,
    IncreaseAverage,
    DecreaseAverage,
    Unknown,
}

/// The command a key press stands for: Tab and Shift+Tab (or BackTab)
/// move between panels, arrows and `hjkl` between items and devices,
/// Enter toggles the multiple-device view, F2/F5/F6 open the options,
/// save and reload the settings, Esc, `q` and Ctrl+C quit, and single letters and
/// signs toggle the other settings.
pub open spec fn event_for_key(k: KeyInput) -> InputEvent {
    match k.code {
        KeyCode::Tab => if k.modifiers == 0 {
            InputEvent::NextPanel
        } else if k.modifiers == MOD_SHIFT {
            InputEvent::PrevPanel
        } else {
            InputEvent::Unknown
        },
        KeyCode::BackTab => InputEvent::PrevPanel,
        KeyCode::Down => InputEvent::NextItem,
        KeyCode::Up => InputEvent::PrevItem,
        KeyCode::Right => InputEvent::NextDevice,
        KeyCode::Left => InputEvent::PrevDevice,
        KeyCode::Enter => InputEvent::ToggleMultiple,
        KeyCode::F(n) => if n == 2 {
            InputEvent::ShowOptions
        } else if n == 5 {
            InputEvent::SaveSettings
        } else if n == 6 {
            InputEvent::ReloadSettings
        } else {
            InputEvent::Unknown
        },
        KeyCode::Esc => InputEvent::Quit,
        KeyCode::Char(c) => if c == 'c' && k.modifiers & MOD_CONTROL != 0 {
            InputEvent::Quit
        } else {
            char_event(c)
        },
        _ => InputEvent::Unknown,
    }
}

/// The command of a character key.
pub open spec fn char_event(c: char) -> InputEvent {
    if c == 'j' {
        InputEvent::NextItem
    } else if c == 'k' {
        InputEvent::PrevItem
    } else if c == 'l' {
        InputEvent::NextDevice
    } else if c == 'h' {
        InputEvent::PrevDevice
    } else if c == 'q' {
        InputEvent::Quit
    } else if c == 'r' {
        InputEvent::Reset
    } else if c == ' ' {
        InputEvent::Pause
    } else if c == 'u' {
        InputEvent::ToggleTrafficUnits
    } else if c == 'U' {
        InputEvent::ToggleDataUnits
    } else if c == 'g' {
        InputEvent::ToggleGraphs
    } else if c == '+' {
        InputEvent::ZoomIn
    } else if c == '-' {
        InputEvent::ZoomOut
    } else if c == '>' {
        InputEvent::IncreaseRefresh
    } else if c == '<' {
        InputEvent::DecreaseRefresh
    } else if c == ']' {
        InputEvent::IncreaseAverage
    } else if c == '[' {
        InputEvent::DecreaseAverage
    } else {
        InputEvent::Unknown
    }
}

fn char_event_exec(c: char) -> (e: InputEvent)
    ensures
        e == char_event(c),
{
    match c {
        'j' => InputEvent::NextItem,
        'k' => InputEvent::PrevItem,
        'l' => InputEvent::NextDevice,
        'h' => InputEvent::PrevDevice,
        'q' => InputEvent::Quit,
        'r' => InputEvent::Reset,
        ' ' => InputEvent::Pause,
        'u' => InputEvent::ToggleTrafficUnits,
        'U' => InputEvent::ToggleDataUnits,
        'g' => InputEvent::ToggleGraphs,
        '+' => InputEvent::ZoomIn,
        '-' => InputEvent::ZoomOut,
        '>' => InputEvent::IncreaseRefresh,
        '<' => InputEvent::DecreaseRefresh,
        ']' => InputEvent::IncreaseAverage,
        '[' => InputEvent::DecreaseAverage,
        _ => InputEvent::Unknown,
    }
}

impl InputEvent {
    /// The command a key press stands for (see `event_for_key`).
    pub fn from_key_event(key_event: KeyInput) -> (e: InputEvent)
        ensures
            e == event_for_key(key_event),
    {
        match key_event.code {
            KeyCode::Tab => {
                if key_event.modifiers == 0 {
                    InputEvent::NextPanel
                } else if key_event.modifiers == MOD_SHIFT {
                    InputEvent::PrevPanel
                } else {
                    InputEvent::Unknown
                }
            },
            KeyCode::BackTab => InputEvent::PrevPanel,
            KeyCode::Down => InputEvent::NextItem,
            KeyCode::Up => InputEvent::PrevItem,
            KeyCode::Right => InputEvent::NextDevice,
            KeyCode::Left => InputEvent::PrevDevice,
            KeyCode::Enter => InputEvent::ToggleMultiple,
            KeyCode::F(n) => {
                if n == 2 {
                    InputEvent::ShowOptions
                } else if n == 5 {
                    InputEvent::SaveSettings
                } else if n == 6 {
                    InputEvent::ReloadSettings
                } else {
                    InputEvent::Unknown
                }
            },
            KeyCode::Esc => InputEvent::Quit,
            KeyCode::Char(c) => {
                if c == 'c' && key_event.modifiers & MOD_CONTROL != 0 {
                    InputEvent::Quit
                } else {
                    char_event_exec(c)
                }
            },
            _ => InputEvent::Unknown,
        }
    }
}

} // verus!
