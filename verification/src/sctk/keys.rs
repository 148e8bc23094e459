//! Meaning of Wayland input codes: keysyms as logical keys and Linux
//! `BTN_*` codes as mouse buttons.

use vstd::prelude::*;

verus! {

/// What a key means, independent of the layout position that produced it.
#[derive(Clone, Debug, PartialEq, Eq)]
pub enum LogicalKey {
    Enter,
    Escape,
    Backspace,
    Tab,
    Space,
    ArrowLeft,
    ArrowRight,
    ArrowUp,
    ArrowDown,
    Home,
    End,
    PageUp,
    PageDown,
    Insert,
    Delete,
    Shift,
    Control,
    Alt,
    AltGraph,
    Super,
    CapsLock,
    NumLock,
    ContextMenu,
    /// Function key `F(n)`, counted from 1.
    F(u8),
    /// A dead key (a combining accent awaiting the next key).
    Dead,
    /// A key that produces text.
    Character(String),
    Unknown,
}

/// First and last function keysyms (`F1` and `F35`).
pub const KEYSYM_F1: u32 = 0xffbe;
pub const KEYSYM_F35: u32 = 0xffe0;

/// First dead-key keysym (`dead_grave`) and the last of the dead-key block.
pub const KEYSYM_DEAD_FIRST: u32 = 0xfe50;
pub const KEYSYM_DEAD_LAST: u32 = 0xfe93;

/// The logical key of keysym `k` when it does not depend on the text the
/// key produced: named keys (keypad variants included), function keys and
/// dead keys. `None` for every other keysym.
pub open spec fn named_key(k: u32) -> Option<LogicalKey> {
    if k == 0xff0d || k == 0xff8d || k == 0xfe34 || k == 0xff0a {
        // Return, KP_Enter, ISO_Enter, Linefeed
        Some(LogicalKey::Enter)
    } else if k == 0xff1b {
        Some(LogicalKey::Escape)
    } else if k == 0xff08 {
        Some(LogicalKey::Backspace)
    } else if k == 0xff09 || k == 0xfe20 || k == 0xff89 {
        // Tab, ISO_Left_Tab, KP_Tab
        Some(LogicalKey::Tab)
    } else if k == 0x0020 || k == 0xff80 {
        Some(LogicalKey::Space)
    } else if k == 0xff51 || k == 0xff96 {
        Some(LogicalKey::ArrowLeft)
    } else if k == 0xff53 || k == 0xff98 {
        Some(LogicalKey::ArrowRight)
    } else if k == 0xff52 || k == 0xff97 {
        Some(LogicalKey::ArrowUp)
    } else if k == 0xff54 || k == 0xff99 {
        Some(LogicalKey::ArrowDown)
    } else if k == 0xff50 || k == 0xff95 {
        Some(LogicalKey::Home)
    } else if k == 0xff57 || k == 0xff9c {
        Some(LogicalKey::End)
    } else if k == 0xff55 || k == 0xff9a {
        Some(LogicalKey::PageUp)
    } else if k == 0xff56 || k == 0xff9b {
        Some(LogicalKey::PageDown)
    } else if k == 0xff63 || k == 0xff9e {
        Some(LogicalKey::Insert)
    } else if k == 0xffff || k == 0xff9f {
        Some(LogicalKey::Delete)
    } else if k == 0xffe1 || k == 0xffe2 {
        Some(LogicalKey::Shift)
    } else if k == 0xffe3 || k == 0xffe4 {
        Some(LogicalKey::Control)
    } else if k == 0xffe9 || k == 0xffea {
        Some(LogicalKey::Alt)
    } else if k == 0xfe03 || k == 0xff7e {
        // ISO_Level3_Shift, Mode_switch
        Some(LogicalKey::AltGraph)
    } else if k == 0xffeb || k == 0xffec || k == 0xffe7 || k == 0xffe8 {
        // Super_L, Super_R, Meta_L, Meta_R
        Some(LogicalKey::Super)
    } else if k == 0xffe5 {
        Some(LogicalKey::CapsLock)
    } else if k == 0xff7f {
        Some(LogicalKey::NumLock)
    } else if k == 0xff67 {
        Some(LogicalKey::ContextMenu)
    } else if KEYSYM_F1 <= k <= KEYSYM_F35 {
        Some(LogicalKey::F((k - KEYSYM_F1 + 1) as u8))
    } else if KEYSYM_DEAD_FIRST <= k <= KEYSYM_DEAD_LAST {
        Some(LogicalKey::Dead)
    } else {
        None
    }
}

/// The X keysym `Return`.
pub const XK_RETURN: u32 = 0xff0d;
/// The X keysym `KP_Enter`.
pub const XK_KP_ENTER: u32 = 0xff8d;
/// The X keysym `ISO_Enter`.
pub const XK_ISO_ENTER: u32 = 0xfe34;
/// The X keysym `Linefeed`.
pub const XK_LINEFEED: u32 = 0xff0a;
/// The X keysym `Escape`.
pub const XK_ESCAPE: u32 = 0xff1b;
/// The X keysym `BackSpace`.
pub const XK_BACKSPACE: u32 = 0xff08;
/// The X keysym `Tab`.
pub const XK_TAB: u32 = 0xff09;
/// The X keysym `ISO_Left_Tab`.
pub const XK_ISO_LEFT_TAB: u32 = 0xfe20;
/// The X keysym `KP_Tab`.
pub const XK_KP_TAB: u32 = 0xff89;
/// The X keysym `space`.
pub const XK_SPACE: u32 = 0x0020;
/// The X keysym `KP_Space`.
pub const XK_KP_SPACE: u32 = 0xff80;
/// The X keysym `Left`.
pub const XK_LEFT: u32 = 0xff51;
/// The X keysym `KP_Left`.
pub const XK_KP_LEFT: u32 = 0xff96;
/// The X keysym `Right`.
pub const XK_RIGHT: u32 = 0xff53;
/// The X keysym `KP_Right`.
pub const XK_KP_RIGHT: u32 = 0xff98;
/// The X keysym `Up`.
pub const XK_UP: u32 = 0xff52;
/// The X keysym `KP_Up`.
pub const XK_KP_UP: u32 = 0xff97;
/// The X keysym `Down`.
pub const XK_DOWN: u32 = 0xff54;
/// The X keysym `KP_Down`.
pub const XK_KP_DOWN: u32 = 0xff99;
/// The X keysym `Home`.
pub const XK_HOME: u32 = 0xff50;
/// The X keysym `KP_Home`.
pub const XK_KP_HOME: u32 = 0xff95;
/// The X keysym `End`.
pub const XK_END: u32 = 0xff57;
/// The X keysym `KP_End`.
pub const XK_KP_END: u32 = 0xff9c;
/// The X keysym `Page_Up`.
pub const XK_PAGE_UP: u32 = 0xff55;
/// The X keysym `KP_Page_Up`.
pub const XK_KP_PAGE_UP: u32 = 0xff9a;
/// The X keysym `Page_Down`.
pub const XK_PAGE_DOWN: u32 = 0xff56;
/// The X keysym `KP_Page_Down`.
pub const XK_KP_PAGE_DOWN: u32 = 0xff9b;
/// The X keysym `Insert`.
pub const XK_INSERT: u32 = 0xff63;
/// The X keysym `KP_Insert`.
pub const XK_KP_INSERT: u32 = 0xff9e;
/// The X keysym `Delete`.
pub const XK_DELETE: u32 = 0xffff;
/// The X keysym `KP_Delete`.
pub const XK_KP_DELETE: u32 = 0xff9f;
/// The X keysym `Shift_L`.
pub const XK_SHIFT_L: u32 = 0xffe1;
/// The X keysym `Shift_R`.
pub const XK_SHIFT_R: u32 = 0xffe2;
/// The X keysym `Control_L`.
pub const XK_CONTROL_L: u32 = 0xffe3;
/// The X keysym `Control_R`.
pub const XK_CONTROL_R: u32 = 0xffe4;
/// The X keysym `Alt_L`.
pub const XK_ALT_L: u32 = 0xffe9;
/// The X keysym `Alt_R`.
pub const XK_ALT_R: u32 = 0xffea;
/// The X keysym `ISO_Level3_Shift`.
pub const XK_ISO_LEVEL3_SHIFT: u32 = 0xfe03;
/// The X keysym `Mode_switch`.
pub const XK_MODE_SWITCH: u32 = 0xff7e;
/// The X keysym `Super_L`.
pub const XK_SUPER_L: u32 = 0xffeb;
/// The X keysym `Super_R`.
pub const XK_SUPER_R: u32 = 0xffec;
/// The X keysym `Meta_L`.
pub const XK_META_L: u32 = 0xffe7;
/// The X keysym `Meta_R`.
pub const XK_META_R: u32 = 0xffe8;
/// The X keysym `Caps_Lock`.
pub const XK_CAPS_LOCK: u32 = 0xffe5;
/// The X keysym `Num_Lock`.
pub const XK_NUM_LOCK: u32 = 0xff7f;
/// The X keysym `Menu`.
pub const XK_MENU: u32 = 0xff67;

/// What each named keysym means, over every keysym: a key is `ArrowUp`
/// exactly when its keysym is `Up` or `KP_Up`, and so on for every named
/// key; a function key `F(n)` comes exactly from `F1 + n - 1` for `n` from
/// 1 to 35; a dead key exactly from the dead-key block; and every other
/// keysym names no key (its text decides).
pub proof fn lemma_keysym_meanings(k: u32)
    ensures
        (named_key(k) == Some(LogicalKey::Enter)) <==> (k == XK_RETURN || k == XK_KP_ENTER || k == XK_ISO_ENTER || k == XK_LINEFEED),
        (named_key(k) == Some(LogicalKey::Escape)) <==> (k == XK_ESCAPE),
        (named_key(k) == Some(LogicalKey::Backspace)) <==> (k == XK_BACKSPACE),
        (named_key(k) == Some(LogicalKey::Tab)) <==> (k == XK_TAB || k == XK_ISO_LEFT_TAB || k == XK_KP_TAB),
        (named_key(k) == Some(LogicalKey::Space)) <==> (k == XK_SPACE || k == XK_KP_SPACE),
        (named_key(k) == Some(LogicalKey::ArrowLeft)) <==> (k == XK_LEFT || k == XK_KP_LEFT),
        (named_key(k) == Some(LogicalKey::ArrowRight)) <==> (k == XK_RIGHT || k == XK_KP_RIGHT),
        (named_key(k) == Some(LogicalKey::ArrowUp)) <==> (k == XK_UP || k == XK_KP_UP),
        (named_key(k) == Some(LogicalKey::ArrowDown)) <==> (k == XK_DOWN || k == XK_KP_DOWN),
        (named_key(k) == Some(LogicalKey::Home)) <==> (k == XK_HOME || k == XK_KP_HOME),
        (named_key(k) == Some(LogicalKey::End)) <==> (k == XK_END || k == XK_KP_END),
        (named_key(k) == Some(LogicalKey::PageUp)) <==> (k == XK_PAGE_UP || k == XK_KP_PAGE_UP),
        (named_key(k) == Some(LogicalKey::PageDown)) <==> (k == XK_PAGE_DOWN || k == XK_KP_PAGE_DOWN),
        (named_key(k) == Some(LogicalKey::Insert)) <==> (k == XK_INSERT || k == XK_KP_INSERT),
        (named_key(k) == Some(LogicalKey::Delete)) <==> (k == XK_DELETE || k == XK_KP_DELETE),
        (named_key(k) == Some(LogicalKey::Shift)) <==> (k == XK_SHIFT_L || k == XK_SHIFT_R),
        (named_key(k) == Some(LogicalKey::Control)) <==> (k == XK_CONTROL_L || k == XK_CONTROL_R),
        (named_key(k) == Some(LogicalKey::Alt)) <==> (k == XK_ALT_L || k == XK_ALT_R),
        (named_key(k) == Some(LogicalKey::AltGraph)) <==> (k == XK_ISO_LEVEL3_SHIFT || k == XK_MODE_SWITCH),
        (named_key(k) == Some(LogicalKey::Super)) <==> (k == XK_SUPER_L || k == XK_SUPER_R || k == XK_META_L || k == XK_META_R),
        (named_key(k) == Some(LogicalKey::CapsLock)) <==> (k == XK_CAPS_LOCK),
        (named_key(k) == Some(LogicalKey::NumLock)) <==> (k == XK_NUM_LOCK),
        (named_key(k) == Some(LogicalKey::ContextMenu)) <==> (k == XK_MENU),
        (named_key(k) matches Some(LogicalKey::F(n))) <==> (KEYSYM_F1 <= k <= KEYSYM_F35),
        (named_key(k) matches Some(LogicalKey::F(n)) ==> n == k - KEYSYM_F1 + 1 && 1 <= n <= 35),
        (named_key(k) == Some(LogicalKey::Dead)) <==> (KEYSYM_DEAD_FIRST <= k <= KEYSYM_DEAD_LAST),
        named_key(k) is None <==> !(k == XK_RETURN || k == XK_KP_ENTER || k == XK_ISO_ENTER || k == XK_LINEFEED || k == XK_ESCAPE || k == XK_BACKSPACE || k == XK_TAB || k == XK_ISO_LEFT_TAB || k == XK_KP_TAB || k == XK_SPACE || k == XK_KP_SPACE || k == XK_LEFT || k == XK_KP_LEFT || k == XK_RIGHT || k == XK_KP_RIGHT || k == XK_UP || k == XK_KP_UP || k == XK_DOWN || k == XK_KP_DOWN || k == XK_HOME || k == XK_KP_HOME || k == XK_END || k == XK_KP_END || k == XK_PAGE_UP || k == XK_KP_PAGE_UP || k == XK_PAGE_DOWN || k == XK_KP_PAGE_DOWN || k == XK_INSERT || k == XK_KP_INSERT || k == XK_DELETE || k == XK_KP_DELETE || k == XK_SHIFT_L || k == XK_SHIFT_R || k == XK_CONTROL_L || k == XK_CONTROL_R || k == XK_ALT_L || k == XK_ALT_R || k == XK_ISO_LEVEL3_SHIFT || k == XK_MODE_SWITCH || k == XK_SUPER_L || k == XK_SUPER_R || k == XK_META_L || k == XK_META_R || k == XK_CAPS_LOCK || k == XK_NUM_LOCK || k == XK_MENU
            || KEYSYM_F1 <= k <= KEYSYM_F35 || KEYSYM_DEAD_FIRST <= k <= KEYSYM_DEAD_LAST),
{
}

/// The logical key of keysym `keysym` (its raw value) that produced the
/// text `utf8`: the named key when there is one, else the text, else
/// `Unknown`.
pub fn map_keysym_to_logical(keysym: u32, utf8: Option<&str>) -> (r: LogicalKey)
    ensures
        match named_key(keysym) {
            Some(key) => r == key,
            None => match utf8 {
                Some(s) => (r matches LogicalKey::Character(t) && t@ == s@),
                None => r == LogicalKey::Unknown,
            },
        },
{
    let k = keysym;
    if k == 0xff0d || k == 0xff8d || k == 0xfe34 || k == 0xff0a {
        LogicalKey::Enter
    } else if k == 0xff1b {
        LogicalKey::Escape
    } else if k == 0xff08 {
        LogicalKey::Backspace
    } else if k == 0xff09 || k == 0xfe20 || k == 0xff89 {
        LogicalKey::Tab
    } else if k == 0x0020 || k == 0xff80 {
        LogicalKey::Space
    } else if k == 0xff51 || k == 0xff96 {
        LogicalKey::ArrowLeft
    } else if k == 0xff53 || k == 0xff98 {
        LogicalKey::ArrowRight
    } else if k == 0xff52 || k == 0xff97 {
        LogicalKey::ArrowUp
    } else if k == 0xff54 || k == 0xff99 {
        LogicalKey::ArrowDown
    } else if k == 0xff50 || k == 0xff95 {
        LogicalKey::Home
    } else if k == 0xff57 || k == 0xff9c {
        LogicalKey::End
    } else if k == 0xff55 || k == 0xff9a {
        LogicalKey::PageUp
    } else if k == 0xff56 || k == 0xff9b {
        LogicalKey::PageDown
    } else if k == 0xff63 || k == 0xff9e {
        LogicalKey::Insert
    } else if k == 0xffff || k == 0xff9f {
        LogicalKey::Delete
    } else if k == 0xffe1 || k == 0xffe2 {
        LogicalKey::Shift
    } else if k == 0xffe3 || k == 0xffe4 {
        LogicalKey::Control
    } else if k == 0xffe9 || k == 0xffea {
        LogicalKey::Alt
    } else if k == 0xfe03 || k == 0xff7e {
        LogicalKey::AltGraph
    } else if k == 0xffeb || k == 0xffec || k == 0xffe7 || k == 0xffe8 {
        LogicalKey::Super
    } else if k == 0xffe5 {
        LogicalKey::CapsLock
    } else if k == 0xff7f {
        LogicalKey::NumLock
    } else if k == 0xff67 {
        LogicalKey::ContextMenu
    } else if KEYSYM_F1 <= k && k <= KEYSYM_F35 {
        LogicalKey::F((k - KEYSYM_F1 + 1) as u8)
    } else if KEYSYM_DEAD_FIRST <= k && k <= KEYSYM_DEAD_LAST {
        LogicalKey::Dead
    } else {
        match utf8 {
            Some(s) => LogicalKey::Character(s.to_string()),
            None => LogicalKey::Unknown,
        }
    }
}

/// A mouse button.
#[derive(Clone, Copy, Debug, PartialEq, Eq, Structural)]
pub enum MouseButton {
    Left,
    Right,
    Middle,
    Back,
    Forward,
    /// Any other button, by its code.
    Other(u16),
}

/// The button of Linux input code `code` (`BTN_LEFT` 272 to `BTN_EXTRA`
/// 276); any other code is `Other` with the code's low 16 bits.
pub fn mouse_button(code: u32) -> (r: MouseButton)
    ensures
        r == (if code == 272 {
            MouseButton::Left
        } else if code == 273 {
            MouseButton::Right
        } else if code == 274 {
            MouseButton::Middle
        } else if code == 275 {
            MouseButton::Back
        } else if code == 276 {
            MouseButton::Forward
        } else {
            MouseButton::Other(code as u16)
        }),
{
    if code == 272 {
        MouseButton::Left
    } else if code == 273 {
        MouseButton::Right
    } else if code == 274 {
        MouseButton::Middle
    } else if code == 275 {
        MouseButton::Back
    } else if code == 276 {
        MouseButton::Forward
    } else {
        MouseButton::Other(code as u16)
    }
}

} // verus!
