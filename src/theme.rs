//! The colour theme: which colour each part of the screen takes, written as
//! `#rrggbb` strings, and the reading of such a string.
use vstd::prelude::*;
use crate::text::chars_of;

verus! {

#[derive(Debug)]
pub struct Theme {
    pub status: StatusSytle,
    pub tabs: TabsStyle,
    pub editor: EditorStyle,
    pub command: CommandStyle,
    pub popup: PopupStyle,
}

#[derive(Debug)]
pub struct StatusSytle {
    pub foreground: String,
}

#[derive(Debug)]
pub struct PopupStyle {
    pub bg: String,
    pub fg: String,
    pub error_fg: String,
    pub error_bg: String,
}

#[derive(Debug)]
pub struct TabsStyle {
    pub active_bg: String,
    pub active_fg: String,
    pub inactive_bg: String,
    pub inactive_fg: String,
}

#[derive(Debug)]
pub struct EditorStyle {
    pub background: String,
    pub foreground: String,
    pub highlights: String,
    pub cursor: String,
}

#[derive(Debug)]
pub struct CommandStyle {
    pub background: String,
    pub foreground: String,
    pub cursor: String,
}

impl Default for StatusSytle {
    fn default() -> (r: Self)
        ensures
            r.foreground@ == "#ffffff"@,
    {
        StatusSytle { foreground: "#ffffff".to_owned() }
    }
}

impl Default for PopupStyle {
    fn default() -> (r: Self)
        ensures
            r.bg@ == "#ffffff"@,
            r.fg@ == "#000000"@,
            r.error_fg@ == "#ff0000"@,
            r.error_bg@ == "#000000"@,
    {
        PopupStyle {
            bg: "#ffffff".to_owned(),
            fg: "#000000".to_owned(),
            error_fg: "#ff0000".to_owned(),
            error_bg: "#000000".to_owned(),
        }
    }
}

impl Default for TabsStyle {
    fn default() -> (r: Self)
        ensures
            r.active_fg@ == "#ffffff"@,
            r.active_bg@ == "#ffffff"@,
            r.inactive_fg@ == "#e7e7e7"@,
            r.inactive_bg@ == "#d5d5d5"@,
    {
        TabsStyle {
            active_fg: "#ffffff".to_owned(),
            active_bg: "#ffffff".to_owned(),
            inactive_fg: "#e7e7e7".to_owned(),
            inactive_bg: "#d5d5d5".to_owned(),
        }
    }
}

impl Default for EditorStyle {
    fn default() -> (r: Self)
        ensures
            r.background@ == "#ffffff"@,
            r.foreground@ == "#ffffff"@,
            r.highlights@ == "#f9d800"@,
            r.cursor@ == "#0087f9"@,
    {
        EditorStyle {
            background: "#ffffff".to_owned(),
            foreground: "#ffffff".to_owned(),
            highlights: "#f9d800".to_owned(),
            cursor: "#0087f9".to_owned(),
        }
    }
}

impl Default for CommandStyle {
    fn default() -> (r: Self)
        ensures
            r.background@ == "#ffffff"@,
            r.foreground@ == "#ffffff"@,
            r.cursor@ == "#0087f9"@,
    {
        CommandStyle {
            background: "#ffffff".to_owned(),
            foreground: "#ffffff".to_owned(),
            cursor: "#0087f9".to_owned(),
        }
    }
}

impl Default for Theme {
    fn default() -> (r: Self)
        ensures
            r.status.foreground@ == "#ffffff"@,
            r.editor.highlights@ == "#f9d800"@,
            r.editor.cursor@ == "#0087f9"@,
            r.command.cursor@ == "#0087f9"@,
            r.popup.error_fg@ == "#ff0000"@,
            r.tabs.inactive_bg@ == "#d5d5d5"@,
    {
        Theme {
            editor: EditorStyle::default(),
            command: CommandStyle::default(),
            tabs: TabsStyle::default(),
            status: StatusSytle::default(),
            popup: PopupStyle::default(),
        }
    }
}

/// The value of a hexadecimal digit.
pub open spec fn hex_digit(c: char) -> Option<u8> {
    let u = c as u32;
    if 0x30 <= u <= 0x39 {
        Some((u - 0x30) as u8)
    } else if 0x61 <= u <= 0x66 {
        Some((u - 0x61 + 10) as u8)
    } else if 0x41 <= u <= 0x46 {
        Some((u - 0x41 + 10) as u8)
    } else {
        None
    }
}

/// A two-character colour channel read as a base-16 number (a leading `+`
/// is allowed); 0 where it is not one.
pub open spec fn channel(a: char, b: char) -> u8 {
    if hex_digit(a) is Some && hex_digit(b) is Some {
        (16 * hex_digit(a)->Some_0 + hex_digit(b)->Some_0) as u8
    } else if a == '+' && hex_digit(b) is Some {
        hex_digit(b)->Some_0
    } else {
        0
    }
}

/// The red, green and blue of a `#rrggbb` string; `None` for a string of
/// another shape.
pub open spec fn rgb_of(h: Seq<char>) -> Option<(u8, u8, u8)> {
    if h.len() == 7 && h[0] == '#' {
        Some((channel(h[1], h[2]), channel(h[3], h[4]), channel(h[5], h[6])))
    } else {
        None
    }
}

fn digit(c: char) -> (r: Option<u8>)
    ensures
        r == hex_digit(c),
{
    let u = c as u32;
    if 0x30 <= u && u <= 0x39 {
        Some((u - 0x30) as u8)
    } else if 0x61 <= u && u <= 0x66 {
        Some((u - 0x61 + 10) as u8)
    } else if 0x41 <= u && u <= 0x46 {
        Some((u - 0x41 + 10) as u8)
    } else {
        None
    }
}

fn read_channel(a: char, b: char) -> (r: u8)
    ensures
        r == channel(a, b),
{
    match (digit(a), digit(b)) {
        (Some(x), Some(y)) => 16 * x + y,
        (None, Some(y)) => if a == '+' {
            y
        } else {
            0
        },
        _ => 0,
    }
}

/// Reads a `#rrggbb` colour.
pub fn hex_to_rgb(hex: &str) -> (r: Option<(u8, u8, u8)>)
    ensures
        r == rgb_of(hex@),
{
    let h = chars_of(hex);
    if h.len() == 7 && h[0] == '#' {
        Some((read_channel(h[1], h[2]), read_channel(h[3], h[4]), read_channel(h[5], h[6])))
    } else {
        None
    }
}

} // verus!
