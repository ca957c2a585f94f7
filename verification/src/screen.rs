//! What the screen needs worked out before it can draw: the part of the map
//! that fits, and the colours that the configuration names.

use crate::state::GameState;
use vstd::prelude::*;
use vstd::string::StrSliceExecFns;

verus! {

/// The part of the map that the screen shows: where it starts, and how many
/// tiles it spans either way.
#[derive(Clone, Copy, Debug, PartialEq, Eq, Structural)]
pub struct Viewport {
    pub start_x: usize,
    pub start_y: usize,
    pub width: usize,
    pub height: usize,
}

/// How many tiles fit along one axis: the cells of the screen less the two
/// of the frame, divided by the zoom, and never more than the map has.
pub open spec fn visible(cells: usize, zoom: u8, length: usize) -> int {
    let room = if cells >= 2 {
        (cells - 2) / (zoom as int)
    } else {
        0
    };
    if room < length {
        room
    } else {
        length as int
    }
}

/// Where the view starts along one axis: at the camera, or as near to it as
/// lets the view end on the map.
pub open spec fn view_start(camera: i32, length: usize, shown: int) -> int {
    let last = length - shown;
    if camera < 0 {
        0
    } else if camera < last {
        camera as int
    } else {
        last
    }
}

impl GameState {
    /// The part of the map to show on a screen of the given size in cells.
    pub fn viewport(&self, columns: usize, rows: usize) -> (v: Viewport)
        requires
            self.zoom_level >= 1,
        ensures
            v.width == visible(columns, self.zoom_level, self.map.width),
            v.height == visible(rows, self.zoom_level, self.map.height),
            v.start_x == view_start(self.camera_x, self.map.width, v.width as int),
            v.start_y == view_start(self.camera_y, self.map.height, v.height as int),
            v.start_x + v.width <= self.map.width,
            v.start_y + v.height <= self.map.height,
    {
        let width = Self::shown(columns, self.zoom_level, self.map.width);
        let height = Self::shown(rows, self.zoom_level, self.map.height);
        Viewport {
            start_x: Self::start(self.camera_x, self.map.width, width),
            start_y: Self::start(self.camera_y, self.map.height, height),
            width,
            height,
        }
    }

    fn shown(cells: usize, zoom: u8, length: usize) -> (r: usize)
        requires
            zoom >= 1,
        ensures
            r == visible(cells, zoom, length),
            r <= length,
    {
        let room = if cells >= 2 {
            (cells - 2) / (zoom as usize)
        } else {
            0
        };
        if room < length {
            room
        } else {
            length
        }
    }

    fn start(camera: i32, length: usize, shown: usize) -> (r: usize)
        requires
            shown <= length,
        ensures
            r == view_start(camera, length, shown as int),
            r + shown <= length,
    {
        let last = length - shown;
        if camera < 0 {
            0
        } else if (camera as usize) < last {
            camera as usize
        } else {
            last
        }
    }
}

/// The value of a hexadecimal digit, if the character is one.
pub open spec fn hex_value(c: char) -> Option<u8> {
    if '0' <= c <= '9' {
        Some((c as u8 - '0' as u8) as u8)
    } else if 'a' <= c <= 'f' {
        Some((c as u8 - 'a' as u8 + 10) as u8)
    } else if 'A' <= c <= 'F' {
        Some((c as u8 - 'A' as u8 + 10) as u8)
    } else {
        None
    }
}

/// The byte that two hexadecimal digits denote.
pub open spec fn hex_byte(high: char, low: char) -> Option<u8> {
    match (hex_value(high), hex_value(low)) {
        (Some(h), Some(l)) => Some((h * 16 + l) as u8),
        _ => None,
    }
}

/// The colour that a text of the form `#RRGGBB` names: red, green and blue.
pub open spec fn hex_color(text: Seq<char>) -> Option<(u8, u8, u8)> {
    if text.len() == 7 && text[0] == '#' {
        match (hex_byte(text[1], text[2]), hex_byte(text[3], text[4]), hex_byte(text[5], text[6])) {
            (Some(r), Some(g), Some(b)) => Some((r, g, b)),
            _ => None,
        }
    } else {
        None
    }
}

fn hex_digit(c: char) -> (r: Option<u8>)
    ensures
        r == hex_value(c),
        r matches Some(v) ==> v < 16,
{
    if '0' <= c && c <= '9' {
        Some(c as u8 - '0' as u8)
    } else if 'a' <= c && c <= 'f' {
        Some(c as u8 - 'a' as u8 + 10)
    } else if 'A' <= c && c <= 'F' {
        Some(c as u8 - 'A' as u8 + 10)
    } else {
        None
    }
}

fn hex_pair(high: char, low: char) -> (r: Option<u8>)
    ensures
        r == hex_byte(high, low),
{
    match (hex_digit(high), hex_digit(low)) {
        (Some(h), Some(l)) => Some(h * 16 + l),
        _ => None,
    }
}

/// Reads a colour of the form `#RRGGBB`.
pub fn parse_hex_color(text: &str) -> (r: Option<(u8, u8, u8)>)
    ensures
        r == hex_color(text@),
{
    if text.unicode_len() != 7 {
        return None;
    }
    if text.get_char(0) != '#' {
        return None;
    }
    let red = hex_pair(text.get_char(1), text.get_char(2));
    let green = hex_pair(text.get_char(3), text.get_char(4));
    let blue = hex_pair(text.get_char(5), text.get_char(6));
    match (red, green, blue) {
        (Some(r), Some(g), Some(b)) => Some((r, g, b)),
        _ => None,
    }
}

} // verus!
