use vstd::prelude::*;

use crate::ansi::SelectGraphicRendition;
use crate::bytes::str_eq;
use crate::snapshot::{
    keys_distinct, lemma_map_keys_distinct,
    entry, field, get_field, is_map_with, lemma_distinct_keys, lemma_field_at, SnapshotItem,
};

verus! {

/// Foreground colour of a run of text.
#[derive(Clone, Copy, Debug, PartialEq, Eq, Structural)]
pub enum TerminalColor {
    Default,
    Black,
    Red,
    Green,
    Yellow,
    Blue,
    Magenta,
    Cyan,
    White,
}

/// The name of a colour as it is written in snapshots.
pub open spec fn color_name(c: TerminalColor) -> Seq<char> {
    match c {
        TerminalColor::Default => "default"@,
        TerminalColor::Black => "black"@,
        TerminalColor::Red => "red"@,
        TerminalColor::Green => "green"@,
        TerminalColor::Yellow => "yellow"@,
        TerminalColor::Blue => "blue"@,
        TerminalColor::Magenta => "magenta"@,
        TerminalColor::Cyan => "cyan"@,
        TerminalColor::White => "white"@,
    }
}

/// The colour an SGR code selects, if it is one of the eight plain foregrounds.
pub open spec fn color_of_sgr(sgr: SelectGraphicRendition) -> Option<TerminalColor> {
    match sgr {
        SelectGraphicRendition::ForegroundBlack => Some(TerminalColor::Black),
        SelectGraphicRendition::ForegroundRed => Some(TerminalColor::Red),
        SelectGraphicRendition::ForegroundGreen => Some(TerminalColor::Green),
        SelectGraphicRendition::ForegroundYellow => Some(TerminalColor::Yellow),
        SelectGraphicRendition::ForegroundBlue => Some(TerminalColor::Blue),
        SelectGraphicRendition::ForegroundMagenta => Some(TerminalColor::Magenta),
        SelectGraphicRendition::ForegroundCyan => Some(TerminalColor::Cyan),
        SelectGraphicRendition::ForegroundWhite => Some(TerminalColor::White),
        _ => None,
    }
}

/// The colour whose name is `s`, if any.
pub open spec fn color_named(s: Seq<char>) -> Option<TerminalColor> {
    if s == "default"@ {
        Some(TerminalColor::Default)
    } else if s == "black"@ {
        Some(TerminalColor::Black)
    } else if s == "red"@ {
        Some(TerminalColor::Red)
    } else if s == "green"@ {
        Some(TerminalColor::Green)
    } else if s == "yellow"@ {
        Some(TerminalColor::Yellow)
    } else if s == "blue"@ {
        Some(TerminalColor::Blue)
    } else if s == "magenta"@ {
        Some(TerminalColor::Magenta)
    } else if s == "cyan"@ {
        Some(TerminalColor::Cyan)
    } else if s == "white"@ {
        Some(TerminalColor::White)
    } else {
        None
    }
}

/// Every colour's name reads back as that colour.
pub proof fn lemma_color_name_round_trip(c: TerminalColor)
    ensures
        color_named(color_name(c)) == Some(c),
{
    reveal_strlit("default");
    reveal_strlit("black");
    reveal_strlit("red");
    reveal_strlit("green");
    reveal_strlit("yellow");
    reveal_strlit("blue");
    reveal_strlit("magenta");
    reveal_strlit("cyan");
    reveal_strlit("white");
    assert("default"@.len() == 7);
    assert("black"@.len() == 5);
    assert("red"@.len() == 3);
    assert("green"@.len() == 5);
    assert("yellow"@.len() == 6);
    assert("blue"@.len() == 4);
    assert("magenta"@.len() == 7);
    assert("cyan"@.len() == 4);
    assert("white"@.len() == 5);
    assert("black"@ != "green"@) by {
        assert("black"@[0] != "green"@[0]);
    }
    assert("black"@ != "white"@) by {
        assert("black"@[0] != "white"@[0]);
    }
    assert("green"@ != "white"@) by {
        assert("green"@[0] != "white"@[0]);
    }
    assert("default"@ != "magenta"@) by {
        assert("default"@[0] != "magenta"@[0]);
    }
    assert("blue"@ != "cyan"@) by {
        assert("blue"@[0] != "cyan"@[0]);
    }
}

impl TerminalColor {
    /// The colour's name.
    pub fn name(&self) -> (r: &'static str)
        ensures
            r@ == color_name(*self),
    {
        match self {
            TerminalColor::Default => "default",
            TerminalColor::Black => "black",
            TerminalColor::Red => "red",
            TerminalColor::Green => "green",
            TerminalColor::Yellow => "yellow",
            TerminalColor::Blue => "blue",
            TerminalColor::Magenta => "magenta",
            TerminalColor::Cyan => "cyan",
            TerminalColor::White => "white",
        }
    }

    /// The colour's name as an owned string.
    pub fn to_string(&self) -> (r: String)
        ensures
            r@ == color_name(*self),
    {
        self.name().to_owned()
    }

    /// The colour named `s`; an unknown name is an error.
    pub fn from_str(s: &str) -> (r: Result<TerminalColor, ()>)
        ensures
            match color_named(s@) {
                Some(c) => r == Ok::<TerminalColor, ()>(c),
                None => r is Err,
            },
    {
        if str_eq(s, "default") {
            Ok(TerminalColor::Default)
        } else if str_eq(s, "black") {
            Ok(TerminalColor::Black)
        } else if str_eq(s, "red") {
            Ok(TerminalColor::Red)
        } else if str_eq(s, "green") {
            Ok(TerminalColor::Green)
        } else if str_eq(s, "yellow") {
            Ok(TerminalColor::Yellow)
        } else if str_eq(s, "blue") {
            Ok(TerminalColor::Blue)
        } else if str_eq(s, "magenta") {
            Ok(TerminalColor::Magenta)
        } else if str_eq(s, "cyan") {
            Ok(TerminalColor::Cyan)
        } else if str_eq(s, "white") {
            Ok(TerminalColor::White)
        } else {
            Err(())
        }
    }

    pub fn from_sgr(sgr: SelectGraphicRendition) -> (r: Option<TerminalColor>)
        ensures
            r == color_of_sgr(sgr),
    {
        match sgr {
            SelectGraphicRendition::ForegroundBlack => Some(TerminalColor::Black),
            SelectGraphicRendition::ForegroundRed => Some(TerminalColor::Red),
            SelectGraphicRendition::ForegroundGreen => Some(TerminalColor::Green),
            SelectGraphicRendition::ForegroundYellow => Some(TerminalColor::Yellow),
            SelectGraphicRendition::ForegroundBlue => Some(TerminalColor::Blue),
            SelectGraphicRendition::ForegroundMagenta => Some(TerminalColor::Magenta),
            SelectGraphicRendition::ForegroundCyan => Some(TerminalColor::Cyan),
            SelectGraphicRendition::ForegroundWhite => Some(TerminalColor::White),
            _ => None,
        }
    }
}

/// A cell position on the visible grid, 0-based.
#[derive(Clone, Copy, Debug, PartialEq, Eq, Structural)]
pub struct CursorPos {
    pub x: usize,
    pub y: usize,
}

/// Cursor position together with the graphic rendition that new text receives.
#[derive(Clone, Copy, Debug, PartialEq, Eq, Structural)]
pub struct CursorState {
    pub pos: CursorPos,
    pub bold: bool,
    pub color: TerminalColor,
}

/// A pair of values, one for the scrollback and one for the visible area.
pub struct TerminalData<T> {
    pub scrollback: T,
    pub visible: T,
}

/// Why a cursor position could not be saved: a coordinate does not fit in an `i64`.
#[derive(Debug, Clone, Copy, PartialEq, Eq, Structural)]
pub enum SnapshotCursorPosError {
    XNotI64,
    YNotI64,
}

/// Why a cursor position could not be loaded.
#[derive(Debug, Clone, Copy, PartialEq, Eq, Structural)]
pub enum LoadCursorPosError {
    RootNotMap,
    MissingX,
    XNotUsize,
    MissingY,
    YNotUsize,
}

/// Why a cursor state could not be loaded.
#[derive(Debug, Clone, Copy, PartialEq, Eq, Structural)]
pub enum LoadCursorStateError {
    RootNotMap,
    BoldNotPresent,
    BoldNotBool,
    ColorNotPresent,
    ColorNotString,
    ColorInvalid,
    PosNotPresent,
    FailParsePos(LoadCursorPosError),
}

pub open spec fn usize_of(item: Option<SnapshotItem>) -> Option<usize> {
    match item {
        Some(SnapshotItem::Int(v)) => if 0 <= v && v <= usize::MAX {
            Some(v as usize)
        } else {
            None
        },
        _ => None,
    }
}

/// How a position is saved: "x", "y".
pub open spec fn is_pos_snapshot(item: SnapshotItem, p: CursorPos) -> bool {
    &&& is_map_with(item, seq!["x"@, "y"@])
    &&& item->Object_0@[0].1 == SnapshotItem::Int(p.x as i64)
    &&& item->Object_0@[1].1 == SnapshotItem::Int(p.y as i64)
}

pub open spec fn load_pos_spec(item: SnapshotItem) -> Result<CursorPos, LoadCursorPosError> {
    if !(item is Object) {
        Err(LoadCursorPosError::RootNotMap)
    } else if field(item, "x"@) is None {
        Err(LoadCursorPosError::MissingX)
    } else if usize_of(field(item, "x"@)) is None {
        Err(LoadCursorPosError::XNotUsize)
    } else if field(item, "y"@) is None {
        Err(LoadCursorPosError::MissingY)
    } else if usize_of(field(item, "y"@)) is None {
        Err(LoadCursorPosError::YNotUsize)
    } else {
        Ok(CursorPos { x: usize_of(field(item, "x"@))->Some_0, y: usize_of(field(item, "y"@))->Some_0 })
    }
}

/// How a cursor state is saved: "pos", "bold", "color" (its name).
pub open spec fn is_cursor_state_snapshot(item: SnapshotItem, c: CursorState) -> bool {
    &&& is_map_with(item, seq!["pos"@, "bold"@, "color"@])
    &&& is_pos_snapshot(item->Object_0@[0].1, c.pos)
    &&& item->Object_0@[1].1 == SnapshotItem::Bool(c.bold)
    &&& item->Object_0@[2].1 matches SnapshotItem::String(s) && s@ == color_name(c.color)
}

pub open spec fn load_cursor_state_spec(item: SnapshotItem) -> Result<CursorState, LoadCursorStateError> {
    if !(item is Object) {
        Err(LoadCursorStateError::RootNotMap)
    } else {
        match field(item, "bold"@) {
            None => Err(LoadCursorStateError::BoldNotPresent),
            Some(SnapshotItem::Bool(bold)) => match field(item, "color"@) {
                None => Err(LoadCursorStateError::ColorNotPresent),
                Some(SnapshotItem::String(c)) => match color_named(c@) {
                    None => Err(LoadCursorStateError::ColorInvalid),
                    Some(color) => match field(item, "pos"@) {
                        None => Err(LoadCursorStateError::PosNotPresent),
                        Some(p) => match load_pos_spec(p) {
                            Err(e) => Err(LoadCursorStateError::FailParsePos(e)),
                            Ok(pos) => Ok(CursorState { pos, bold, color }),
                        },
                    },
                },
                Some(_) => Err(LoadCursorStateError::ColorNotString),
            },
            Some(_) => Err(LoadCursorStateError::BoldNotBool),
        }
    }
}

fn load_usize(item: &SnapshotItem) -> (r: Option<usize>)
    ensures
        r == usize_of(Some(*item)),
{
    match item {
        SnapshotItem::Int(v) => {
            if *v < 0 || *v as u64 > usize::MAX as u64 {
                None
            } else {
                Some(*v as usize)
            }
        },
        _ => None,
    }
}

impl CursorPos {
    pub fn snapshot(&self) -> (r: Result<SnapshotItem, SnapshotCursorPosError>)
        ensures
            self.x > i64::MAX ==> r == Err::<SnapshotItem, SnapshotCursorPosError>(SnapshotCursorPosError::XNotI64),
            self.x <= i64::MAX && self.y > i64::MAX ==> r == Err::<SnapshotItem, SnapshotCursorPosError>(SnapshotCursorPosError::YNotI64),
            self.x <= i64::MAX && self.y <= i64::MAX ==> (r matches Ok(item) && is_pos_snapshot(item, *self)),
            r matches Ok(item) ==> keys_distinct(item),
            r matches Ok(item) ==> load_pos_spec(item) == Ok::<CursorPos, LoadCursorPosError>(*self),
    {
        if self.x as u64 > i64::MAX as u64 {
            return Err(SnapshotCursorPosError::XNotI64);
        }
        if self.y as u64 > i64::MAX as u64 {
            return Err(SnapshotCursorPosError::YNotI64);
        }
        let mut m: Vec<(String, SnapshotItem)> = Vec::new();
        m.push(entry("x", SnapshotItem::Int(self.x as i64)));
        m.push(entry("y", SnapshotItem::Int(self.y as i64)));
        let r = SnapshotItem::Object(m);
        assert(is_map_with(r, seq!["x"@, "y"@]));
        proof {
            reveal_strlit("x");
            reveal_strlit("y");
            assert("x"@.len() == 1 && "x"@[0] == 'x');
            assert("y"@.len() == 1 && "y"@[0] == 'y');
            let keys = seq!["x"@, "y"@];
            lemma_distinct_keys(keys);
            lemma_map_keys_distinct(r, keys);
            lemma_pos_snapshot_round_trip(r, *self);
        }
        Ok(r)
    }

    pub fn from_snapshot(snapshot: SnapshotItem) -> (r: Result<CursorPos, LoadCursorPosError>)
        ensures
            r == load_pos_spec(snapshot),
    {
        Self::load(&snapshot)
    }

    fn load(item: &SnapshotItem) -> (r: Result<CursorPos, LoadCursorPosError>)
        ensures
            r == load_pos_spec(*item),
    {
        if !matches!(item, SnapshotItem::Object(_)) {
            return Err(LoadCursorPosError::RootNotMap);
        }
        let x = match get_field(item, "x") {
            None => {
                return Err(LoadCursorPosError::MissingX);
            },
            Some(v) => match load_usize(v) {
                None => {
                    return Err(LoadCursorPosError::XNotUsize);
                },
                Some(x) => x,
            },
        };
        let y = match get_field(item, "y") {
            None => {
                return Err(LoadCursorPosError::MissingY);
            },
            Some(v) => match load_usize(v) {
                None => {
                    return Err(LoadCursorPosError::YNotUsize);
                },
                Some(y) => y,
            },
        };
        Ok(CursorPos { x, y })
    }
}

impl CursorState {
    pub fn snapshot(&self) -> (r: Result<SnapshotItem, SnapshotCursorPosError>)
        ensures
            self.pos.x <= i64::MAX && self.pos.y <= i64::MAX ==> (r matches Ok(item) && is_cursor_state_snapshot(item, *self)),
            r matches Ok(item) ==> keys_distinct(item),
            r matches Ok(item) ==> load_cursor_state_spec(item) == Ok::<CursorState, LoadCursorStateError>(*self),
            !(self.pos.x <= i64::MAX && self.pos.y <= i64::MAX) ==> r is Err,
    {
        let pos = self.pos.snapshot()?;
        let mut m: Vec<(String, SnapshotItem)> = Vec::new();
        m.push(entry("pos", pos));
        m.push(entry("bold", SnapshotItem::Bool(self.bold)));
        m.push(entry("color", SnapshotItem::String(self.color.to_string())));
        let r = SnapshotItem::Object(m);
        assert(is_map_with(r, seq!["pos"@, "bold"@, "color"@]));
        proof {
            reveal_strlit("pos");
            reveal_strlit("bold");
            reveal_strlit("color");
            assert("pos"@.len() == 3 && "pos"@[0] == 'p');
            assert("bold"@.len() == 4 && "bold"@[0] == 'b');
            assert("color"@.len() == 5 && "color"@[0] == 'c');
            let keys = seq!["pos"@, "bold"@, "color"@];
            lemma_distinct_keys(keys);
            lemma_map_keys_distinct(r, keys);
            lemma_cursor_state_snapshot_round_trip(r, *self);
        }
        Ok(r)
    }

    pub fn from_snapshot(snapshot: SnapshotItem) -> (r: Result<CursorState, LoadCursorStateError>)
        ensures
            r == load_cursor_state_spec(snapshot),
    {
        Self::load(&snapshot)
    }

    pub fn load(item: &SnapshotItem) -> (r: Result<CursorState, LoadCursorStateError>)
        ensures
            r == load_cursor_state_spec(*item),
    {
        if !matches!(item, SnapshotItem::Object(_)) {
            return Err(LoadCursorStateError::RootNotMap);
        }
        let bold = match get_field(item, "bold") {
            None => {
                return Err(LoadCursorStateError::BoldNotPresent);
            },
            Some(SnapshotItem::Bool(b)) => *b,
            Some(_) => {
                return Err(LoadCursorStateError::BoldNotBool);
            },
        };
        let color = match get_field(item, "color") {
            None => {
                return Err(LoadCursorStateError::ColorNotPresent);
            },
            Some(SnapshotItem::String(c)) => match TerminalColor::from_str(c.as_str()) {
                Ok(color) => color,
                Err(_) => {
                    return Err(LoadCursorStateError::ColorInvalid);
                },
            },
            Some(_) => {
                return Err(LoadCursorStateError::ColorNotString);
            },
        };
        let pos = match get_field(item, "pos") {
            None => {
                return Err(LoadCursorStateError::PosNotPresent);
            },
            Some(p) => match CursorPos::load(p) {
                Ok(pos) => pos,
                Err(e) => {
                    return Err(LoadCursorStateError::FailParsePos(e));
                },
            },
        };
        Ok(CursorState { pos, bold, color })
    }
}

/// Loading a saved position gives it back.
pub proof fn lemma_pos_snapshot_round_trip(item: SnapshotItem, p: CursorPos)
    requires
        is_pos_snapshot(item, p),
        p.x <= i64::MAX,
        p.y <= i64::MAX,
    ensures
        load_pos_spec(item) == Ok::<CursorPos, LoadCursorPosError>(p),
{
    reveal_strlit("x");
    reveal_strlit("y");
    let keys = seq!["x"@, "y"@];
    assert("x"@[0] != "y"@[0]);
    lemma_distinct_keys(keys);
    lemma_field_at(item, keys, 0);
    lemma_field_at(item, keys, 1);
    assert(keys[0] == "x"@);
    assert(keys[1] == "y"@);
}

/// Loading a saved cursor state gives it back.
pub proof fn lemma_cursor_state_snapshot_round_trip(item: SnapshotItem, c: CursorState)
    requires
        is_cursor_state_snapshot(item, c),
        c.pos.x <= i64::MAX,
        c.pos.y <= i64::MAX,
    ensures
        load_cursor_state_spec(item) == Ok::<CursorState, LoadCursorStateError>(c),
{
    reveal_strlit("pos");
    reveal_strlit("bold");
    reveal_strlit("color");
    let keys = seq!["pos"@, "bold"@, "color"@];
    assert("pos"@.len() == 3);
    assert("bold"@.len() == 4);
    assert("color"@.len() == 5);
    lemma_distinct_keys(keys);
    lemma_field_at(item, keys, 0);
    lemma_field_at(item, keys, 1);
    lemma_field_at(item, keys, 2);
    assert(keys[0] == "pos"@);
    assert(keys[1] == "bold"@);
    assert(keys[2] == "color"@);
    lemma_pos_snapshot_round_trip(item->Object_0@[0].1, c.pos);
    lemma_color_name_round_trip(c.color);
}

} // verus!
