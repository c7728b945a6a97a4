use vstd::prelude::*;

verus! {

/// A key press to be sent to the shell.
#[derive(Clone, Copy, Debug, PartialEq, Eq, Structural)]
pub enum TerminalInput {
    /// A plain key.
    Ascii(u8),
    /// A key pressed with ctrl.
    Ctrl(u8),
    Enter,
    Backspace,
    ArrowRight,
    ArrowLeft,
    ArrowUp,
    ArrowDown,
    Home,
    End,
    Delete,
    Insert,
    PageUp,
    PageDown,
}

pub open spec fn ctrl_code(c: u8) -> u8 {
    c & 0x1f
}

/// A cursor key: `ESC [ k`, or `ESC O k` in cursor keys mode.
pub open spec fn cursor_key(k: u8, decckm: bool) -> Seq<u8> {
    seq![0x1bu8, if decckm { 0x4fu8 } else { 0x5bu8 }, k]
}

/// An editing key: `ESC [ k ~`.
pub open spec fn tilde_key(k: u8) -> Seq<u8> {
    seq![0x1bu8, 0x5bu8, k, 0x7eu8]
}

/// The bytes that a key press sends, given the cursor keys mode.
pub open spec fn input_bytes(i: TerminalInput, decckm: bool) -> Seq<u8> {
    match i {
        TerminalInput::Ascii(c) => seq![c],
        TerminalInput::Ctrl(c) => seq![ctrl_code(c)],
        TerminalInput::Enter => seq![0x0au8],
        TerminalInput::Backspace => seq![0x7fu8],
        TerminalInput::ArrowRight => cursor_key(0x43, decckm),
        TerminalInput::ArrowLeft => cursor_key(0x44, decckm),
        TerminalInput::ArrowUp => cursor_key(0x41, decckm),
        TerminalInput::ArrowDown => cursor_key(0x42, decckm),
        TerminalInput::Home => cursor_key(0x48, decckm),
        TerminalInput::End => cursor_key(0x46, decckm),
        TerminalInput::Delete => tilde_key(0x33),
        TerminalInput::Insert => tilde_key(0x32),
        TerminalInput::PageUp => tilde_key(0x35),
        TerminalInput::PageDown => tilde_key(0x36),
    }
}

/// The control code of a key pressed with ctrl: its low five bits.
pub fn char_to_ctrl_code(c: u8) -> (r: u8)
    ensures
        r == ctrl_code(c),
{
    c & 0x1f
}

fn cursor_key_bytes(k: u8, decckm: bool) -> (r: Vec<u8>)
    ensures
        r@ == cursor_key(k, decckm),
{
    let mid = if decckm {
        0x4f
    } else {
        0x5b
    };
    let r = vec![0x1b, mid, k];
    assert(r@ =~= cursor_key(k, decckm));
    r
}

fn tilde_key_bytes(k: u8) -> (r: Vec<u8>)
    ensures
        r@ == tilde_key(k),
{
    let r = vec![0x1b, 0x5b, k, 0x7e];
    assert(r@ =~= tilde_key(k));
    r
}

impl TerminalInput {
    /// The bytes this key press sends, given the cursor keys mode.
    pub fn to_payload(&self, decckm_mode: bool) -> (r: Vec<u8>)
        ensures
            r@ == input_bytes(*self, decckm_mode),
    {
        let r = match self {
            TerminalInput::Ascii(c) => vec![*c],
            TerminalInput::Ctrl(c) => vec![char_to_ctrl_code(*c)],
            TerminalInput::Enter => vec![0x0a],
            TerminalInput::Backspace => vec![0x7f],
            TerminalInput::ArrowRight => cursor_key_bytes(0x43, decckm_mode),
            TerminalInput::ArrowLeft => cursor_key_bytes(0x44, decckm_mode),
            TerminalInput::ArrowUp => cursor_key_bytes(0x41, decckm_mode),
            TerminalInput::ArrowDown => cursor_key_bytes(0x42, decckm_mode),
            TerminalInput::Home => cursor_key_bytes(0x48, decckm_mode),
            TerminalInput::End => cursor_key_bytes(0x46, decckm_mode),
            TerminalInput::Delete => tilde_key_bytes(0x33),
            TerminalInput::Insert => tilde_key_bytes(0x32),
            TerminalInput::PageUp => tilde_key_bytes(0x35),
            TerminalInput::PageDown => tilde_key_bytes(0x36),
        };
        assert(r@ =~= input_bytes(*self, decckm_mode));
        r
    }
}

} // verus!
