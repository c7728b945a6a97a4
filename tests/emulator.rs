use termie::emulator::LoadSnapshotError;
use termie::snapshot::SnapshotItem;
use termie::log::Level;
use termie::emulator::{split_format_data_for_scrollback, TerminalEmulator};
use termie::format_tracker::FormatTagSerialized as FormatTag;
use termie::input::TerminalInput;
use termie::terminal::{CursorPos, CursorState, TerminalColor};

#[test]
fn test_format_tracker_scrollback_split() {
    let tags = vec![
        FormatTag {
            start: 0,
            end: 5,
            color: TerminalColor::Blue,
            bold: true,
        },
        FormatTag {
            start: 5,
            end: 7,
            color: TerminalColor::Red,
            bold: false,
        },
        FormatTag {
            start: 7,
            end: 10,
            color: TerminalColor::Blue,
            bold: true,
        },
        FormatTag {
            start: 10,
            end: usize::MAX,
            color: TerminalColor::Red,
            bold: true,
        },
    ];

    let res = split_format_data_for_scrollback(tags.clone(), 0);
    assert_eq!(res.scrollback, &[]);
    assert_eq!(res.visible, &tags[..]);

    let res = split_format_data_for_scrollback(tags.clone(), 10);
    assert_eq!(res.scrollback, &tags[0..3]);
    assert_eq!(
        res.visible,
        &[FormatTag {
            start: 0,
            end: usize::MAX,
            color: TerminalColor::Red,
            bold: true,
        },]
    );

    let res = split_format_data_for_scrollback(tags.clone(), 9);
    assert_eq!(
        res.scrollback,
        &[
            FormatTag {
                start: 0,
                end: 5,
                color: TerminalColor::Blue,
                bold: true,
            },
            FormatTag {
                start: 5,
                end: 7,
                color: TerminalColor::Red,
                bold: false,
            },
            FormatTag {
                start: 7,
                end: 9,
                color: TerminalColor::Blue,
                bold: true,
            },
        ]
    );
    assert_eq!(
        res.visible,
        &[
            FormatTag {
                start: 0,
                end: 1,
                color: TerminalColor::Blue,
                bold: true,
            },
            FormatTag {
                start: 1,
                end: usize::MAX,
                color: TerminalColor::Red,
                bold: true,
            },
        ]
    );
}

#[test]
fn test_cursor_state_snapshot() {
    let state = CursorState {
        pos: CursorPos { x: 10, y: 50 },
        bold: false,
        color: TerminalColor::Magenta,
    };

    let snapshot = state.snapshot().expect("failed to create snapshot");
    let loaded = CursorState::from_snapshot(snapshot).expect("failed to load snapshot");
    assert_eq!(loaded, state);
}

fn tag(start: usize, end: usize, color: TerminalColor) -> FormatTag {
    FormatTag { start, end, color, bold: false }
}

#[test]
fn color_runs_follow_sgr() {
    let mut emulator = TerminalEmulator::new();
    emulator.handle_incoming_data(b"\x1b[31mabc\x1b[32mdef\x1b[0mghi");
    assert_eq!(emulator.data().visible, b"abcdefghi\n");
    assert_eq!(
        emulator.format_data().visible,
        vec![
            tag(0, 3, TerminalColor::Red),
            tag(3, 6, TerminalColor::Green),
            tag(6, 9, TerminalColor::Default),
            tag(9, usize::MAX, TerminalColor::Default),
        ]
    );
    assert_eq!(emulator.cursor_pos(), CursorPos { x: 9, y: 0 });
}

#[test]
fn decckm_switches_arrow_encoding() {
    let mut emulator = TerminalEmulator::new();
    assert_eq!(emulator.write(&TerminalInput::ArrowUp), b"\x1b[A");
    emulator.handle_incoming_data(b"\x1b[?1h");
    assert_eq!(emulator.write(&TerminalInput::ArrowUp), b"\x1bOA");
    emulator.handle_incoming_data(b"\x1b[?1l");
    assert_eq!(emulator.write(&TerminalInput::Home), b"\x1b[H");
}

#[test]
fn cursor_stays_on_grid() {
    let mut emulator = TerminalEmulator::new();
    let (w, h) = emulator.get_win_size();
    emulator.handle_incoming_data(b"\x1b[999;999H");
    assert_eq!(emulator.cursor_pos(), CursorPos { x: w - 1, y: h - 1 });
    emulator.handle_incoming_data(b"\x1b[0;0H");
    assert_eq!(emulator.cursor_pos(), CursorPos { x: 0, y: 0 });
    emulator.handle_incoming_data(b"\x1b[5D\x1b[3A\x08");
    assert_eq!(emulator.cursor_pos(), CursorPos { x: 0, y: 0 });
    emulator.handle_incoming_data(b"\x1b[7C\x1b[2B");
    assert_eq!(emulator.cursor_pos(), CursorPos { x: 7, y: 2 });
}

#[test]
fn newline_on_last_row_scrolls() {
    let mut emulator = TerminalEmulator::new();
    emulator.set_win_size(10, 2);
    emulator.handle_incoming_data(b"one\r\ntwo\r\nthree");
    assert_eq!(emulator.data().scrollback, b"one");
    assert_eq!(emulator.data().visible, b"two\nthree\n");
    assert_eq!(emulator.cursor_pos(), CursorPos { x: 5, y: 1 });
}

#[test]
fn clear_all_empties_everything() {
    let mut emulator = TerminalEmulator::new();
    emulator.handle_incoming_data(b"\x1b[34mhello\r\nworld\x1b[2J");
    assert_eq!(emulator.data().visible, b"");
    assert_eq!(emulator.data().scrollback, b"");
    assert_eq!(
        emulator.format_data().visible,
        vec![tag(0, usize::MAX, TerminalColor::Blue)]
    );
}

#[test]
fn emulator_snapshot_round_trip() {
    let mut emulator = TerminalEmulator::new();
    emulator.handle_incoming_data(b"\x1b[1;33mhi there\r\n\x1b[?1h\x1b[2");
    let snapshot = emulator.snapshot().expect("failed to snapshot");
    let mut loaded = TerminalEmulator::from_snapshot(snapshot).expect("failed to load");
    for e in [&mut emulator, &mut loaded] {
        e.handle_incoming_data(b"Cmore\x1b[0m text");
    }
    assert_eq!(loaded.data().visible, emulator.data().visible);
    assert_eq!(loaded.data().scrollback, emulator.data().scrollback);
    assert_eq!(loaded.format_data().visible, emulator.format_data().visible);
    assert_eq!(loaded.cursor_pos(), emulator.cursor_pos());
    assert_eq!(loaded.write(&TerminalInput::ArrowLeft), b"\x1bOD");
}

#[test]
fn emulator_snapshot_errors() {
    assert_eq!(
        TerminalEmulator::from_snapshot(SnapshotItem::Array(vec![])).err(),
        Some(LoadSnapshotError::RootNotMap)
    );
    assert_eq!(
        TerminalEmulator::from_snapshot(SnapshotItem::Object(vec![])).err(),
        Some(LoadSnapshotError::ParserNotPresent)
    );
}

#[test]
fn input_encoding() {
    let emulator = TerminalEmulator::new();
    assert_eq!(emulator.write(&TerminalInput::Ascii(b'q')), b"q");
    assert_eq!(emulator.write(&TerminalInput::Ctrl(b'c')), [0x03]);
    assert_eq!(emulator.write(&TerminalInput::Enter), b"\n");
    assert_eq!(emulator.write(&TerminalInput::Backspace), [0x7f]);
    assert_eq!(emulator.write(&TerminalInput::Delete), b"\x1b[3~");
    assert_eq!(emulator.write(&TerminalInput::Insert), b"\x1b[2~");
    assert_eq!(emulator.write(&TerminalInput::PageUp), b"\x1b[5~");
    assert_eq!(emulator.write(&TerminalInput::PageDown), b"\x1b[6~");
    assert_eq!(emulator.write(&TerminalInput::End), b"\x1b[F");
    assert_eq!(emulator.write(&TerminalInput::ArrowRight), b"\x1b[C");
    assert_eq!(emulator.write(&TerminalInput::ArrowDown), b"\x1b[B");
}

#[test]
fn color_names() {
    assert_eq!(TerminalColor::Cyan.to_string(), "cyan");
    assert_eq!(TerminalColor::from_str("yellow"), Ok(TerminalColor::Yellow));
    assert_eq!(TerminalColor::from_str("Yellow"), Err(()));
    assert_eq!(
        TerminalColor::from_sgr(termie::ansi::SelectGraphicRendition::ForegroundWhite),
        Some(TerminalColor::White)
    );
}

#[test]
fn log_labels() {
    assert_eq!(Level::Warn.log_str(), "\x1b[33;1m WARN\x1b[m");
    assert_eq!(Level::Debug.log_str(), "\x1b[32;1mDEBUG\x1b[m");
}

#[test]
fn level_names_any_case() {
    assert_eq!(Level::from_str("WARN"), Ok(Level::Warn));
    assert_eq!(Level::from_str("Debug"), Ok(Level::Debug));
    assert_eq!(Level::from_lowercase("info"), Ok(Level::Info));
    assert_eq!(Level::from_lowercase("INFO"), Err(()));
    assert_eq!(Level::from_str("loud"), Err(()));
}

fn assert_runs_cover_text(emulator: &TerminalEmulator) {
    let data = emulator.data();
    assert!(data.scrollback.is_empty());
    let total = data.visible.len();
    let tags = emulator.format_data().visible;
    let last = tags[tags.len() - 1];
    assert!(last.start <= total);
    let bounded: usize = tags[..tags.len() - 1].iter().map(|t| t.end - t.start).sum();
    assert_eq!(bounded + (total - last.start), total);
}

#[test]
fn runs_stay_within_text() {
    let mut emulator = TerminalEmulator::new();
    emulator.handle_incoming_data(b"\nb");
    assert_eq!(emulator.data().visible, b"\nb\n");
    assert_eq!(
        emulator.format_data().visible,
        vec![
            tag(0, 1, TerminalColor::Default),
            tag(1, 2, TerminalColor::Default),
            tag(2, usize::MAX, TerminalColor::Default),
        ]
    );
    assert_runs_cover_text(&emulator);

    let mut emulator = TerminalEmulator::new();
    emulator.handle_incoming_data(b"\x1b[31mabcdef\x1b[32m\r\x1b[2C\x1b[K");
    assert_eq!(emulator.data().visible, b"ab\n");
    assert_runs_cover_text(&emulator);
    emulator.handle_incoming_data(b"\x1b[1;1H\x1b[1P\x1b[3@xy\x1b[J\x1b[L");
    assert_runs_cover_text(&emulator);
}

#[test]
fn write_and_wrap_tags() {
    let mut emulator = TerminalEmulator::new();
    emulator.set_win_size(5, 5);
    emulator.handle_incoming_data(b"0123456789");
    assert_eq!(emulator.data().visible, b"0123456789\n");
    assert_eq!(emulator.cursor_pos(), CursorPos { x: 0, y: 2 });
    assert_eq!(
        emulator.format_data().visible,
        vec![tag(0, 10, TerminalColor::Default), tag(10, usize::MAX, TerminalColor::Default)]
    );
    assert_runs_cover_text(&emulator);
}
