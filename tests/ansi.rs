use termie::ansi::{LoadCsiParserSnapshotError, LoadSnapshotError};
use termie::snapshot::SnapshotItem;
use termie::ansi::{
    AnsiParser, AnsiParserInner, CsiParser, CsiParserState, Mode, SelectGraphicRendition,
    TerminalOutput,
};

#[test]
fn test_set_cursor_position() {
    let mut output_buffer = AnsiParser::new();
    let parsed = output_buffer.push(b"\x1b[32;15H");
    assert_eq!(parsed.len(), 1);
    assert!(matches!(
        parsed[0],
        TerminalOutput::SetCursorPos {
            y: Some(32),
            x: Some(15)
        }
    ));

    let parsed = output_buffer.push(b"\x1b[;32H");
    assert_eq!(parsed.len(), 1);
    assert!(matches!(
        parsed[0],
        TerminalOutput::SetCursorPos {
            y: Some(1),
            x: Some(32)
        }
    ));

    let parsed = output_buffer.push(b"\x1b[32H");
    assert_eq!(parsed.len(), 1);
    assert!(matches!(
        parsed[0],
        TerminalOutput::SetCursorPos {
            y: Some(32),
            x: Some(1)
        }
    ));

    let parsed = output_buffer.push(b"\x1b[32;H");
    assert_eq!(parsed.len(), 1);
    assert!(matches!(
        parsed[0],
        TerminalOutput::SetCursorPos {
            y: Some(32),
            x: Some(1)
        }
    ));

    let parsed = output_buffer.push(b"\x1b[H");
    assert_eq!(parsed.len(), 1);
    assert!(matches!(
        parsed[0],
        TerminalOutput::SetCursorPos {
            y: Some(1),
            x: Some(1)
        }
    ));

    let parsed = output_buffer.push(b"\x1b[;H");
    assert_eq!(parsed.len(), 1);
    assert!(matches!(
        parsed[0],
        TerminalOutput::SetCursorPos {
            y: Some(1),
            x: Some(1)
        }
    ));
}

#[test]
fn test_clear() {
    let mut output_buffer = AnsiParser::new();
    let parsed = output_buffer.push(b"\x1b[J");
    assert_eq!(parsed.len(), 1);
    assert!(matches!(parsed[0], TerminalOutput::ClearForwards,));

    let mut output_buffer = AnsiParser::new();
    let parsed = output_buffer.push(b"\x1b[0J");
    assert_eq!(parsed.len(), 1);
    assert!(matches!(parsed[0], TerminalOutput::ClearForwards,));

    let mut output_buffer = AnsiParser::new();
    let parsed = output_buffer.push(b"\x1b[2J");
    assert_eq!(parsed.len(), 1);
    assert!(matches!(parsed[0], TerminalOutput::ClearAll,));
}

#[test]
fn test_invalid_clear() {
    let mut output_buffer = AnsiParser::new();
    let parsed = output_buffer.push(b"\x1b[8J");
    assert_eq!(parsed.len(), 1);
    assert!(matches!(parsed[0], TerminalOutput::Invalid,));
}

#[test]
fn test_invalid_csi() {
    let mut output_buffer = AnsiParser::new();
    let parsed = output_buffer.push(b"\x1b[-23;H");
    assert!(matches!(parsed[0], TerminalOutput::Invalid));

    let mut output_buffer = AnsiParser::new();
    let parsed = output_buffer.push(b"\x1b[asdf");
    assert!(matches!(parsed[0], TerminalOutput::Invalid));
}

#[test]
fn test_parsing_unknown_csi() {
    let mut parser = CsiParser::new();
    for b in b"0123456789:;<=>?!\"#$%&'()*+,-./}" {
        parser.push(*b);
    }

    assert_eq!(parser.params, b"0123456789:;<=>?");
    assert_eq!(parser.intermediates, b"!\"#$%&'()*+,-./");
    assert!(matches!(parser.state, CsiParserState::Finished(b'}')));

    let mut parser = CsiParser::new();
    parser.push(0x40);

    assert_eq!(parser.params, &[]);
    assert_eq!(parser.intermediates, &[]);
    assert!(matches!(parser.state, CsiParserState::Finished(0x40)));

    let mut parser = CsiParser::new();
    parser.push(0x7e);

    assert_eq!(parser.params, &[]);
    assert_eq!(parser.intermediates, &[]);
    assert!(matches!(parser.state, CsiParserState::Finished(0x7e)));
}

#[test]
fn test_parsing_invalid_csi() {
    let mut parser = CsiParser::new();
    for b in b"0$0" {
        parser.push(*b);
    }

    assert!(matches!(parser.state, CsiParserState::Invalid));
    parser.push(b'm');
    assert!(matches!(parser.state, CsiParserState::InvalidFinished));
}

#[test]
fn test_empty_sgr() {
    let mut output_buffer = AnsiParser::new();
    let parsed = output_buffer.push(b"\x1b[m");
    assert!(matches!(
        parsed[0],
        TerminalOutput::Sgr(SelectGraphicRendition::Reset)
    ));
}

#[test]
fn test_color_parsing() {
    let mut output_buffer = AnsiParser::new();

    let mut test_input = String::new();
    for i in 30..=37 {
        test_input.push_str(&format!("\x1b[{}m", i));
        test_input.push('a');
    }

    for i in 90..=97 {
        test_input.push_str(&format!("\x1b[{}m", i));
        test_input.push('a');
    }

    let output = output_buffer.push(test_input.as_bytes());
    assert_eq!(
        output,
        &[
            TerminalOutput::Sgr(SelectGraphicRendition::ForegroundBlack),
            TerminalOutput::Data(b"a".to_vec()),
            TerminalOutput::Sgr(SelectGraphicRendition::ForegroundRed),
            TerminalOutput::Data(b"a".to_vec()),
            TerminalOutput::Sgr(SelectGraphicRendition::ForegroundGreen),
            TerminalOutput::Data(b"a".to_vec()),
            TerminalOutput::Sgr(SelectGraphicRendition::ForegroundYellow),
            TerminalOutput::Data(b"a".to_vec()),
            TerminalOutput::Sgr(SelectGraphicRendition::ForegroundBlue),
            TerminalOutput::Data(b"a".to_vec()),
            TerminalOutput::Sgr(SelectGraphicRendition::ForegroundMagenta),
            TerminalOutput::Data(b"a".to_vec()),
            TerminalOutput::Sgr(SelectGraphicRendition::ForegroundCyan),
            TerminalOutput::Data(b"a".to_vec()),
            TerminalOutput::Sgr(SelectGraphicRendition::ForegroundWhite),
            TerminalOutput::Data(b"a".to_vec()),
            TerminalOutput::Sgr(SelectGraphicRendition::ForegroundBrightBlack),
            TerminalOutput::Data(b"a".to_vec()),
            TerminalOutput::Sgr(SelectGraphicRendition::ForegroundBrightRed),
            TerminalOutput::Data(b"a".to_vec()),
            TerminalOutput::Sgr(SelectGraphicRendition::ForegroundBrightGreen),
            TerminalOutput::Data(b"a".to_vec()),
            TerminalOutput::Sgr(SelectGraphicRendition::ForegroundBrightYellow),
            TerminalOutput::Data(b"a".to_vec()),
            TerminalOutput::Sgr(SelectGraphicRendition::ForegroundBrightBlue),
            TerminalOutput::Data(b"a".to_vec()),
            TerminalOutput::Sgr(SelectGraphicRendition::ForegroundBrightMagenta),
            TerminalOutput::Data(b"a".to_vec()),
            TerminalOutput::Sgr(SelectGraphicRendition::ForegroundBrightCyan),
            TerminalOutput::Data(b"a".to_vec()),
            TerminalOutput::Sgr(SelectGraphicRendition::ForegroundBrightWhite),
            TerminalOutput::Data(b"a".to_vec()),
        ]
    );
}

#[test]
fn test_mode_parsing() {
    let mut output_buffer = AnsiParser::new();
    let output = output_buffer.push(b"\x1b[1h");
    assert_eq!(output.len(), 1);
    assert_eq!(
        output[0],
        TerminalOutput::SetMode(Mode::Unknown(b"1".to_vec()))
    );

    let output = output_buffer.push(b"\x1b[1l");
    assert_eq!(output.len(), 1);
    assert_eq!(
        output[0],
        TerminalOutput::ResetMode(Mode::Unknown(b"1".to_vec()))
    );

    let output = output_buffer.push(b"\x1b[?1l");
    assert_eq!(output.len(), 1);
    assert_eq!(output[0], TerminalOutput::ResetMode(Mode::Decckm));

    let output = output_buffer.push(b"\x1b[?1h");
    assert_eq!(output.len(), 1);
    assert_eq!(output[0], TerminalOutput::SetMode(Mode::Decckm));
}

fn check_rel_move(seq: &[u8], x: Option<i32>, y: Option<i32>) {
    let mut output_buffer = AnsiParser::new();
    let output = output_buffer.push(seq);
    assert_eq!(output.len(), 1);
    assert_eq!(output[0], TerminalOutput::SetCursorPosRel { x, y });
}

#[test]
fn test_rel_move_up_parsing() {
    check_rel_move(b"\x1b[1A", None, Some(-1));
    check_rel_move(b"\x1b[A", None, Some(-1));
    check_rel_move(b"\x1b[10A", None, Some(-10));
}

#[test]
fn test_rel_move_down_parsing() {
    check_rel_move(b"\x1b[1B", None, Some(1));
    check_rel_move(b"\x1b[B", None, Some(1));
    check_rel_move(b"\x1b[10B", None, Some(10));
}

#[test]
fn test_rel_move_right_parsing() {
    check_rel_move(b"\x1b[1C", Some(1), None);
    check_rel_move(b"\x1b[C", Some(1), None);
    check_rel_move(b"\x1b[10C", Some(10), None);
}

#[test]
fn test_rel_move_left_parsing() {
    check_rel_move(b"\x1b[1D", Some(-1), None);
    check_rel_move(b"\x1b[D", Some(-1), None);
    check_rel_move(b"\x1b[10D", Some(-10), None);
}

#[test]
fn test_csi_parser_snapshot() {
    let mut parser = CsiParser {
        state: CsiParserState::Params,
        params: vec![1, 2, 3],
        intermediates: vec![4, 5, 6],
    };

    for state in [
        CsiParserState::Params,
        CsiParserState::Intermediates,
        CsiParserState::Finished(75),
        CsiParserState::Invalid,
        CsiParserState::InvalidFinished,
    ] {
        parser.state = state;
        let loaded = CsiParser::from_snapshot(parser.snapshot()).expect("failed to load snapshot");
        assert_eq!(loaded, parser);
    }
}

#[test]
fn test_ansi_parser_snapshot() {
    for inner in [
        AnsiParserInner::Empty,
        AnsiParserInner::Escape,
        AnsiParserInner::Csi(CsiParser {
            state: CsiParserState::Invalid,
            params: vec![2, 3, 4],
            intermediates: vec![5, 6, 7],
        }),
    ] {
        let parser = AnsiParser { inner };
        let loaded = AnsiParser::from_snapshot(parser.snapshot()).expect("failed to load snapshot");
        assert_eq!(loaded.inner, parser.inner);
    }
}

#[test]
fn parser_sequence_split_across_pushes() {
    let mut parser = AnsiParser::new();
    assert_eq!(parser.push(b"ab\x1b["), vec![TerminalOutput::Data(b"ab".to_vec())]);
    assert_eq!(parser.push(b"3"), vec![]);
    assert_eq!(parser.push(b"1mc"), vec![
        TerminalOutput::Sgr(SelectGraphicRendition::ForegroundRed),
        TerminalOutput::Data(b"c".to_vec()),
    ]);
}

#[test]
fn parser_control_bytes_flush_data() {
    let mut parser = AnsiParser::new();
    let out = parser.push(b"ab\r\ncd\x08");
    assert_eq!(out, vec![
        TerminalOutput::Data(b"ab".to_vec()),
        TerminalOutput::CarriageReturn,
        TerminalOutput::Newline,
        TerminalOutput::Data(b"cd".to_vec()),
        TerminalOutput::Backspace,
    ]);
}

#[test]
fn parser_accepts_any_bytes() {
    let mut parser = AnsiParser::new();
    let bytes: Vec<u8> = (0..=255u8).chain((0..=255u8).rev()).collect();
    let _ = parser.push(&bytes);
    let out = parser.push(b"\x1b[mz");
    assert_eq!(out.last(), Some(&TerminalOutput::Data(b"z".to_vec())));
}

#[test]
fn parser_other_finals() {
    let mut parser = AnsiParser::new();
    assert_eq!(parser.push(b"\x1b[5G"), vec![TerminalOutput::SetCursorPos { x: Some(5), y: None }]);
    assert_eq!(parser.push(b"\x1b[K"), vec![TerminalOutput::ClearLineForwards]);
    assert_eq!(parser.push(b"\x1b[1K"), vec![TerminalOutput::Invalid]);
    assert_eq!(parser.push(b"\x1b[3J"), vec![TerminalOutput::ClearAll]);
    assert_eq!(parser.push(b"\x1b[L"), vec![TerminalOutput::InsertLines(1)]);
    assert_eq!(parser.push(b"\x1b[4P"), vec![TerminalOutput::Delete(4)]);
    assert_eq!(parser.push(b"\x1b[2@"), vec![TerminalOutput::InsertSpaces(2)]);
    assert_eq!(parser.push(b"\x1b[z"), vec![TerminalOutput::Invalid]);
    assert_eq!(parser.push(b"\x1b[1;31;5m"), vec![
        TerminalOutput::Sgr(SelectGraphicRendition::Bold),
        TerminalOutput::Sgr(SelectGraphicRendition::ForegroundRed),
        TerminalOutput::Sgr(SelectGraphicRendition::Unknown(5)),
    ]);
    assert_eq!(parser.push(b"\x1b[99999999999999999999999A"), vec![TerminalOutput::Invalid]);
    assert_eq!(parser.push(b"\x1bXq"), vec![TerminalOutput::Data(b"q".to_vec())]);
}

#[test]
fn parser_snapshot_errors() {
    assert_eq!(
        AnsiParser::from_snapshot(SnapshotItem::Bool(true)).err(),
        Some(LoadSnapshotError::RootNotMap)
    );
    assert_eq!(
        AnsiParser::from_snapshot(SnapshotItem::Object(vec![])).err(),
        Some(LoadSnapshotError::MissingType)
    );
    assert_eq!(
        AnsiParser::from_snapshot(SnapshotItem::Object(vec![(
            "type".to_string(),
            SnapshotItem::String("nope".to_string())
        )]))
        .err(),
        Some(LoadSnapshotError::UnknownType)
    );
    assert_eq!(
        CsiParser::from_snapshot(SnapshotItem::Object(vec![(
            "params".to_string(),
            SnapshotItem::Array(vec![SnapshotItem::Int(300)])
        )]))
        .err(),
        Some(LoadCsiParserSnapshotError::ParamsNotBytes)
    );
}
