use termie::buffer::LoadSnapshotError;
use termie::snapshot::SnapshotItem;
use termie::buffer::TerminalBuffer2;
use termie::terminal::CursorPos;

#[test]
fn test_canvas_clear_forwards() {
    let mut buffer = TerminalBuffer2::new(5, 5);
    buffer.insert_data(&CursorPos { x: 0, y: 0 }, b"012343456789\n0123456789\n1234");

    assert_eq!(
        buffer.data().visible,
        b"\
                   34567\
                   89\n\
                   01234\
                   56789\n\
                   1234\n"
    );
    buffer.clear_forwards(&CursorPos { x: 1, y: 1 });
    // The five visible rows stay: the cut row and three emptied ones.
    assert_eq!(
        buffer.data().visible,
        b"\
                   34567\
                   8\n\n\n\n"
    );

    let mut buffer = TerminalBuffer2::new(5, 5);
    buffer.insert_data(&CursorPos { x: 0, y: 0 }, b"012340123401234012340123401234");
    buffer.clear_forwards(&CursorPos { x: 0, y: 1 });
    assert_eq!(buffer.data().visible, b"01234\n\n\n\n");

    let mut buffer = TerminalBuffer2::new(5, 5);
    buffer.insert_data(
        &CursorPos { x: 0, y: 0 },
        b"01234\n0123401234012340123401234",
    );
    buffer.clear_forwards(&CursorPos { x: 0, y: 1 });
    assert_eq!(buffer.data().visible, b"01234\n\n\n\n");

    let mut buffer = TerminalBuffer2::new(5, 5);
    buffer.insert_data(&CursorPos { x: 0, y: 0 }, b"\n\n\n\n\n\n");
    buffer.clear_forwards(&CursorPos { x: 0, y: 1 });
    assert_eq!(buffer.data().visible, b"\n\n\n\n");
}

#[test]
fn test_canvas_clear() {
    let mut buffer = TerminalBuffer2::new(5, 5);
    buffer.insert_data(&CursorPos { x: 0, y: 0 }, b"0123456789");
    buffer.clear_all();
    assert_eq!(buffer.data().visible, &[]);
}

#[test]
fn test_terminal_buffer_overwrite_early_newline() {
    let mut buffer = TerminalBuffer2::new(5, 5);
    buffer.insert_data(&CursorPos { x: 0, y: 0 }, b"012\n3456789");
    assert_eq!(buffer.data().visible, b"012\n3456789\n");

    buffer.insert_data(&CursorPos { x: 2, y: 1 }, b"test");
    assert_eq!(buffer.data().visible, b"012\n34test9\n");
}

#[test]
fn test_terminal_buffer_overwrite_no_newline() {
    let mut buffer = TerminalBuffer2::new(5, 5);
    buffer.insert_data(&CursorPos { x: 0, y: 0 }, b"0123456789");
    assert_eq!(buffer.data().visible, b"0123456789\n");

    buffer.insert_data(&CursorPos { x: 2, y: 1 }, b"test");
    assert_eq!(buffer.data().visible, b"0123456test\n");
}

#[test]
fn test_terminal_buffer_overwrite_late_newline() {
    let mut buffer = TerminalBuffer2::new(5, 5);
    buffer.insert_data(&CursorPos { x: 0, y: 0 }, b"01234\n56789");
    assert_eq!(buffer.data().visible, b"01234\n56789\n");

    buffer.insert_data(&CursorPos { x: 2, y: 1 }, b"test");
    assert_eq!(buffer.data().visible, b"01234\n56test\n");
}

#[test]
fn test_terminal_buffer_insert_unallocated_data() {
    let mut buffer = TerminalBuffer2::new(10, 10);
    buffer.insert_data(&CursorPos { x: 4, y: 5 }, b"hello world");
    assert_eq!(buffer.data().visible, b"\n\n\n\n\n    hello world\n");

    buffer.insert_data(&CursorPos { x: 3, y: 2 }, b"hello world");
    assert_eq!(
        buffer.data().visible,
        b"\n\n   hello world\n\n    hello world\n"
    );
}

fn crlf(pos: &mut CursorPos, canvas: &mut TerminalBuffer2) {
    pos.x = 0;
    *pos = canvas.insert_data(pos, b"\n").new_cursor_pos;
}

#[test]
fn test_canvas_scrolling() {
    let mut canvas = TerminalBuffer2::new(10, 3);
    let initial_cursor_pos = CursorPos { x: 0, y: 0 };

    let mut response = canvas.insert_data(&initial_cursor_pos, b"asdf");
    crlf(&mut response.new_cursor_pos, &mut canvas);
    let mut response = canvas.insert_data(&response.new_cursor_pos, b"xyzw");
    crlf(&mut response.new_cursor_pos, &mut canvas);
    let mut response = canvas.insert_data(&response.new_cursor_pos, b"1234");
    crlf(&mut response.new_cursor_pos, &mut canvas);
    canvas.insert_data(&response.new_cursor_pos, b"5678");

    assert_eq!(canvas.data().scrollback, b"asdf\n");
    assert_eq!(canvas.data().visible, b"xyzw\n1234\n5678\n");
}

#[test]
fn test_canvas_delete_forwards() {
    let mut canvas = TerminalBuffer2::new(10, 5);
    canvas.insert_data(&CursorPos { x: 0, y: 0 }, b"asdf\n123456789012345");

    canvas.delete_forwards(&CursorPos { x: 1, y: 0 }, 1);
    assert_eq!(canvas.data().visible, b"adf\n123456789012345\n");

    canvas.delete_forwards(&CursorPos { x: 1, y: 0 }, 10);
    assert_eq!(canvas.data().visible, b"a\n123456789012345\n");

    canvas.delete_forwards(&CursorPos { x: 7, y: 1 }, 10);
    assert_eq!(canvas.data().visible, b"a\n1234567\n12345\n");

    canvas.delete_forwards(&CursorPos { x: 5, y: 5 }, 10);
    assert_eq!(canvas.data().visible, b"a\n1234567\n12345\n");
}

#[test]
fn test_canvas_insert_spaces() {
    let mut canvas = TerminalBuffer2::new(10, 5);
    canvas.insert_data(&CursorPos { x: 0, y: 0 }, b"asdf\n123456789012345");

    let response = canvas.insert_spaces(&CursorPos { x: 2, y: 0 }, 2);
    assert_eq!(response.new_cursor_pos, CursorPos { x: 2, y: 0 });
    assert_eq!(canvas.data().visible, b"as  df\n123456789012345\n");

    let response = canvas.insert_spaces(&CursorPos { x: 2, y: 0 }, 1000);
    assert_eq!(response.new_cursor_pos, CursorPos { x: 2, y: 0 });
    assert_eq!(canvas.data().visible, b"as        \n123456789012345\n");

    let response = canvas.insert_spaces(&CursorPos { x: 4, y: 1 }, 1000);
    assert_eq!(response.new_cursor_pos, CursorPos { x: 4, y: 1 });
    assert_eq!(canvas.data().visible, b"as        \n1234      12345\n");

    let response = canvas.insert_spaces(&CursorPos { x: 2, y: 4 }, 3);
    assert_eq!(response.new_cursor_pos, CursorPos { x: 2, y: 4 });
    assert_eq!(canvas.data().visible, b"as        \n1234      12345\n");
}

#[test]
fn test_clear_line_forwards() {
    let mut canvas = TerminalBuffer2::new(10, 5);
    canvas.insert_data(&CursorPos { x: 0, y: 0 }, b"asdf\n123456789012345");

    let response = canvas.clear_line_forwards(&CursorPos { x: 5, y: 5 });
    assert_eq!(response, None);
    assert_eq!(canvas.data().visible, b"asdf\n123456789012345\n");

    canvas.clear_line_forwards(&CursorPos { x: 2, y: 0 });
    assert_eq!(canvas.data().visible, b"as\n123456789012345\n");

    canvas.clear_line_forwards(&CursorPos { x: 2, y: 1 });
    assert_eq!(canvas.data().visible, b"as\n12\n12345\n");

    let mut canvas = TerminalBuffer2::new(5, 5);
    canvas.insert_data(&CursorPos { x: 0, y: 0 }, b"01234012340123401234abcde0123");
    assert_eq!(canvas.data().visible, b"012340123401234abcde0123\n");
    canvas.clear_line_forwards(&CursorPos { x: 0, y: 4 });
    assert_eq!(canvas.data().visible, b"012340123401234abcde\n");
}

#[test]
fn test_insert_lines() {
    let mut canvas = TerminalBuffer2::new(5, 5);

    canvas.insert_lines(&CursorPos { x: 0, y: 0 }, 3);
    assert_eq!(canvas.data().visible, b"");

    canvas.insert_data(&CursorPos { x: 0, y: 0 }, b"0123456789asdf\nxyzw");
    assert_eq!(canvas.data().visible, b"0123456789asdf\nxyzw\n");
    canvas.insert_lines(&CursorPos { x: 3, y: 2 }, 1);
    assert_eq!(canvas.data().visible, b"0123456789\n\nasdf\nxyzw\n");

    canvas.insert_lines(&CursorPos { x: 3, y: 2 }, 1);
    assert_eq!(canvas.data().visible, b"0123456789\n\n\nasdf\n");
}

#[test]
fn test_buffer_snapshot() {
    let mut terminal_buffer = TerminalBuffer2::new(5, 3);
    terminal_buffer.insert_data(
        &CursorPos { x: 2, y: 1 },
        b"hello world\n asdf asdf\n wrap and stuff",
    );

    let snapshot = terminal_buffer.snapshot().expect("failed to snapshot");
    let loaded = TerminalBuffer2::from_snapshot(snapshot).expect("failed to load snapshot");
    assert_eq!(terminal_buffer, loaded);
}

#[test]
fn test_insertion_response() {
    let mut terminal_buffer = TerminalBuffer2::new(5, 5);
    let response = terminal_buffer.insert_data(&CursorPos { x: 0, y: 0 }, b"asdf");
    assert!(response.visible_to_scrollback.0.is_empty());
    assert!(response.visible_to_scrollback.1.is_empty());
    assert_eq!(response.written_range, 0..4);
    assert_eq!(response.new_cursor_pos, CursorPos { x: 4, y: 0 });

    let response = terminal_buffer.insert_data(&CursorPos { x: 3, y: 2 }, b"asdf");
    assert!(response.visible_to_scrollback.0.is_empty());
    assert!(response.visible_to_scrollback.1.is_empty());
    // Text positions: "asdf\n" and an empty row's "\n" come before "   asdf".
    assert_eq!(response.written_range, 9..13);
    assert_eq!(response.new_cursor_pos, CursorPos { x: 2, y: 3 });
}

#[test]
fn test_insertion_response_too_much_data() {
    let mut terminal_buffer = TerminalBuffer2::new(5, 5);
    let response = terminal_buffer.insert_data(
        &CursorPos { x: 0, y: 0 },
        b"0123401234012340123401234abcdeabc",
    );

    assert_eq!(response.visible_to_scrollback, (0..10, 0..10));
    assert_eq!(response.written_range, 0..33);
    assert_eq!(response.new_cursor_pos, CursorPos { x: 3, y: 4 });

    let mut terminal_buffer = TerminalBuffer2::new(5, 5);
    let response = terminal_buffer.insert_data(
        &CursorPos { x: 0, y: 0 },
        b"01234\n01234\n01234\n01234\n01234\nabcde\nabc",
    );
    assert_eq!(response.visible_to_scrollback, (0..10, 0..12));
    assert_eq!(response.written_range, 0..39);
    assert_eq!(response.new_cursor_pos, CursorPos { x: 3, y: 4 });
}

#[test]
fn test_insertion_response_some_evicted() {
    let mut terminal_buffer = TerminalBuffer2::new(5, 5);
    let response = terminal_buffer.insert_data(&CursorPos { x: 0, y: 0 }, b"as\n");
    let response = terminal_buffer.insert_data(
        &response.new_cursor_pos,
        b"01234\n01234\n01234\n01234\n0123",
    );
    assert_eq!(response.visible_to_scrollback, (0..5, 0..3));
    assert_eq!(response.written_range, (3..31));
    assert_eq!(response.new_cursor_pos, CursorPos { x: 4, y: 4 });
}

#[test]
fn basic_write_and_wrap() {
    let mut buffer = TerminalBuffer2::new(5, 5);
    let response = buffer.insert_data(&CursorPos { x: 0, y: 0 }, b"0123456789");
    assert_eq!(buffer.data().visible, b"0123456789\n");
    assert_eq!(response.new_cursor_pos, CursorPos { x: 0, y: 2 });
    assert_eq!(response.written_range, 0..10);
    assert_eq!(response.insertion_range, 0..0);
}

#[test]
fn padding_and_edit_ranges() {
    let mut buffer = TerminalBuffer2::new(10, 3);
    let response = buffer.insert_data(&CursorPos { x: 0, y: 0 }, b"ab");
    assert_eq!(response.written_range, 0..2);
    let response = buffer.insert_data(&CursorPos { x: 5, y: 0 }, b"cd");
    assert_eq!(response.insertion_range, 2..5);
    assert_eq!(buffer.data().visible, b"ab   cd\n");
    assert_eq!(buffer.delete_forwards(&CursorPos { x: 1, y: 0 }, 2), Some(1..3));
    assert_eq!(buffer.clear_line_forwards(&CursorPos { x: 3, y: 0 }), Some(3..5));
    let response = buffer.insert_spaces(&CursorPos { x: 1, y: 0 }, 2);
    assert_eq!(response.insertion_range, 1..3);
    assert_eq!(buffer.clear_forwards(&CursorPos { x: 2, y: 0 }), Some(2));
    assert_eq!(buffer.text_len(), buffer.data().visible.len());
}

#[test]
fn resize_reflows_text() {
    let mut buffer = TerminalBuffer2::new(10, 3);
    buffer.insert_data(&CursorPos { x: 0, y: 0 }, b"0123456789abc");
    let response = buffer.set_win_size(5, 4, &CursorPos { x: 3, y: 1 });
    assert!(response.changed);
    assert_eq!(buffer.get_win_size(), (5, 4));
    assert_eq!(buffer.data().visible, b"0123456789abc\n");
    assert_eq!(response.new_cursor_pos, CursorPos { x: 3, y: 2 });

    let response = buffer.set_win_size(5, 4, &CursorPos { x: 1, y: 1 });
    assert!(!response.changed);
    assert_eq!(response.new_cursor_pos, CursorPos { x: 1, y: 1 });
}

#[test]
fn buffer_rows_stay_within_width() {
    let mut buffer = TerminalBuffer2::new(3, 2);
    buffer.insert_data(&CursorPos { x: 2, y: 1 }, b"abcdefghij\nklm");
    let data = buffer.data();
    for line in data.visible.split(|b| *b == b'\n') {
        assert!(line.len() <= 6);
    }
    assert_eq!(data.scrollback, b"  abcdefghij\n");
    assert_eq!(data.visible, b"klm\n");
}

#[test]
fn buffer_snapshot_errors() {
    assert_eq!(
        TerminalBuffer2::from_snapshot(SnapshotItem::Int(3)).err(),
        Some(LoadSnapshotError::RootNotMap)
    );
    assert_eq!(
        TerminalBuffer2::from_snapshot(SnapshotItem::Object(vec![])).err(),
        Some(LoadSnapshotError::WidthNotPresent)
    );
    let mut buffer = TerminalBuffer2::new(2, 2);
    buffer.insert_data(&CursorPos { x: 0, y: 0 }, b"ab");
    let snap = buffer.snapshot().expect("snapshot");
    let SnapshotItem::Object(mut entries) = snap else { panic!("not a map") };
    entries[0].1 = SnapshotItem::Int(1);
    assert_eq!(
        TerminalBuffer2::from_snapshot(SnapshotItem::Object(entries)).err(),
        Some(LoadSnapshotError::Inconsistent)
    );
}
