use termie::format_tracker::{LoadFormatTagSnapshotError, LoadFormatTrackerSnapshotError};
use termie::snapshot::SnapshotItem;
use termie::format_tracker::{ranges_overlap, FormatTagSerialized, FormatTracker};
use termie::terminal::{CursorPos, CursorState, TerminalColor};

fn tag(start: usize, end: usize, color: TerminalColor, bold: bool) -> FormatTagSerialized {
    FormatTagSerialized { start, end, color, bold }
}

#[test]
fn basic_color_tracker_test() {
    let mut format_tracker = FormatTracker::new();
    let mut cursor_state = CursorState {
        pos: CursorPos { x: 0, y: 0 },
        color: TerminalColor::Default,
        bold: false,
    };

    cursor_state.color = TerminalColor::Yellow;
    format_tracker.push_range(&cursor_state, 3..10);
    assert_eq!(
        format_tracker.tags(),
        &[
            tag(0, 3, TerminalColor::Default, false),
            tag(3, 10, TerminalColor::Yellow, false),
            tag(10, usize::MAX, TerminalColor::Default, false),
        ]
    );

    cursor_state.color = TerminalColor::Blue;
    format_tracker.push_range(&cursor_state, 5..7);
    assert_eq!(
        format_tracker.tags(),
        &[
            tag(0, 3, TerminalColor::Default, false),
            tag(3, 5, TerminalColor::Yellow, false),
            tag(5, 7, TerminalColor::Blue, false),
            tag(7, 10, TerminalColor::Yellow, false),
            tag(10, usize::MAX, TerminalColor::Default, false),
        ]
    );

    cursor_state.color = TerminalColor::Green;
    format_tracker.push_range(&cursor_state, 7..9);
    assert_eq!(
        format_tracker.tags(),
        &[
            tag(0, 3, TerminalColor::Default, false),
            tag(3, 5, TerminalColor::Yellow, false),
            tag(5, 7, TerminalColor::Blue, false),
            tag(7, 9, TerminalColor::Green, false),
            tag(9, 10, TerminalColor::Yellow, false),
            tag(10, usize::MAX, TerminalColor::Default, false),
        ]
    );

    cursor_state.color = TerminalColor::Red;
    cursor_state.bold = true;
    format_tracker.push_range(&cursor_state, 6..11);
    assert_eq!(
        format_tracker.tags(),
        &[
            tag(0, 3, TerminalColor::Default, false),
            tag(3, 5, TerminalColor::Yellow, false),
            tag(5, 6, TerminalColor::Blue, false),
            tag(6, 11, TerminalColor::Red, true),
            tag(11, usize::MAX, TerminalColor::Default, false),
        ]
    );
}

#[test]
fn test_range_overlap() {
    assert!(ranges_overlap(5..10, 7..9));
    assert!(ranges_overlap(5..10, 8..12));
    assert!(ranges_overlap(5..10, 3..6));
    assert!(ranges_overlap(5..10, 2..12));
    assert!(!ranges_overlap(5..10, 10..12));
    assert!(!ranges_overlap(5..10, 0..5));
}

#[test]
fn test_format_tracker_del_range() {
    let mut format_tracker = FormatTracker::new();
    let mut cursor = CursorState {
        pos: CursorPos { x: 0, y: 0 },
        color: TerminalColor::Blue,
        bold: false,
    };
    format_tracker.push_range(&cursor, 0..10);
    cursor.color = TerminalColor::Red;
    format_tracker.push_range(&cursor, 10..20);

    format_tracker.delete_range(0..2);
    assert_eq!(
        format_tracker.tags(),
        [
            tag(0, 8, TerminalColor::Blue, false),
            tag(8, 18, TerminalColor::Red, false),
            tag(18, usize::MAX, TerminalColor::Default, false),
        ]
    );

    format_tracker.delete_range(2..4);
    assert_eq!(
        format_tracker.tags(),
        [
            tag(0, 6, TerminalColor::Blue, false),
            tag(6, 16, TerminalColor::Red, false),
            tag(16, usize::MAX, TerminalColor::Default, false),
        ]
    );

    format_tracker.delete_range(4..6);
    assert_eq!(
        format_tracker.tags(),
        [
            tag(0, 4, TerminalColor::Blue, false),
            tag(4, 14, TerminalColor::Red, false),
            tag(14, usize::MAX, TerminalColor::Default, false),
        ]
    );

    format_tracker.delete_range(2..7);
    assert_eq!(
        format_tracker.tags(),
        [
            tag(0, 2, TerminalColor::Blue, false),
            tag(2, 9, TerminalColor::Red, false),
            tag(9, usize::MAX, TerminalColor::Default, false),
        ]
    );
}

#[test]
fn test_range_adjustment() {
    let mut format_tracker = FormatTracker::new();
    let mut cursor = CursorState {
        pos: CursorPos { x: 0, y: 0 },
        color: TerminalColor::Blue,
        bold: false,
    };
    format_tracker.push_range(&cursor, 0..5);
    cursor.color = TerminalColor::Red;
    format_tracker.push_range(&cursor, 5..10);

    assert_eq!(
        format_tracker.tags(),
        [
            tag(0, 5, TerminalColor::Blue, false),
            tag(5, 10, TerminalColor::Red, false),
            tag(10, usize::MAX, TerminalColor::Default, false),
        ]
    );

    format_tracker.push_range_adjustment(0..3);
    assert_eq!(
        format_tracker.tags(),
        [
            tag(0, 8, TerminalColor::Blue, false),
            tag(8, 13, TerminalColor::Red, false),
            tag(13, usize::MAX, TerminalColor::Default, false),
        ]
    );

    format_tracker.push_range_adjustment(15..50);
    assert_eq!(
        format_tracker.tags(),
        [
            tag(0, 8, TerminalColor::Blue, false),
            tag(8, 13, TerminalColor::Red, false),
            tag(13, usize::MAX, TerminalColor::Default, false),
        ]
    );

    format_tracker.push_range_adjustment(10..12);
    assert_eq!(
        format_tracker.tags(),
        [
            tag(0, 8, TerminalColor::Blue, false),
            tag(8, 15, TerminalColor::Red, false),
            tag(15, usize::MAX, TerminalColor::Default, false),
        ]
    );
}

#[test]
fn test_format_tag_snapshot() {
    let tag = FormatTagSerialized {
        start: 0,
        end: usize::MAX,
        color: TerminalColor::Blue,
        bold: true,
    };

    let loaded = FormatTagSerialized::from_snapshot(tag.snapshot().expect("failed to snapshot"))
        .expect("failed to load snapshot");
    assert_eq!(loaded, tag);

    let tag = FormatTagSerialized {
        start: 50,
        end: 105,
        color: TerminalColor::Red,
        bold: false,
    };
    let loaded = FormatTagSerialized::from_snapshot(tag.snapshot().expect("failed to snapshot"))
        .expect("failed to load snapshot");
    assert_eq!(loaded, tag);
}

#[test]
fn test_format_tracker_snapshot() {
    let mut tracker = FormatTracker::new();
    let mut cursor = CursorState {
        pos: CursorPos { x: 0, y: 0 },
        color: TerminalColor::Black,
        bold: false,
    };
    tracker.push_range(&cursor, 0..5);
    cursor.color = TerminalColor::Red;
    cursor.bold = true;
    tracker.push_range(&cursor, 5..usize::MAX);
    assert_eq!(
        tracker.tags(),
        [
            tag(0, 5, TerminalColor::Black, false),
            tag(5, usize::MAX, TerminalColor::Red, true),
        ]
    );

    let loaded = FormatTracker::from_snapshot(tracker.snapshot().expect("failed to snapshot"))
        .expect("failed to load snapshot");
    assert_eq!(loaded.tags(), tracker.tags());
}

#[test]
fn empty_range_changes_nothing() {
    let mut tracker = FormatTracker::new();
    let cursor = CursorState {
        pos: CursorPos { x: 0, y: 0 },
        color: TerminalColor::Green,
        bold: false,
    };
    tracker.push_range(&cursor, 4..4);
    assert_eq!(tracker.tags(), [tag(0, usize::MAX, TerminalColor::Default, false)]);
}

#[test]
fn delete_to_unbounded_end() {
    let mut tracker = FormatTracker::new();
    let cursor = CursorState {
        pos: CursorPos { x: 0, y: 0 },
        color: TerminalColor::Cyan,
        bold: false,
    };
    tracker.push_range(&cursor, 2..6);
    tracker.delete_range(3..usize::MAX);
    assert_eq!(
        tracker.tags(),
        [
            tag(0, 2, TerminalColor::Default, false),
            tag(2, 3, TerminalColor::Cyan, false),
            tag(3, usize::MAX, TerminalColor::Default, false),
        ]
    );
}

#[test]
fn tracker_snapshot_errors() {
    assert_eq!(
        FormatTracker::from_snapshot(SnapshotItem::Bool(false)).err().map(|e| e),
        Some(LoadFormatTrackerSnapshotError::NotArray)
    );
    assert_eq!(
        FormatTracker::from_snapshot(SnapshotItem::Array(vec![])).err(),
        Some(LoadFormatTrackerSnapshotError::NotContiguous)
    );
    assert_eq!(
        FormatTracker::from_snapshot(SnapshotItem::Array(vec![SnapshotItem::Int(1)])).err(),
        Some(LoadFormatTrackerSnapshotError::LoadTag(LoadFormatTagSnapshotError::RootNotMap))
    );
    let bad_color = tag(0, usize::MAX, TerminalColor::Red, false).snapshot().expect("snapshot");
    let SnapshotItem::Object(mut entries) = bad_color else { panic!("not a map") };
    entries[2].1 = SnapshotItem::String("purple".to_string());
    assert_eq!(
        FormatTagSerialized::from_snapshot(SnapshotItem::Object(entries)).err(),
        Some(LoadFormatTagSnapshotError::ParseColor)
    );
}

fn assert_contiguous(tags: &[FormatTagSerialized]) {
    assert!(!tags.is_empty());
    assert_eq!(tags[0].start, 0);
    assert_eq!(tags[tags.len() - 1].end, usize::MAX);
    for pair in tags.windows(2) {
        assert!(pair[0].start < pair[0].end);
        assert_eq!(pair[0].end, pair[1].start);
    }
}

#[test]
fn tags_stay_contiguous_and_cover_the_text() {
    let mut tracker = FormatTracker::new();
    let mut cursor = CursorState {
        pos: CursorPos { x: 0, y: 0 },
        color: TerminalColor::Red,
        bold: false,
    };
    let ops: [(usize, usize); 6] = [(0, 4), (2, 9), (9, 10), (1, 3), (20, 30), (5, 25)];
    for (i, (a, b)) in ops.iter().enumerate() {
        cursor.bold = i % 2 == 0;
        tracker.push_range(&cursor, *a..*b);
        assert_contiguous(&tracker.tags());
        if i == 2 {
            tracker.delete_range(3..5);
            assert_contiguous(&tracker.tags());
        }
        if i == 4 {
            tracker.push_range_adjustment(7..11);
            assert_contiguous(&tracker.tags());
        }
    }
    let tags = tracker.tags();
    let bounded: usize = tags[..tags.len() - 1].iter().map(|t| t.end - t.start).sum();
    assert_eq!(bounded, tags[tags.len() - 1].start);
    assert_eq!(bounded, 34);
}
