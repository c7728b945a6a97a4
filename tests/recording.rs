use termie::snapshot::{NotIntOfType, NotMap};
use termie::recording::{LoadRecordingError, ParseRecordingItemError, Recording, RecordingItem};
use termie::replay::{ControlAction, RecordingAction, ReplayControl};
use termie::snapshot::SnapshotItem;

fn s(v: &str) -> String {
    v.to_string()
}

#[test]
fn test_recorder() {
    let mut recording = Recording::new();
    recording.snapshot_item(
        s("test_arr"),
        SnapshotItem::Array(vec![
            SnapshotItem::Int(1),
            SnapshotItem::Int(2),
            SnapshotItem::Int(3),
            SnapshotItem::Int(4),
        ]),
    );
    recording.snapshot_item(
        s("test_map"),
        SnapshotItem::Object(vec![
            (s("int"), SnapshotItem::Int(1)),
            (s("string"), SnapshotItem::String(s("hello"))),
            (s("bool"), SnapshotItem::Bool(true)),
        ]),
    );

    recording.write(b"asdf");
    recording.write(b"1234");
    recording.set_win_size(10, 20);
    recording.write(b"xyzw");
    assert_eq!(
        recording.items(),
        &vec![
            RecordingItem::Write { data: b"asdf1234".to_vec() },
            RecordingItem::SetWinSize { width: 10, height: 20 },
            RecordingItem::Write { data: b"xyzw".to_vec() },
        ]
    );

    let saved = recording.into_snapshot();
    let loaded = Recording::from_snapshot(saved).expect("failed to load recording");
    assert_eq!(
        loaded.items(),
        &vec![
            RecordingItem::Write { data: b"asdf1234".to_vec() },
            RecordingItem::SetWinSize { width: 10, height: 20 },
            RecordingItem::Write { data: b"xyzw".to_vec() },
        ]
    );
    let SnapshotItem::Object(state) = loaded.into_initial_state() else {
        panic!("initial state is not a map")
    };
    assert_eq!(state.len(), 2);
    assert_eq!(state[0].0, "test_arr");
    assert_eq!(state[1].0, "test_map");
}

#[test]
fn recording_load_errors() {
    assert_eq!(
        Recording::from_snapshot(SnapshotItem::Int(0)).err(),
        Some(LoadRecordingError::RootNotObject)
    );
    assert_eq!(
        Recording::from_snapshot(SnapshotItem::Object(vec![])).err(),
        Some(LoadRecordingError::InitialStateMissing)
    );
    let bad_item = SnapshotItem::Object(vec![
        (s("initial_state"), SnapshotItem::Object(vec![])),
        (
            s("items"),
            SnapshotItem::Array(vec![SnapshotItem::Object(vec![(
                s("type"),
                SnapshotItem::String(s("resize")),
            )])]),
        ),
    ]);
    assert_eq!(
        Recording::from_snapshot(bad_item).err(),
        Some(LoadRecordingError::ItemInvalid(ParseRecordingItemError::UnexpectedType))
    );
}

#[test]
fn replay_steps_through_actions() {
    let mut recording = Recording::new();
    recording.write(b"ab");
    recording.set_win_size(30, 12);
    recording.write(b"");
    recording.set_win_size(31, 13);
    recording.write(b"c");
    let mut control = ReplayControl::new(recording);
    assert_eq!(control.len(), 5);
    assert_eq!(control.current_pos(), 0);
    assert_eq!(control.next(), RecordingAction::Write(b'a'));
    assert_eq!(control.next(), RecordingAction::Write(b'b'));
    let resize = control.next();
    assert_eq!(resize, RecordingAction::SetWinSize { width: 30, height: 12 });
    assert_eq!(resize.control_action(), ControlAction::Resize { width: 30, height: 12 });
    assert_eq!(control.current_pos(), 3);
    assert_eq!(control.next(), RecordingAction::SetWinSize { width: 31, height: 13 });
    assert_eq!(control.next(), RecordingAction::Write(b'c'));
    assert_eq!(control.current_pos(), 5);
    assert_eq!(control.next(), RecordingAction::Finished);
    assert_eq!(control.next().control_action(), ControlAction::Continue);
    assert_eq!(control.current_pos(), 5);
}

#[test]
fn snapshot_item_conversions() {
    assert_eq!(SnapshotItem::Int(7).into_num(), Ok(7));
    assert_eq!(SnapshotItem::Int(-7).into_num(), Err(NotIntOfType::Cast));
    assert_eq!(SnapshotItem::Bool(true).into_i64(), Err(NotIntOfType::NotNumber));
    assert_eq!(SnapshotItem::Bool(true).into_bool(), Ok(true));
    assert_eq!(SnapshotItem::String(s("x")).into_string(), Ok(s("x")));
    assert_eq!(SnapshotItem::Int(1).into_map().err(), Some(NotMap));
    assert!(SnapshotItem::Array(vec![]).into_vec().is_ok());
}
