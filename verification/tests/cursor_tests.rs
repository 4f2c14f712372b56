use sudoku_server::cursors::{CursorSelection, CursorUpdateError, CursorsMap};
use sudoku_server::room::MAX_SESSIONS_PER_ROOM;

#[test]
fn test_serialize() {
    assert_eq!(
        CursorSelection {
            square_bit_flags: 0
        }
        .serialize()
        .unwrap(),
        Vec::<u8>::new()
    );
    assert_eq!(
        CursorSelection {
            square_bit_flags: 0b10101
        }
        .serialize()
        .unwrap(),
        vec![0, 2, 4]
    );
    assert_eq!(
        CursorSelection {
            square_bit_flags: 1 << 80
        }
        .serialize()
        .unwrap(),
        vec![80]
    );
    assert!(CursorSelection {
        square_bit_flags: 1 << 81
    }
    .serialize()
    .is_err());
}

#[test]
fn test_deserialize() {
    assert_eq!(
        CursorSelection::deserialize(&[]).unwrap(),
        CursorSelection {
            square_bit_flags: 0
        },
    );
    assert_eq!(
        CursorSelection::deserialize(&[0, 2, 4]).unwrap(),
        CursorSelection {
            square_bit_flags: 0b10101
        },
    );
    assert_eq!(
        CursorSelection::deserialize(&[80]).unwrap(),
        CursorSelection {
            square_bit_flags: 1 << 80
        },
    );
    assert!(CursorSelection::deserialize(&[81]).is_err());
}

#[test]
fn selection_round_trip() {
    for sel in [
        CursorSelection {
            square_bit_flags: 0,
        },
        CursorSelection {
            square_bit_flags: 0b1011,
        },
        CursorSelection {
            square_bit_flags: (1 << 80) | (1 << 40) | 1,
        },
    ] {
        let indices = sel.serialize().unwrap();
        assert_eq!(CursorSelection::deserialize(&indices).unwrap(), sel);
    }
}

#[test]
fn test_empty_view() {
    let mut map = CursorsMap::new();
    let idx = map.new_session(1234).unwrap();
    assert_eq!(map.into_view(idx).visible_entries(), Vec::new());
}

#[test]
fn map_test_two_clients() {
    let mut map = CursorsMap::new();
    let idx0 = map.new_session(1234).unwrap();
    let idx1 = map.new_session(4321).unwrap();
    map.update(idx0, CursorSelection::deserialize(&[1, 2, 3]).unwrap())
        .unwrap();
    map.update(idx1, CursorSelection::deserialize(&[4, 5, 6]).unwrap())
        .unwrap();
    // the view for idx0 shows the results for idx1
    assert_eq!(
        map.clone().into_view(idx0).visible_entries(),
        vec![(1usize, vec![4u8, 5, 6])],
    );
    // and the view for idx1 shows the results for idx0
    assert_eq!(
        map.clone().into_view(idx1).visible_entries(),
        vec![(0usize, vec![1u8, 2, 3])],
    );
}

#[test]
fn test_full_map() {
    let mut map = CursorsMap::new();
    let valid_sessions: Vec<_> = (0..MAX_SESSIONS_PER_ROOM)
        .map(|session_id| map.new_session(session_id as u64).unwrap())
        .collect();
    assert!(matches!(
        map.new_session(1000),
        Err(CursorUpdateError::Full)
    ));

    // if we remove an entry from a full map and then call new_session, we get
    // the index we just removed
    map.remove(valid_sessions[0]).unwrap();
    assert_eq!(map.new_session(1000).unwrap(), valid_sessions[0]);
}

#[test]
fn removed_slot_is_invalid_until_reused() {
    let mut map = CursorsMap::new();
    let idx = map.new_session(7).unwrap();
    map.remove(idx).unwrap();
    assert!(matches!(
        map.remove(idx),
        Err(CursorUpdateError::InvalidIndex(_))
    ));
    assert!(matches!(
        map.update(idx, CursorSelection::new()),
        Err(CursorUpdateError::InvalidIndex(_))
    ));
}
