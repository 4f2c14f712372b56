use sudoku_server::board::{BoardDiff, BoardDiffOperation, BoardPencilType, BoardSquare, BoardState};
use sudoku_server::cursors::CursorSelection;
use sudoku_server::digit::Digit;
use sudoku_server::error::SudokuError;
use sudoku_server::protocol::{RequestMessage, ResponseMessage};
use sudoku_server::room::{RoomId, RoomState, MAX_SESSIONS_PER_ROOM};
use sudoku_server::session::{
    handle_diff_event, handle_request, make_init_message, DiffStepAction, DiffStreamEvent,
    RequestOutcome, SessionSync,
};
use tokio::sync::broadcast::error::TryRecvError;

fn set_number_diff(squares: Vec<u8>, digit: Option<Digit>) -> BoardDiff {
    BoardDiff {
        squares,
        operation: BoardDiffOperation::SetNumber { digit },
    }
}

#[test]
fn lone_client_applies_a_diff() {
    let mut room = RoomState::new(RoomId::from_u128(42));
    let mut session = room.new_session().unwrap();
    let mut sync = SessionSync::new();

    // the init frame carries the room id and the untouched board
    match make_init_message(&room) {
        ResponseMessage::Init {
            room_id,
            board_state,
        } => {
            assert_eq!(room_id, room.room_id.to_string());
            assert_eq!(board_state, BoardState::default());
        }
        _ => panic!("expected an init frame"),
    }

    let request = RequestMessage::ApplyDiffs {
        sync_id: 1,
        diffs: vec![set_number_diff(vec![0], Some(Digit::D5))],
    };
    let outcome = handle_request(
        &mut room,
        &mut sync,
        session.session_id,
        session.cursor_index,
        request,
    );
    assert!(matches!(outcome, RequestOutcome::NoResponse));
    assert_eq!(room.board.square_at(0).number, Some(Digit::D5));

    // the session's own subscription sees the broadcast and echoes the sync id
    let bc = session.diff_rx.try_recv().unwrap();
    assert_eq!(bc.sender_id, session.session_id);
    assert_eq!(bc.sync_id, 1);
    match handle_diff_event(
        &mut sync,
        session.session_id,
        &room,
        DiffStreamEvent::Message(bc),
    ) {
        DiffStepAction::Respond(ResponseMessage::PartialUpdate { sync_id, diffs }) => {
            assert_eq!(sync_id, Some(1));
            assert_eq!(diffs, vec![set_number_diff(vec![0], Some(Digit::D5))]);
        }
        _ => panic!("expected a partial update"),
    }
}

#[test]
fn two_clients_see_the_same_diffs() {
    let mut room = RoomState::new(RoomId::from_u128(7));
    let mut session_a = room.new_session().unwrap();
    let mut session_b = room.new_session().unwrap();
    let mut sync_a = SessionSync::new();
    let mut sync_b = SessionSync::new();

    let diffs = vec![BoardDiff {
        squares: vec![0, 1],
        operation: BoardDiffOperation::AddPencilMark {
            pencil_type: BoardPencilType::Centers,
            digit: Digit::D3,
        },
    }];
    let outcome = handle_request(
        &mut room,
        &mut sync_a,
        session_a.session_id,
        session_a.cursor_index,
        RequestMessage::ApplyDiffs {
            sync_id: 7,
            diffs: diffs.clone(),
        },
    );
    assert!(matches!(outcome, RequestOutcome::NoResponse));

    // both sessions receive one partial update with the same diffs; the
    // sender's frame carries its sync id, the other's carries none
    let bc_a = session_a.diff_rx.try_recv().unwrap();
    match handle_diff_event(
        &mut sync_a,
        session_a.session_id,
        &room,
        DiffStreamEvent::Message(bc_a),
    ) {
        DiffStepAction::Respond(ResponseMessage::PartialUpdate { sync_id, diffs: got }) => {
            assert_eq!(sync_id, Some(7));
            assert_eq!(got, diffs);
        }
        _ => panic!("expected a partial update"),
    }
    let bc_b = session_b.diff_rx.try_recv().unwrap();
    match handle_diff_event(
        &mut sync_b,
        session_b.session_id,
        &room,
        DiffStreamEvent::Message(bc_b),
    ) {
        DiffStepAction::Respond(ResponseMessage::PartialUpdate { sync_id, diffs: got }) => {
            assert_eq!(sync_id, None);
            assert_eq!(got, diffs);
        }
        _ => panic!("expected a partial update"),
    }
    assert!(matches!(
        session_a.diff_rx.try_recv(),
        Err(TryRecvError::Empty)
    ));
    assert!(matches!(
        session_b.diff_rx.try_recv(),
        Err(TryRecvError::Empty)
    ));
}

#[test]
fn cursor_updates_elide_the_receivers_slot() {
    let mut room = RoomState::new(RoomId::from_u128(9));
    let session_a = room.new_session().unwrap();
    let session_b = room.new_session().unwrap();
    let mut sync_b = SessionSync::new();

    let outcome = handle_request(
        &mut room,
        &mut sync_b,
        session_b.session_id,
        session_b.cursor_index,
        RequestMessage::UpdateCursor {
            selection: CursorSelection::deserialize(&[4, 5, 6]).unwrap(),
        },
    );
    assert!(matches!(outcome, RequestOutcome::CursorUpdated));

    // session A (slot 0) sees B's selection under key 1; B sees nothing,
    // since its own slot is elided and A's selection is empty
    assert_eq!(
        room.cursors.clone().into_view(session_a.cursor_index).visible_entries(),
        vec![(1usize, vec![4u8, 5, 6])]
    );
    assert_eq!(
        room.cursors.clone().into_view(session_b.cursor_index).visible_entries(),
        Vec::new()
    );
}

#[test]
fn lagged_session_gets_a_full_update() {
    let mut room = RoomState::new(RoomId::from_u128(3));
    let session_a = room.new_session().unwrap();
    let mut session_b = room.new_session().unwrap();
    let mut sync_b = SessionSync::new();
    let _ = session_a;

    // push well past the queue capacity while B is not listening
    for k in 0..40u64 {
        room.apply_diffs(1, k, vec![set_number_diff(vec![0], Some(Digit::D5))])
            .unwrap();
    }
    assert!(matches!(
        session_b.diff_rx.try_recv(),
        Err(TryRecvError::Lagged(_))
    ));

    match handle_diff_event(&mut sync_b, session_b.session_id, &room, DiffStreamEvent::Lagged) {
        DiffStepAction::Resubscribe(new_rx, ResponseMessage::FullUpdate { sync_id, board_state }) => {
            // B's client never sent a sync id, so none is echoed
            assert_eq!(sync_id, None);
            assert_eq!(board_state, room.board);
            session_b.diff_rx = new_rx;
        }
        _ => panic!("expected a full update with a fresh subscription"),
    }
    // the fresh subscription starts at the present
    assert!(matches!(
        session_b.diff_rx.try_recv(),
        Err(TryRecvError::Empty)
    ));
}

#[test]
fn locked_square_survives_a_diff_but_the_diff_is_still_broadcast() {
    let mut room = RoomState::new(RoomId::from_u128(11));
    let mut session = room.new_session().unwrap();
    let mut sync = SessionSync::new();

    let mut squares = vec![BoardSquare::default(); 81];
    squares[0] = BoardSquare {
        number: Some(Digit::D5),
        locked: true,
        ..BoardSquare::default()
    };
    let outcome = handle_request(
        &mut room,
        &mut sync,
        session.session_id,
        session.cursor_index,
        RequestMessage::SetBoardState {
            board_state: BoardState::from_squares(squares).unwrap(),
        },
    );
    assert!(matches!(outcome, RequestOutcome::NoResponse));

    let outcome = handle_request(
        &mut room,
        &mut sync,
        session.session_id,
        session.cursor_index,
        RequestMessage::ApplyDiffs {
            sync_id: 1,
            diffs: vec![set_number_diff(vec![0], None)],
        },
    );
    assert!(matches!(outcome, RequestOutcome::NoResponse));
    // the apply was a no-op on the locked square
    assert_eq!(room.board.square_at(0).number, Some(Digit::D5));
    assert!(room.board.square_at(0).locked);
    // but the diff is still honored at the wire level
    let bc = session.diff_rx.try_recv().unwrap();
    assert_eq!(bc.board_diffs, vec![set_number_diff(vec![0], None)]);
}

#[test]
fn full_room_refuses_the_next_session() {
    let mut room = RoomState::new(RoomId::from_u128(2));
    for _ in 0..MAX_SESSIONS_PER_ROOM {
        room.new_session().unwrap();
    }
    let err = match room.new_session() {
        Err(err) => err,
        Ok(_) => panic!("the ninth session should be refused"),
    };
    assert_eq!(err, SudokuError::RoomFull(MAX_SESSIONS_PER_ROOM));
    assert_eq!(
        err.message(),
        "This room is full. No more than 8 connections are allowed to a single room."
    );
}

#[test]
fn oversized_diff_group_is_refused_whole() {
    let mut room = RoomState::new(RoomId::from_u128(5));
    let session = room.new_session().unwrap();
    let mut sync = SessionSync::new();
    let diffs: Vec<BoardDiff> = (0..9)
        .map(|i| set_number_diff(vec![i as u8], Some(Digit::D1)))
        .collect();
    let outcome = handle_request(
        &mut room,
        &mut sync,
        session.session_id,
        session.cursor_index,
        RequestMessage::ApplyDiffs { sync_id: 4, diffs },
    );
    match outcome {
        RequestOutcome::Respond(ResponseMessage::Error { message }) => {
            assert_eq!(message, SudokuError::TooManyBoardDiffs(9, 8));
            assert_eq!(
                message.message(),
                "Got 9 diffs in a request, but there is a maximum of 8 diffs per request."
            );
        }
        _ => panic!("expected an error frame"),
    }
    assert_eq!(room.board.square_at(0).number, None);
}

#[test]
fn dirty_flag_tracks_writeback() {
    let mut room = RoomState::new(RoomId::from_u128(77));
    // newly constructed rooms are dirty
    assert!(room.dirty);

    let (id_blob, board_blob) = room.writeback_snapshot();
    assert!(!room.dirty);
    assert_eq!(id_blob, RoomId::from_u128(77).to_le_bytes());
    assert_eq!(board_blob.len(), 486);

    // an empty vec of diffs doesn't change the board, but still marks the
    // room as dirty
    room.apply_diffs(0, 0, vec![]).unwrap();
    assert!(room.dirty);

    // a room read back from its blob is clean and holds the same board
    let restored = RoomState::sql_deserialize(RoomId::from_u128(77), &board_blob).unwrap();
    assert!(!restored.dirty);
    assert_eq!(restored.board, room.board);
    assert_eq!(restored.room_id, room.room_id);
}

#[test]
fn error_messages_match_the_wire_text() {
    assert_eq!(
        SudokuError::InvalidSquareIndex(200).message(),
        "Got a diff containing an index of 200, which is out of bounds."
    );
    assert_eq!(
        SudokuError::ReceivedBinaryMessage.message(),
        "Messages must be JSON-encoded text, not binary blobs."
    );
    assert_eq!(
        SudokuError::SerdeJson("boom".to_owned()).message(),
        "Request could not be parsed: boom"
    );
    assert_eq!(
        SudokuError::TooManySquares(82, 81).message(),
        "Received a diff containing 82 squares, but a diff can't contain more than 81 squares."
    );
    assert_eq!(SudokuError::Internal("x".to_owned()).message(), "Internal Error");
}

#[test]
fn session_ids_are_never_reused() {
    let mut room = RoomState::new(RoomId::from_u128(1));
    let first = room.new_session().unwrap();
    let second = room.new_session().unwrap();
    assert_eq!(first.session_id, 1);
    assert_eq!(second.session_id, 2);
    // even a refused session advances the counter
    for _ in 0..MAX_SESSIONS_PER_ROOM {
        let _ = room.new_session();
    }
    let mut another_room = RoomState::new(RoomId::from_u128(1));
    assert_eq!(another_room.new_session().unwrap().session_id, 1);
}
