use vstd::prelude::*;
use vstd::string::StringExecFns;

use crate::board::{spec_apply_diffs, spec_diffs_result, BoardState};
use crate::cursors::{sel_wf, CursorsMapIndex};
use crate::error::SudokuError;
use crate::protocol::{RequestMessage, ResponseMessage};
use crate::room::{
    BoardDiffBroadcast, ClientSyncId, RoomState, SessionId, MAX_BOARD_DIFF_GROUP_SIZE,
};

verus! {

/// The sync-id pair of one session, shared between its request task and its
/// diff task: the highest sync id received from the client so far, and the
/// sync id last echoed back to it.
pub struct SessionSync {
    pub last_received_sync_id: Option<ClientSyncId>,
    pub last_sent_sync_id: Option<ClientSyncId>,
}

impl SessionSync {
    /// The state of a session that has not seen any sync id yet.
    pub fn new() -> (r: SessionSync)
        ensures
            r.last_received_sync_id is None,
            r.last_sent_sync_id is None,
    {
        SessionSync { last_received_sync_id: None, last_sent_sync_id: None }
    }
}

/// One event on a session's diff stream, as its diff task observes it.
pub enum DiffStreamEvent {
    /// The next broadcast arrived in order.
    Message(BoardDiffBroadcast),
    /// The session fell more than the queue capacity behind; the skipped
    /// broadcasts are gone.
    Lagged,
    /// The stream closed because the room was dropped.
    Closed,
}

/// What the diff task must do after handling one event.
pub enum DiffStepAction {
    /// Send this frame on the session's socket.
    Respond(ResponseMessage),
    /// Replace the session's receiver with this fresh one, pointed at the
    /// present, then send the frame.
    Resubscribe(tokio::sync::broadcast::Receiver<BoardDiffBroadcast>, ResponseMessage),
    /// The stream ended; finish the task normally.
    Stop,
}

/// The first frame of a session: the room's textual id with a copy of its
/// board.
pub fn make_init_message(room: &RoomState) -> (r: ResponseMessage)
    ensures
        r matches ResponseMessage::Init { room_id, board_state } && room_id@
            == crate::room::id::spec_format(room.room_id@) && board_state@ == room.board@,
{
    ResponseMessage::Init {
        room_id: room.room_id.to_string(),
        board_state: room.board.clone_board(),
    }
}

/// One step of a session's diff task. A broadcast in order is forwarded as a
/// partial update carrying exactly its diffs, and when it is the session's
/// own echo the sync id it carried becomes the one echoed back. Falling
/// behind resets the echoed sync id to the last one the client sent and
/// answers with a full update of the current board over a fresh
/// subscription. A closed stream stops the task.
pub fn handle_diff_event(
    sync: &mut SessionSync,
    session_id: SessionId,
    room: &RoomState,
    event: DiffStreamEvent,
) -> (r: DiffStepAction)
    ensures
        final(sync).last_received_sync_id == old(sync).last_received_sync_id,
        match event {
            DiffStreamEvent::Message(bc) => {
                &&& final(sync).last_sent_sync_id == (if bc.sender_id == session_id {
                    Some(bc.sync_id)
                } else {
                    old(sync).last_sent_sync_id
                })
                &&& r matches DiffStepAction::Respond(ResponseMessage::PartialUpdate {
                    sync_id,
                    diffs,
                }) && sync_id == final(sync).last_sent_sync_id && diffs == bc.board_diffs
            },
            DiffStreamEvent::Lagged => {
                &&& final(sync).last_sent_sync_id == old(sync).last_received_sync_id
                &&& r matches DiffStepAction::Resubscribe(_, ResponseMessage::FullUpdate {
                    sync_id,
                    board_state,
                }) && sync_id == old(sync).last_received_sync_id && board_state@ == room.board@
            },
            DiffStreamEvent::Closed => {
                &&& final(sync).last_sent_sync_id == old(sync).last_sent_sync_id
                &&& r is Stop
            },
        },
{
    match event {
        DiffStreamEvent::Message(bc) => {
            if bc.sender_id == session_id {
                sync.last_sent_sync_id = Some(bc.sync_id);
            }
            DiffStepAction::Respond(
                ResponseMessage::PartialUpdate {
                    sync_id: sync.last_sent_sync_id,
                    diffs: bc.board_diffs,
                },
            )
        },
        DiffStreamEvent::Lagged => {
            sync.last_sent_sync_id = sync.last_received_sync_id;
            DiffStepAction::Resubscribe(
                room.new_sessionless_receiver(),
                ResponseMessage::FullUpdate {
                    sync_id: sync.last_received_sync_id,
                    board_state: room.board.clone_board(),
                },
            )
        },
        DiffStreamEvent::Closed => DiffStepAction::Stop,
    }
}

/// What the request task must do after handling one request.
pub enum RequestOutcome {
    /// Nothing to send; the request was absorbed.
    NoResponse,
    /// Send this frame; the session stays open.
    Respond(ResponseMessage),
    /// The cursor table changed; publish the room's new table to the
    /// watchers.
    CursorUpdated,
}

/// One step of a session's request task, under the room's lock. A board
/// replacement is absorbed without broadcasting. A group of diffs first
/// records its sync id, then goes through the room, and only a refusal is
/// answered. A cursor move lands in the session's slot and asks the caller
/// to publish; a missing slot is an internal fault reported to the client.
pub fn handle_request(
    room: &mut RoomState,
    sync: &mut SessionSync,
    session_id: SessionId,
    cursor_index: CursorsMapIndex,
    request: RequestMessage,
) -> (r: RequestOutcome)
    requires
        old(room).wf(),
        (cursor_index@ as int) < old(room).cursors@.len(),
        request matches RequestMessage::SetBoardState { board_state } ==> board_state.wf(),
        request matches RequestMessage::UpdateCursor { selection } ==> sel_wf(selection@),
    ensures
        final(room).wf(),
        final(room).room_id == old(room).room_id,
        final(room).board_id == old(room).board_id,
        final(room).spec_session_counter() == old(room).spec_session_counter(),
        final(sync).last_sent_sync_id == old(sync).last_sent_sync_id,
        match request {
            RequestMessage::SetBoardState { board_state } => {
                &&& final(room).board@ == board_state@
                &&& final(room).cursors == old(room).cursors
                &&& final(room).dirty == old(room).dirty
                &&& final(sync).last_received_sync_id == old(sync).last_received_sync_id
                &&& r is NoResponse
            },
            RequestMessage::ApplyDiffs { sync_id, diffs } => {
                &&& final(sync).last_received_sync_id == Some(sync_id)
                &&& final(room).cursors == old(room).cursors
                &&& if diffs@.len() > MAX_BOARD_DIFF_GROUP_SIZE {
                    &&& final(room).board == old(room).board
                    &&& final(room).dirty == old(room).dirty
                    &&& r == RequestOutcome::Respond(
                        ResponseMessage::Error {
                            message: SudokuError::TooManyBoardDiffs(
                                diffs@.len() as usize,
                                MAX_BOARD_DIFF_GROUP_SIZE,
                            ),
                        },
                    )
                } else {
                    &&& final(room).board@ == spec_apply_diffs(old(room).board@, diffs@)
                    &&& match spec_diffs_result(old(room).board@.len() as int, diffs@) {
                        Ok(()) => final(room).dirty && r is NoResponse,
                        Err(e) => final(room).dirty == old(room).dirty && r
                            == RequestOutcome::Respond(ResponseMessage::Error { message: e }),
                    }
                }
            },
            RequestMessage::UpdateCursor { selection } => {
                &&& final(room).board == old(room).board
                &&& final(room).dirty == old(room).dirty
                &&& final(sync).last_received_sync_id == old(sync).last_received_sync_id
                &&& match old(room).cursors@[cursor_index@ as int] {
                    Some(p) => final(room).cursors@ == old(room).cursors@.update(
                        cursor_index@ as int,
                        Some((p.0, selection@)),
                    ) && r is CursorUpdated,
                    None => final(room).cursors@ == old(room).cursors@ && (r
                        matches RequestOutcome::Respond(ResponseMessage::Error { message })
                        && message matches SudokuError::Internal(_)),
                }
            },
        },
{
    match request {
        RequestMessage::SetBoardState { board_state } => {
            room.board = board_state;
            RequestOutcome::NoResponse
        },
        RequestMessage::ApplyDiffs { sync_id, diffs } => {
            sync.last_received_sync_id = Some(sync_id);
            match room.apply_diffs(session_id, sync_id, diffs) {
                Ok(()) => RequestOutcome::NoResponse,
                Err(e) => RequestOutcome::Respond(ResponseMessage::Error { message: e }),
            }
        },
        RequestMessage::UpdateCursor { selection } => {
            match room.cursors.update(cursor_index, selection) {
                Ok(()) => RequestOutcome::CursorUpdated,
                Err(_) => {
                    let mut detail = String::new();
                    detail.append("cursor slot is invalid for this room");
                    RequestOutcome::Respond(
                        ResponseMessage::Error { message: SudokuError::Internal(detail) },
                    )
                },
            }
        },
    }
}

} // verus!
