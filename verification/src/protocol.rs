use vstd::prelude::*;

use crate::board::{BoardDiff, BoardState};
use crate::cursors::{CursorSelection, CursorsMapView};
use crate::error::SudokuError;
use crate::room::ClientSyncId;

verus! {

/// Frames from the server to a client. On the wire each is a JSON object
/// tagged by a camelCase `type` field; the unverified shell renders them.
pub enum ResponseMessage {
    /// The first frame of a session: the room's textual id and a copy of its
    /// whole board.
    Init { room_id: String, board_state: BoardState },
    /// A group of diffs another session (or this one) applied; `sync_id` is
    /// the last sync id of this client's own edits that the server echoed.
    PartialUpdate { sync_id: Option<ClientSyncId>, diffs: Vec<BoardDiff> },
    /// Sent when the client fell too far behind the diff queue: the whole
    /// board replaces the lost diffs.
    FullUpdate { sync_id: Option<ClientSyncId>, board_state: BoardState },
    /// Another session moved its cursor; the map shows every slot but the
    /// receiver's own.
    UpdateCursor { map: CursorsMapView },
    /// Something the client sent was refused; the session usually survives.
    Error { message: SudokuError },
}

/// Frames from a client to the server, in the same tagged JSON shape.
pub enum RequestMessage {
    /// Replace the whole board; an administrative request that is not
    /// broadcast to the other sessions.
    SetBoardState { board_state: BoardState },
    /// Apply a group of diffs; the server will echo `sync_id` back with this
    /// client's own broadcasts.
    ApplyDiffs { sync_id: ClientSyncId, diffs: Vec<BoardDiff> },
    /// Move this session's cursor selection.
    UpdateCursor { selection: CursorSelection },
}

} // verus!
