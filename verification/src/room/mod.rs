pub mod id;

use vstd::prelude::*;

use crate::board::{
    spec_apply_diff, spec_apply_diffs, spec_board_ok, spec_decoded_board, spec_default_square,
    spec_diff_result, spec_diffs_result, BoardDiff, BoardState,
};
use crate::cursors::{CursorsMap, CursorsMapIndex};
use crate::error::SudokuError;
pub use crate::room::id::RoomId;

verus! {

// Limit the number of sessions per room: every update fans out to every
// member, and each cursor needs a unique-looking color on the client.
pub const MAX_SESSIONS_PER_ROOM: usize = 8;

// If this queue and the socket buffer are exhausted, the client has lagged
// and is sent a full update the next time it listens.
pub const MAX_BOARD_DIFF_GROUP_QUEUE: usize = 32;

// A client's high-level operation arrives as a group of diffs; this bounds
// the group, and must exceed the largest group a client operation produces.
pub const MAX_BOARD_DIFF_GROUP_SIZE: usize = 8;

pub type BoardId = u64;

pub type SessionId = u64;

// The client sends an increasing value with each diff, and the server echoes
// the last value it saw, which lets the client tell which of its diffs have
// been applied.
pub type ClientSyncId = u64;

/// What every subscriber of a room receives after a successful group of
/// diffs: the diffs, plus enough for a session to tell whether the message
/// is the echo of its own edit.
#[derive(Clone, Debug)]
pub struct BoardDiffBroadcast {
    pub board_diffs: Vec<BoardDiff>,
    pub sender_id: SessionId,
    pub sync_id: ClientSyncId,
}

#[verifier::external_type_specification]
#[verifier::external_body]
#[verifier::reject_recursive_types(T)]
pub struct ExBroadcastSender<T>(tokio::sync::broadcast::Sender<T>);

#[verifier::external_type_specification]
#[verifier::external_body]
#[verifier::reject_recursive_types(T)]
pub struct ExBroadcastReceiver<T>(tokio::sync::broadcast::Receiver<T>);

/// Relies on tokio::sync::broadcast::channel: a bounded multi-producer,
/// multi-consumer channel where every receiver sees every message sent after
/// it subscribed, in order, unless it lags by more than the capacity. The
/// call panics when the capacity is zero or above usize::MAX / 2; what the
/// channel later delivers depends on scheduling, so nothing more is stated.
#[verifier::external_body]
fn new_broadcast_channel(capacity: usize) -> (r: (
    tokio::sync::broadcast::Sender<BoardDiffBroadcast>,
    tokio::sync::broadcast::Receiver<BoardDiffBroadcast>,
))
    requires
        1 <= capacity <= usize::MAX / 2,
{
    tokio::sync::broadcast::channel(capacity)
}

/// Relies on tokio::sync::broadcast::Sender::subscribe: a receiver that
/// observes the messages sent after this call; which those are depends on
/// scheduling, so nothing more is stated.
#[verifier::external_body]
fn subscribe_to(tx: &tokio::sync::broadcast::Sender<BoardDiffBroadcast>) -> (r:
    tokio::sync::broadcast::Receiver<BoardDiffBroadcast>) {
    tx.subscribe()
}

/// Relies on tokio::sync::broadcast::Sender::send: hands the message to
/// every current subscriber and tells whether there was at least one; the
/// set of subscribers depends on the other tasks, so nothing more is stated.
#[verifier::external_body]
fn send_broadcast(
    tx: &tokio::sync::broadcast::Sender<BoardDiffBroadcast>,
    message: BoardDiffBroadcast,
) -> (r: bool) {
    tx.send(message).is_ok()
}

/// One connected client's stake in a room: its unique id, its subscription
/// to the room's diff stream, and its slot in the cursor table.
pub struct Session {
    pub session_id: SessionId,
    pub diff_rx: tokio::sync::broadcast::Receiver<BoardDiffBroadcast>,
    pub cursor_index: CursorsMapIndex,
}

/// The ownership root for one room: its id, board, diff fan-out, session
/// counter, cursor table and dirty flag. The shell around this crate holds a
/// room behind a lock; all mutation goes through these methods.
pub struct RoomState {
    pub room_id: RoomId,
    pub board_id: BoardId,
    pub board: BoardState,
    // Send only through apply_diffs while holding the room's lock, so that
    // the broadcast order equals the order diffs reached the board.
    pub diff_tx: tokio::sync::broadcast::Sender<BoardDiffBroadcast>,
    /// Source of unique session ids for this room; never reused, and only
    /// ever advanced by new_session.
    pub session_counter: SessionId,
    pub cursors: CursorsMap,
    /// Set by every apply_diffs call, cleared when a writeback snapshot is
    /// taken.
    pub dirty: bool,
}

impl RoomState {
    /// A well-formed room holds a full board and a well-formed cursor table.
    pub open spec fn wf(&self) -> bool {
        self.board.wf() && self.cursors.wf()
    }

    /// The number of sessions ever created in this room.
    pub open spec fn spec_session_counter(&self) -> SessionId {
        self.session_counter
    }

    /// A fresh room: default board, no sessions, dirty until first written
    /// back.
    pub fn new(room_id: RoomId) -> (r: RoomState)
        ensures
            r.wf(),
            r.room_id == room_id,
            r.board_id == 0,
            r.board@.len() == 81,
            forall|j: int| 0 <= j < r.board@.len() ==> r.board@[j] == spec_default_square(),
            r.spec_session_counter() == 0,
            forall|i: int| 0 <= i < r.cursors@.len() ==> r.cursors@[i] is None,
            r.dirty,
    {
        let (diff_tx, _diff_rx) = new_broadcast_channel(MAX_BOARD_DIFF_GROUP_QUEUE);
        RoomState {
            room_id,
            board_id: 0,
            board: BoardState::default(),
            diff_tx,
            session_counter: 0,
            cursors: CursorsMap::new(),
            dirty: true,
        }
    }

    /// A room read back from its stored blob: clean until edited again.
    pub fn sql_deserialize(room_id: RoomId, bytes: &[u8]) -> (r: Result<RoomState, &'static str>)
        ensures
            r is Ok <==> spec_board_ok(bytes@),
            r matches Ok(rs) ==> {
                &&& rs.wf()
                &&& rs.room_id == room_id
                &&& rs.board@ == spec_decoded_board(bytes@)
                &&& rs.spec_session_counter() == 0
                &&& forall|i: int| 0 <= i < rs.cursors@.len() ==> rs.cursors@[i] is None
                &&& !rs.dirty
            },
    {
        let board = match BoardState::sql_deserialize(bytes) {
            Ok(board) => board,
            Err(e) => {
                return Err(e);
            },
        };
        let (diff_tx, _diff_rx) = new_broadcast_channel(MAX_BOARD_DIFF_GROUP_QUEUE);
        Ok(
            RoomState {
                room_id,
                board_id: 0,
                board,
                diff_tx,
                session_counter: 0,
                cursors: CursorsMap::new(),
                dirty: false,
            },
        )
    }

    /// Admits one client: allocates the next session id, a subscription to
    /// the diff stream and a cursor slot. When every slot is taken the
    /// session is refused, though the counter still advances.
    pub fn new_session(&mut self) -> (r: Result<Session, SudokuError>)
        requires
            old(self).wf(),
            old(self).spec_session_counter() < u64::MAX,
        ensures
            final(self).wf(),
            final(self).spec_session_counter() == old(self).spec_session_counter() + 1,
            final(self).room_id == old(self).room_id,
            final(self).board_id == old(self).board_id,
            final(self).board == old(self).board,
            final(self).dirty == old(self).dirty,
            match r {
                Ok(session) => {
                    &&& session.session_id == old(self).spec_session_counter() + 1
                    &&& (session.cursor_index@ as int) < old(self).cursors@.len()
                    &&& old(self).cursors@[session.cursor_index@ as int] is None
                    &&& forall|j: int|
                        0 <= j < session.cursor_index@ ==> old(self).cursors@[j] is Some
                    &&& final(self).cursors@ == old(self).cursors@.update(
                        session.cursor_index@ as int,
                        Some((session.session_id, 0u128)),
                    )
                },
                Err(e) => {
                    &&& e == SudokuError::RoomFull(MAX_SESSIONS_PER_ROOM)
                    &&& forall|j: int|
                        0 <= j < old(self).cursors@.len() ==> old(self).cursors@[j] is Some
                    &&& final(self).cursors@ == old(self).cursors@
                },
            },
    {
        self.session_counter = self.session_counter + 1;
        let cursor_index = match self.cursors.new_session(self.session_counter) {
            Ok(idx) => idx,
            Err(_) => {
                return Err(SudokuError::RoomFull(MAX_SESSIONS_PER_ROOM));
            },
        };
        Ok(
            Session {
                session_id: self.session_counter,
                diff_rx: subscribe_to(&self.diff_tx),
                cursor_index,
            },
        )
    }

    /// A fresh subscription to the diff stream without a new session; used
    /// to reset an existing session's receiver after it lagged.
    pub fn new_sessionless_receiver(&self) -> (r: tokio::sync::broadcast::Receiver<
        BoardDiffBroadcast,
    >) {
        subscribe_to(&self.diff_tx)
    }

    /// Applies a group of diffs for one session and broadcasts it. An
    /// oversized group is refused whole; otherwise the diffs are applied in
    /// order until the first error, which is returned with everything before
    /// it already applied. On success the room is dirty and every subscriber
    /// is handed the group together with the sender and its sync id; a
    /// missing subscriber is not an error here.
    pub fn apply_diffs(
        &mut self,
        session_id: SessionId,
        sync_id: ClientSyncId,
        board_diffs: Vec<BoardDiff>,
    ) -> (r: Result<(), SudokuError>)
        requires
            old(self).wf(),
        ensures
            final(self).wf(),
            final(self).room_id == old(self).room_id,
            final(self).board_id == old(self).board_id,
            final(self).cursors == old(self).cursors,
            final(self).spec_session_counter() == old(self).spec_session_counter(),
            if board_diffs@.len() > MAX_BOARD_DIFF_GROUP_SIZE {
                &&& r == Err::<(), SudokuError>(
                    SudokuError::TooManyBoardDiffs(
                        board_diffs@.len() as usize,
                        MAX_BOARD_DIFF_GROUP_SIZE,
                    ),
                )
                &&& final(self).board == old(self).board
                &&& final(self).dirty == old(self).dirty
            } else {
                &&& final(self).board@ == spec_apply_diffs(old(self).board@, board_diffs@)
                &&& r == spec_diffs_result(old(self).board@.len() as int, board_diffs@)
                &&& (r is Ok ==> final(self).dirty)
                &&& (r is Err ==> final(self).dirty == old(self).dirty)
            },
    {
        if board_diffs.len() > MAX_BOARD_DIFF_GROUP_SIZE {
            return Err(
                SudokuError::TooManyBoardDiffs(board_diffs.len(), MAX_BOARD_DIFF_GROUP_SIZE),
            );
        }
        let ghost orig = self.board@;
        let ghost n = orig.len() as int;
        proof {
            assert(board_diffs@.skip(0) =~= board_diffs@);
        }
        let mut k: usize = 0;
        while k < board_diffs.len()
            invariant
                0 <= k <= board_diffs@.len(),
                board_diffs@.len() <= MAX_BOARD_DIFF_GROUP_SIZE,
                old(self).wf(),
                self.board@.len() == orig.len(),
                self.board.wf() == (orig.len() == 81),
                spec_apply_diffs(orig, board_diffs@) == spec_apply_diffs(
                    self.board@,
                    board_diffs@.skip(k as int),
                ),
                spec_diffs_result(n, board_diffs@) == spec_diffs_result(
                    n,
                    board_diffs@.skip(k as int),
                ),
                n == orig.len() as int,
                orig == old(self).board@,
                self.room_id == old(self).room_id,
                self.board_id == old(self).board_id,
                self.cursors == old(self).cursors,
                self.diff_tx == old(self).diff_tx,
                self.session_counter == old(self).session_counter,
                self.dirty == old(self).dirty,
            decreases board_diffs@.len() - k,
        {
            proof {
                assert(board_diffs@.skip(k as int).drop_first() =~= board_diffs@.skip(
                    k + 1 as int,
                ));
                assert(board_diffs@.skip(k as int)[0] == board_diffs@[k as int]);
            }
            let ghost cur = self.board@;
            let result = self.board.apply(&board_diffs[k]);
            if let Err(e) = result {
                proof {
                    assert(self.board@ == spec_apply_diff(cur, board_diffs@[k as int]));
                    assert(spec_apply_diffs(cur, board_diffs@.skip(k as int)) == spec_apply_diff(
                        cur,
                        board_diffs@[k as int],
                    ));
                    assert(spec_diffs_result(n, board_diffs@.skip(k as int)) == Err::<
                        (),
                        SudokuError,
                    >(e));
                }
                return Err(e);
            }
            k = k + 1;
        }
        proof {
            assert(board_diffs@.skip(board_diffs@.len() as int) =~= Seq::<BoardDiff>::empty());
        }
        self.dirty = true;
        send_broadcast(
            &self.diff_tx,
            BoardDiffBroadcast { board_diffs, sender_id: session_id, sync_id },
        );
        Ok(())
    }

    /// One step of the writeback protocol: clears the dirty flag and hands
    /// back the 16-byte little-endian id blob and the 486-byte board blob,
    /// acknowledging the write just before it happens.
    pub fn writeback_snapshot(&mut self) -> (r: (Vec<u8>, Vec<u8>))
        requires
            old(self).wf(),
        ensures
            final(self).wf(),
            final(self).room_id == old(self).room_id,
            final(self).board_id == old(self).board_id,
            final(self).board == old(self).board,
            final(self).cursors == old(self).cursors,
            final(self).spec_session_counter() == old(self).spec_session_counter(),
            !final(self).dirty,
            r.0@ == crate::room::id::room_id_le_bytes(old(self).room_id@),
            r.1@ == crate::board::spec_board_bytes(old(self).board@),
            r.1@.len() == 486,
    {
        self.dirty = false;
        let id_blob = self.room_id.to_le_bytes();
        let board_blob = self.board.sql_serialize();
        (id_blob, board_blob)
    }
}

} // verus!
