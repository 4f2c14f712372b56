use vstd::prelude::*;
use vstd::string::StringExecFns;

use crate::text::{append_decimal, spec_decimal};

verus! {

/// Everything that can go wrong while serving a room.
///
/// The first six variants are the client's fault and leave the session
/// running; `Internal` marks an invariant violation. The parse failure and
/// the internal cause arrive as plain strings because they are produced by
/// the unverified shell around this crate.
#[derive(Clone, Debug, PartialEq, Eq)]
pub enum SudokuError {
    InvalidSquareIndex(usize),
    ReceivedBinaryMessage,
    RoomFull(usize),
    SerdeJson(String),
    TooManyBoardDiffs(usize, usize),
    TooManySquares(usize, usize),
    Internal(String),
}

impl SudokuError {
    /// The human-readable message sent to clients in an `error` frame.
    pub open spec fn spec_message(self) -> Seq<char> {
        match self {
            SudokuError::InvalidSquareIndex(idx) => "Got a diff containing an index of "@
                + spec_decimal(idx as nat) + ", which is out of bounds."@,
            SudokuError::ReceivedBinaryMessage => {
                "Messages must be JSON-encoded text, not binary blobs."@
            },
            SudokuError::RoomFull(max_count) => "This room is full. No more than "@
                + spec_decimal(max_count as nat)
                + " connections are allowed to a single room."@,
            SudokuError::SerdeJson(detail) => "Request could not be parsed: "@ + detail@,
            SudokuError::TooManyBoardDiffs(count, max_count) => "Got "@
                + spec_decimal(count as nat) + " diffs in a request, but there is a maximum of "@
                + spec_decimal(max_count as nat) + " diffs per request."@,
            SudokuError::TooManySquares(count, max_count) => "Received a diff containing "@
                + spec_decimal(count as nat) + " squares, but a diff can't contain more than "@
                + spec_decimal(max_count as nat) + " squares."@,
            SudokuError::Internal(_) => "Internal Error"@,
        }
    }

    /// Builds the message text for this error.
    pub fn message(&self) -> (r: String)
        ensures
            r@ == self.spec_message(),
    {
        let mut s = String::new();
        match self {
            SudokuError::InvalidSquareIndex(idx) => {
                s.append("Got a diff containing an index of ");
                append_decimal(&mut s, *idx);
                s.append(", which is out of bounds.");
            },
            SudokuError::ReceivedBinaryMessage => {
                s.append("Messages must be JSON-encoded text, not binary blobs.");
            },
            SudokuError::RoomFull(max_count) => {
                s.append("This room is full. No more than ");
                append_decimal(&mut s, *max_count);
                s.append(" connections are allowed to a single room.");
            },
            SudokuError::SerdeJson(detail) => {
                s.append("Request could not be parsed: ");
                s.append(detail.as_str());
            },
            SudokuError::TooManyBoardDiffs(count, max_count) => {
                s.append("Got ");
                append_decimal(&mut s, *count);
                s.append(" diffs in a request, but there is a maximum of ");
                append_decimal(&mut s, *max_count);
                s.append(" diffs per request.");
            },
            SudokuError::TooManySquares(count, max_count) => {
                s.append("Received a diff containing ");
                append_decimal(&mut s, *count);
                s.append(" squares, but a diff can't contain more than ");
                append_decimal(&mut s, *max_count);
                s.append(" squares.");
            },
            SudokuError::Internal(_) => {
                s.append("Internal Error");
            },
        }
        proof {
            assert(s@ =~= self.spec_message());
        }
        s
    }
}

} // verus!
