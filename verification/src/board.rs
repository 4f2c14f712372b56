use vstd::prelude::*;

use crate::digit::{flags_from_le_bytes, flags_le_bytes, Digit, DigitBitFlags};
use crate::error::SudokuError;

verus! {

/// Number of squares on the board.
pub const BOARD_SIZE: usize = 81;

/// Which of a square's two pencil-mark stores an operation touches.
#[derive(Clone, Copy, Debug, PartialEq, Eq, Structural)]
pub enum BoardPencilType {
    Centers,
    Corners,
}

/// One tagged mutation, applied uniformly to every square a diff addresses.
#[derive(Clone, Copy, Debug, PartialEq, Eq, Structural)]
pub enum BoardDiffOperation {
    SetNumber { digit: Option<Digit> },
    AddPencilMark { pencil_type: BoardPencilType, digit: Digit },
    RemovePencilMark { pencil_type: BoardPencilType, digit: Digit },
    ClearPencilMarks { pencil_type: BoardPencilType },
}

/// A set of target square indices paired with one operation.
#[derive(Clone, Debug, PartialEq, Eq)]
pub struct BoardDiff {
    pub squares: Vec<u8>,
    pub operation: BoardDiffOperation,
}

/// The state of one of the 81 board squares.
#[derive(Clone, Copy, Debug, PartialEq, Eq, Structural)]
pub struct BoardSquare {
    /// The big digit shown in the square, if any.
    pub number: Option<Digit>,
    /// Small marks at the corners.
    pub corners: DigitBitFlags,
    /// Small marks in the center.
    pub centers: DigitBitFlags,
    /// When set, every mutation of this square is silently dropped.
    pub locked: bool,
}

/// The square every board starts from: no number, no marks, not locked.
pub open spec fn spec_default_square() -> BoardSquare {
    BoardSquare { number: None, corners: DigitBitFlags(0), centers: DigitBitFlags(0), locked: false }
}

/// What one operation does to one square. A locked square is left unchanged.
pub open spec fn spec_apply_op(sq: BoardSquare, op: BoardDiffOperation) -> BoardSquare {
    if sq.locked {
        sq
    } else {
        match op {
            BoardDiffOperation::SetNumber { digit } => BoardSquare { number: digit, ..sq },
            BoardDiffOperation::AddPencilMark { pencil_type, digit } => match pencil_type {
                BoardPencilType::Centers => BoardSquare {
                    centers: DigitBitFlags(sq.centers@ | (1u16 << digit.spec_value())),
                    ..sq
                },
                BoardPencilType::Corners => BoardSquare {
                    corners: DigitBitFlags(sq.corners@ | (1u16 << digit.spec_value())),
                    ..sq
                },
            },
            BoardDiffOperation::RemovePencilMark { pencil_type, digit } => match pencil_type {
                BoardPencilType::Centers => BoardSquare {
                    centers: DigitBitFlags(sq.centers@ & !(1u16 << digit.spec_value())),
                    ..sq
                },
                BoardPencilType::Corners => BoardSquare {
                    corners: DigitBitFlags(sq.corners@ & !(1u16 << digit.spec_value())),
                    ..sq
                },
            },
            BoardDiffOperation::ClearPencilMarks { pencil_type } => match pencil_type {
                BoardPencilType::Centers => BoardSquare { centers: DigitBitFlags(0), ..sq },
                BoardPencilType::Corners => BoardSquare { corners: DigitBitFlags(0), ..sq },
            },
        }
    }
}

/// Applying the same operation twice changes nothing beyond the first time.
pub proof fn lemma_apply_op_idempotent(sq: BoardSquare, op: BoardDiffOperation)
    ensures
        spec_apply_op(spec_apply_op(sq, op), op) == spec_apply_op(sq, op),
{
    let once = spec_apply_op(sq, op);
    match op {
        BoardDiffOperation::SetNumber { digit } => {},
        BoardDiffOperation::AddPencilMark { pencil_type, digit } => {
            let b = 1u16 << digit.spec_value();
            let c = sq.centers@;
            let k = sq.corners@;
            assert((c | b) | b == c | b) by (bit_vector);
            assert((k | b) | b == k | b) by (bit_vector);
        },
        BoardDiffOperation::RemovePencilMark { pencil_type, digit } => {
            let b = 1u16 << digit.spec_value();
            let c = sq.centers@;
            let k = sq.corners@;
            assert((c & !b) & !b == c & !b) by (bit_vector);
            assert((k & !b) & !b == k & !b) by (bit_vector);
        },
        BoardDiffOperation::ClearPencilMarks { pencil_type } => {},
    }
}

/// A locked square is immutable: every operation is a no-op on it.
pub proof fn lemma_locked_square_unchanged(sq: BoardSquare, op: BoardDiffOperation)
    requires
        sq.locked,
    ensures
        spec_apply_op(sq, op) == sq,
{
}

impl BoardSquare {
    /// Applies one operation to this square; a locked square stays as it is.
    pub fn apply(&mut self, diff: &BoardDiffOperation)
        ensures
            *final(self) == spec_apply_op(*old(self), *diff),
    {
        if self.locked {
            return ;
        }
        match *diff {
            BoardDiffOperation::SetNumber { digit } => {
                self.number = digit;
            },
            BoardDiffOperation::AddPencilMark { pencil_type: BoardPencilType::Centers, digit } => {
                self.centers.insert(digit);
            },
            BoardDiffOperation::AddPencilMark { pencil_type: BoardPencilType::Corners, digit } => {
                self.corners.insert(digit);
            },
            BoardDiffOperation::RemovePencilMark {
                pencil_type: BoardPencilType::Centers,
                digit,
            } => {
                self.centers.remove(digit);
            },
            BoardDiffOperation::RemovePencilMark {
                pencil_type: BoardPencilType::Corners,
                digit,
            } => {
                self.corners.remove(digit);
            },
            BoardDiffOperation::ClearPencilMarks { pencil_type: BoardPencilType::Centers } => {
                self.centers = DigitBitFlags(0);
            },
            BoardDiffOperation::ClearPencilMarks { pencil_type: BoardPencilType::Corners } => {
                self.corners = DigitBitFlags(0);
            },
        }
    }
}

impl Default for BoardSquare {
    /// A fresh square: no number, no marks, not locked.
    fn default() -> (r: BoardSquare)
        ensures
            r == spec_default_square(),
    {
        BoardSquare { number: None, corners: DigitBitFlags(0), centers: DigitBitFlags(0), locked: false }
    }
}


/// Position of the first entry of `idxs` that is not below `n`, or
/// `idxs.len()` when every entry is.
pub open spec fn first_invalid(idxs: Seq<u8>, n: int) -> int
    decreases idxs.len(),
{
    if idxs.len() == 0 {
        0
    } else if idxs[0] >= n {
        0
    } else {
        1 + first_invalid(idxs.drop_first(), n)
    }
}

pub proof fn lemma_first_invalid(idxs: Seq<u8>, n: int)
    ensures
        0 <= first_invalid(idxs, n) <= idxs.len(),
        forall|k: int| 0 <= k < first_invalid(idxs, n) ==> (#[trigger] idxs[k]) < n,
        first_invalid(idxs, n) < idxs.len() ==> idxs[first_invalid(idxs, n)] >= n,
    decreases idxs.len(),
{
    if idxs.len() > 0 && idxs[0] < n {
        let rest = idxs.drop_first();
        let fi = first_invalid(idxs, n);
        lemma_first_invalid(rest, n);
        assert forall|k: int| 0 <= k < fi implies (#[trigger] idxs[k]) < n by {
            if k > 0 {
                assert(rest[k - 1] == idxs[k]);
                assert(rest[k - 1] < n);
            }
        }
        if fi < idxs.len() {
            assert(rest[fi - 1] == idxs[fi]);
        }
    }
}

/// The board after one diff has been applied as far as it goes: every square
/// addressed before the first out-of-range index has the operation applied,
/// everything else is untouched, and a diff with more indices than squares
/// changes nothing.
pub open spec fn spec_apply_diff(s: Seq<BoardSquare>, d: BoardDiff) -> Seq<BoardSquare> {
    if d.squares@.len() > s.len() {
        s
    } else {
        let cut = first_invalid(d.squares@, s.len() as int);
        Seq::new(
            s.len(),
            |j: int|
                if exists|t: int| 0 <= t < cut && d.squares@[t] == j {
                    spec_apply_op(s[j], d.operation)
                } else {
                    s[j]
                },
        )
    }
}

/// What one diff returns on a board of length `n`: the first failure, or
/// success when every index is in range and the diff is not oversized.
pub open spec fn spec_diff_result(n: int, d: BoardDiff) -> Result<(), SudokuError> {
    if d.squares@.len() > n {
        Err(SudokuError::TooManySquares(d.squares@.len() as usize, n as usize))
    } else {
        let cut = first_invalid(d.squares@, n);
        if cut < d.squares@.len() {
            Err(SudokuError::InvalidSquareIndex(d.squares@[cut] as usize))
        } else {
            Ok(())
        }
    }
}

/// The board after a whole group of diffs, applied in order and stopping
/// after the first failing diff (which still applies its valid prefix).
pub open spec fn spec_apply_diffs(s: Seq<BoardSquare>, diffs: Seq<BoardDiff>) -> Seq<BoardSquare>
    decreases diffs.len(),
{
    if diffs.len() == 0 {
        s
    } else if spec_diff_result(s.len() as int, diffs[0]) is Ok {
        spec_apply_diffs(spec_apply_diff(s, diffs[0]), diffs.drop_first())
    } else {
        spec_apply_diff(s, diffs[0])
    }
}

/// What a whole group of diffs returns on a board of length `n`: the first
/// failure, or success. Applying a diff never changes the board's length, so
/// `n` is the same for every diff of the group.
pub open spec fn spec_diffs_result(n: int, diffs: Seq<BoardDiff>) -> Result<(), SudokuError>
    decreases diffs.len(),
{
    if diffs.len() == 0 {
        Ok(())
    } else {
        match spec_diff_result(n, diffs[0]) {
            Ok(()) => spec_diffs_result(n, diffs.drop_first()),
            Err(e) => Err(e),
        }
    }
}

/// Ordered sequence of exactly 81 squares; square index = row * 9 + column.
#[derive(Clone, Debug, PartialEq, Eq)]
pub struct BoardState {
    squares: Vec<BoardSquare>,
}

impl View for BoardState {
    type V = Seq<BoardSquare>;

    closed spec fn view(&self) -> Seq<BoardSquare> {
        self.squares@
    }
}

impl BoardState {
    /// A well-formed board holds exactly 81 squares; boards are only ever
    /// created that way.
    pub open spec fn wf(&self) -> bool {
        self@.len() == BOARD_SIZE
    }

    /// Read access to one square.
    pub fn square_at(&self, idx: usize) -> (r: &BoardSquare)
        requires
            idx < self@.len(),
        ensures
            *r == self@[idx as int],
    {
        &self.squares[idx]
    }

    /// Applies one diff. It either fully succeeds, or fails on the first
    /// offending index with every earlier square already mutated; there is no
    /// rollback.
    pub fn apply(&mut self, diff: &BoardDiff) -> (r: Result<(), SudokuError>)
        ensures
            final(self)@ == spec_apply_diff(old(self)@, *diff),
            r == spec_diff_result(old(self)@.len() as int, *diff),
    {
        proof {
            lemma_first_invalid(diff.squares@, self@.len() as int);
        }
        if diff.squares.len() > self.squares.len() {
            proof {
                assert(self@ =~= spec_apply_diff(self@, *diff));
            }
            return Err(SudokuError::TooManySquares(diff.squares.len(), self.squares.len()));
        }
        let ghost orig = self.squares@;
        let ghost cut = first_invalid(diff.squares@, orig.len() as int);
        let mut k: usize = 0;
        while k < diff.squares.len()
            invariant
                0 <= k <= diff.squares@.len(),
                diff.squares@.len() <= orig.len(),
                self.squares@.len() == orig.len(),
                cut == first_invalid(diff.squares@, orig.len() as int),
                orig == old(self)@,
                forall|t: int| 0 <= t < k ==> (#[trigger] diff.squares@[t]) < orig.len(),
                forall|j: int|
                    0 <= j < orig.len() ==> #[trigger] self.squares@[j] == (
                    if exists|t: int| 0 <= t < k && diff.squares@[t] == j {
                        spec_apply_op(orig[j], diff.operation)
                    } else {
                        orig[j]
                    }),
            decreases diff.squares@.len() - k,
        {
            let idx = diff.squares[k] as usize;
            if idx >= self.squares.len() {
                proof {
                    lemma_first_invalid(diff.squares@, orig.len() as int);
                    assert(diff.squares@[k as int] >= orig.len());
                    if cut < k {
                        assert(diff.squares@[cut] < orig.len());
                        assert(diff.squares@[cut] >= orig.len());
                    }
                    if cut > k {
                        assert(diff.squares@[k as int] < orig.len());
                    }
                    assert(cut == k);
                    assert(self.squares@ =~= spec_apply_diff(orig, *diff));
                }
                return Err(SudokuError::InvalidSquareIndex(idx));
            }
            let mut sq = self.squares[idx];
            sq.apply(&diff.operation);
            self.squares[idx] = sq;
            proof {
                lemma_apply_op_idempotent(orig[idx as int], diff.operation);
            }
            k = k + 1;
        }
        proof {
            lemma_first_invalid(diff.squares@, orig.len() as int);
            assert(cut == diff.squares@.len());
            assert(self.squares@ =~= spec_apply_diff(orig, *diff));
        }
        Ok(())
    }
}

impl Default for BoardState {
    /// A fresh board: 81 default squares.
    fn default() -> (r: BoardState)
        ensures
            r.wf(),
            forall|j: int| 0 <= j < r@.len() ==> r@[j] == spec_default_square(),
    {
        BoardState { squares: vec![BoardSquare::default();81] }
    }
}


/// The six-byte record for one square: number byte (0 for none, else the
/// digit value), corners mask little-endian, centers mask little-endian,
/// locked byte (0 or 1).
pub open spec fn spec_square_bytes(sq: BoardSquare) -> Seq<u8> {
    let number_byte: u8 = match sq.number {
        Some(d) => d.spec_value(),
        None => 0u8,
    };
    let locked_byte: u8 = if sq.locked {
        1u8
    } else {
        0u8
    };
    seq![number_byte] + flags_le_bytes(sq.corners@) + flags_le_bytes(sq.centers@)
        + seq![locked_byte]
}

/// Whether six bytes form a valid square record: the number byte is 0..=9 and
/// the locked byte is 0 or 1.
pub open spec fn spec_square_ok(b: Seq<u8>) -> bool {
    b.len() == 6 && b[0] <= 9 && (b[5] == 0 || b[5] == 1)
}

/// The square read back from a valid six-byte record.
pub open spec fn spec_decoded_square(b: Seq<u8>) -> BoardSquare {
    BoardSquare {
        number: if b[0] == 0 {
            None
        } else {
            Some(Digit::spec_from_value(b[0] as int))
        },
        corners: DigitBitFlags(flags_from_le_bytes(b[1], b[2])),
        centers: DigitBitFlags(flags_from_le_bytes(b[3], b[4])),
        locked: b[5] == 1,
    }
}

/// The whole-board blob: the 81 six-byte square records in order.
pub open spec fn spec_board_bytes(s: Seq<BoardSquare>) -> Seq<u8>
    decreases s.len(),
{
    if s.len() == 0 {
        Seq::empty()
    } else {
        spec_board_bytes(s.drop_last()) + spec_square_bytes(s.last())
    }
}

/// The six-byte record of square `i` inside a board blob.
pub open spec fn spec_chunk(bytes: Seq<u8>, i: int) -> Seq<u8> {
    bytes.subrange(6 * i, 6 * i + 6)
}

/// Whether a blob decodes to a board: exactly 486 bytes, every record valid.
pub open spec fn spec_board_ok(bytes: Seq<u8>) -> bool {
    bytes.len() == 486 && forall|i: int|
        0 <= i < 81 ==> spec_square_ok(#[trigger] spec_chunk(bytes, i))
}

/// The board read back from a valid 486-byte blob.
pub open spec fn spec_decoded_board(bytes: Seq<u8>) -> Seq<BoardSquare> {
    Seq::new(81, |i: int| spec_decoded_square(spec_chunk(bytes, i)))
}

pub proof fn lemma_board_bytes_len(s: Seq<BoardSquare>)
    ensures
        spec_board_bytes(s).len() == 6 * s.len(),
    decreases s.len(),
{
    if s.len() > 0 {
        lemma_board_bytes_len(s.drop_last());
    }
}

/// Record `i` of a board blob is the record of square `i`.
pub proof fn lemma_board_bytes_chunk(s: Seq<BoardSquare>, i: int)
    requires
        0 <= i < s.len(),
    ensures
        spec_chunk(spec_board_bytes(s), i) == spec_square_bytes(s[i]),
    decreases s.len(),
{
    lemma_board_bytes_len(s);
    lemma_board_bytes_len(s.drop_last());
    if i == s.len() - 1 {
        assert(spec_chunk(spec_board_bytes(s), i) =~= spec_square_bytes(s[i]));
    } else {
        lemma_board_bytes_chunk(s.drop_last(), i);
        assert(spec_chunk(spec_board_bytes(s), i) =~= spec_chunk(
            spec_board_bytes(s.drop_last()),
            i,
        ));
    }
}

/// One square record decodes back to the square it was made from.
pub proof fn lemma_square_blob_round_trip(sq: BoardSquare)
    ensures
        spec_square_ok(spec_square_bytes(sq)),
        spec_decoded_square(spec_square_bytes(sq)) == sq,
{
    let b = spec_square_bytes(sq);
    match sq.number {
        Some(d) => {
            Digit::lemma_value_inverse(d);
        },
        None => {},
    }
    assert(b[1] == flags_le_bytes(sq.corners@)[0]);
    assert(b[2] == flags_le_bytes(sq.corners@)[1]);
    assert(b[3] == flags_le_bytes(sq.centers@)[0]);
    assert(b[4] == flags_le_bytes(sq.centers@)[1]);
    crate::digit::lemma_flags_le_round_trip(sq.corners@);
    crate::digit::lemma_flags_le_round_trip(sq.centers@);
}

/// The blob codec loses nothing: a whole board serialized to its 486-byte
/// blob reads back as the same 81 squares.
pub proof fn lemma_board_blob_round_trip(s: Seq<BoardSquare>)
    requires
        s.len() == 81,
    ensures
        spec_board_ok(spec_board_bytes(s)),
        spec_decoded_board(spec_board_bytes(s)) == s,
{
    let bytes = spec_board_bytes(s);
    lemma_board_bytes_len(s);
    assert forall|i: int| 0 <= i < 81 implies spec_square_ok(#[trigger] spec_chunk(bytes, i))
        && spec_decoded_square(spec_chunk(bytes, i)) == s[i] by {
        lemma_board_bytes_chunk(s, i);
        lemma_square_blob_round_trip(s[i]);
    }
    assert(spec_decoded_board(bytes) =~= s);
}

impl BoardSquare {
    /// The six-byte record for this square.
    pub fn sql_serialize(&self) -> (r: Vec<u8>)
        ensures
            r@ == spec_square_bytes(*self),
    {
        let mut result: Vec<u8> = Vec::new();
        let number_byte = match self.number {
            Some(d) => d.value(),
            None => 0u8,
        };
        result.push(number_byte);
        let mut corners = self.corners.sql_serialize();
        result.append(&mut corners);
        let mut centers = self.centers.sql_serialize();
        result.append(&mut centers);
        result.push(if self.locked { 1 } else { 0 });
        proof {
            assert(result@ =~= spec_square_bytes(*self));
        }
        result
    }

    /// Reads one square back from its six-byte record. The number byte must
    /// be 0..=9 and the locked byte 0 or 1; anything else fails.
    pub fn sql_deserialize(bytes: &[u8]) -> (r: Result<BoardSquare, &'static str>)
        requires
            bytes@.len() == 6,
        ensures
            r is Ok <==> spec_square_ok(bytes@),
            r matches Ok(sq) ==> sq == spec_decoded_square(bytes@),
    {
        let b0 = *vstd::slice::slice_index_get(bytes, 0);
        let number: Option<Digit> = if b0 == 0 {
            None
        } else {
            match Digit::try_from(b0) {
                Ok(d) => Some(d),
                Err(e) => {
                    return Err(e);
                },
            }
        };
        let locked = {
            let b5 = *vstd::slice::slice_index_get(bytes, 5);
            if b5 == 0 {
                false
            } else if b5 == 1 {
                true
            } else {
                return Err("locked must be 0 or 1");
            }
        };
        Ok(
            BoardSquare {
                number,
                corners: DigitBitFlags::from_le_pair(
                    *vstd::slice::slice_index_get(bytes, 1),
                    *vstd::slice::slice_index_get(bytes, 2),
                ),
                centers: DigitBitFlags::from_le_pair(
                    *vstd::slice::slice_index_get(bytes, 3),
                    *vstd::slice::slice_index_get(bytes, 4),
                ),
                locked,
            },
        )
    }
}

impl BoardState {
    /// The 486-byte blob for this board.
    pub fn sql_serialize(&self) -> (r: Vec<u8>)
        requires
            self.wf(),
        ensures
            r@ == spec_board_bytes(self@),
            r@.len() == 486,
    {
        let mut result: Vec<u8> = Vec::new();
        let mut k: usize = 0;
        while k < self.squares.len()
            invariant
                0 <= k <= self@.len(),
                self.wf(),
                self.squares@ == self@,
                result@ == spec_board_bytes(self@.take(k as int)),
            decreases self@.len() - k,
        {
            let sq = self.squares[k];
            let mut sq_bytes = sq.sql_serialize();
            result.append(&mut sq_bytes);
            proof {
                assert(self@.take(k + 1 as int).drop_last() =~= self@.take(k as int));
                assert(self@.take(k + 1 as int).last() == self@[k as int]);
            }
            k = k + 1;
        }
        proof {
            assert(self@.take(self@.len() as int) =~= self@);
            lemma_board_bytes_len(self@);
        }
        result
    }

    /// Reads a board back from a blob. Exactly 486 bytes of valid square
    /// records are accepted; anything else fails.
    pub fn sql_deserialize(bytes: &[u8]) -> (r: Result<BoardState, &'static str>)
        ensures
            r is Ok <==> spec_board_ok(bytes@),
            r matches Ok(bs) ==> bs@ == spec_decoded_board(bytes@) && bs.wf(),
    {
        if bytes.len() != 486 {
            return Err("expected 81 squares when deserializing sql");
        }
        let mut squares: Vec<BoardSquare> = Vec::new();
        let mut i: usize = 0;
        while i < 81
            invariant
                0 <= i <= 81,
                bytes@.len() == 486,
                squares@.len() == i,
                forall|j: int|
                    0 <= j < i ==> spec_square_ok(#[trigger] spec_chunk(bytes@, j))
                        && squares@[j] == spec_decoded_square(spec_chunk(bytes@, j)),
            decreases 81 - i,
        {
            let chunk = vstd::slice::slice_subrange(bytes, 6 * i, 6 * i + 6);
            match BoardSquare::sql_deserialize(chunk) {
                Ok(sq) => {
                    squares.push(sq);
                },
                Err(e) => {
                    proof {
                        assert(!spec_square_ok(spec_chunk(bytes@, i as int)));
                    }
                    return Err(e);
                },
            }
            i = i + 1;
        }
        let bs = BoardState { squares };
        proof {
            assert(bs@ =~= spec_decoded_board(bytes@));
        }
        Ok(bs)
    }
}


impl BoardState {
    /// A board from exactly 81 squares; any other count fails.
    pub fn from_squares(squares: Vec<BoardSquare>) -> (r: Result<BoardState, &'static str>)
        ensures
            r is Ok <==> squares@.len() == 81,
            r matches Ok(bs) ==> bs@ == squares@ && bs.wf(),
    {
        if squares.len() != 81 {
            return Err("a board must have exactly 81 squares");
        }
        Ok(BoardState { squares })
    }

    /// The squares of this board, in order.
    pub fn squares(&self) -> (r: &Vec<BoardSquare>)
        ensures
            r@ == self@,
    {
        &self.squares
    }

    /// A copy of this board with the same squares.
    pub fn clone_board(&self) -> (r: BoardState)
        ensures
            r@ == self@,
    {
        let mut squares: Vec<BoardSquare> = Vec::new();
        let mut k: usize = 0;
        while k < self.squares.len()
            invariant
                0 <= k <= self@.len(),
                self.squares@ == self@,
                squares@ == self@.take(k as int),
            decreases self@.len() - k,
        {
            squares.push(self.squares[k]);
            proof {
                assert(self@.take(k + 1 as int) =~= self@.take(k as int).push(self@[k as int]));
            }
            k = k + 1;
        }
        proof {
            assert(self@.take(self@.len() as int) =~= self@);
        }
        BoardState { squares }
    }
}


} // verus!
