use sudoku_server::board::{
    BoardDiff, BoardDiffOperation, BoardPencilType, BoardSquare, BoardState,
};
use sudoku_server::digit::{Digit, DigitBitFlags};
use sudoku_server::error::SudokuError;

#[test]
fn board_state_sql_serialize_deserialize() {
    let mut bs = BoardState::default();
    bs.apply(&BoardDiff {
        squares: vec![0, 1, 2, 3],
        operation: BoardDiffOperation::SetNumber {
            digit: Some(Digit::D5),
        },
    })
    .unwrap();
    bs.apply(&BoardDiff {
        squares: vec![4, 5, 6, 7],
        operation: BoardDiffOperation::AddPencilMark {
            pencil_type: BoardPencilType::Centers,
            digit: Digit::D1,
        },
    })
    .unwrap();
    bs.apply(&BoardDiff {
        squares: vec![8, 9],
        operation: BoardDiffOperation::AddPencilMark {
            pencil_type: BoardPencilType::Corners,
            digit: Digit::D2,
        },
    })
    .unwrap();
    assert_eq!(BoardState::sql_deserialize(&bs.sql_serialize()).unwrap(), bs);
}

#[test]
fn board_blob_has_fixed_layout() {
    let mut bs = BoardState::default();
    bs.apply(&BoardDiff {
        squares: vec![1],
        operation: BoardDiffOperation::SetNumber {
            digit: Some(Digit::D9),
        },
    })
    .unwrap();
    let blob = bs.sql_serialize();
    assert_eq!(blob.len(), 486);
    // square 0 is untouched: no number, empty masks, not locked
    assert_eq!(&blob[0..6], &[0, 0, 0, 0, 0, 0]);
    // square 1 carries the number 9
    assert_eq!(&blob[6..12], &[9, 0, 0, 0, 0, 0]);
}

#[test]
fn board_blob_wrong_length_fails() {
    assert!(BoardState::sql_deserialize(&[]).is_err());
    assert!(BoardState::sql_deserialize(&vec![0u8; 485]).is_err());
    assert!(BoardState::sql_deserialize(&vec![0u8; 487]).is_err());
    assert!(BoardState::sql_deserialize(&vec![0u8; 486]).is_ok());
}

#[test]
fn board_blob_bad_bytes_fail() {
    let mut blob = vec![0u8; 486];
    blob[0] = 10; // number byte must be 0..=9
    assert!(BoardState::sql_deserialize(&blob).is_err());
    blob[0] = 9;
    assert!(BoardState::sql_deserialize(&blob).is_ok());
    blob[5] = 2; // locked byte must be 0 or 1
    assert!(BoardState::sql_deserialize(&blob).is_err());
    blob[5] = 1;
    assert!(BoardState::sql_deserialize(&blob).is_ok());
}

#[test]
fn apply_is_not_transactional() {
    // a diff fails on its first out-of-range index, and the squares
    // addressed before it stay mutated
    let mut bs = BoardState::default();
    let result = bs.apply(&BoardDiff {
        squares: vec![3, 200, 4],
        operation: BoardDiffOperation::SetNumber {
            digit: Some(Digit::D7),
        },
    });
    assert_eq!(result, Err(SudokuError::InvalidSquareIndex(200)));
    assert_eq!(bs.square_at(3).number, Some(Digit::D7));
    assert_eq!(bs.square_at(4).number, None);
}

#[test]
fn apply_rejects_oversized_diffs() {
    let mut bs = BoardState::default();
    let result = bs.apply(&BoardDiff {
        squares: (0u16..82).map(|i| (i % 81) as u8).collect(),
        operation: BoardDiffOperation::SetNumber {
            digit: Some(Digit::D1),
        },
    });
    assert_eq!(result, Err(SudokuError::TooManySquares(82, 81)));
    assert_eq!(bs.square_at(0).number, None);
}

#[test]
fn locked_square_ignores_every_operation() {
    let locked = BoardSquare {
        number: Some(Digit::D5),
        corners: DigitBitFlags::from_digits(&vec![Digit::D1]),
        centers: DigitBitFlags::default(),
        locked: true,
    };
    let operations = vec![
        BoardDiffOperation::SetNumber { digit: None },
        BoardDiffOperation::SetNumber {
            digit: Some(Digit::D2),
        },
        BoardDiffOperation::AddPencilMark {
            pencil_type: BoardPencilType::Centers,
            digit: Digit::D3,
        },
        BoardDiffOperation::RemovePencilMark {
            pencil_type: BoardPencilType::Corners,
            digit: Digit::D1,
        },
        BoardDiffOperation::ClearPencilMarks {
            pencil_type: BoardPencilType::Corners,
        },
    ];
    for op in operations {
        let mut sq = locked;
        sq.apply(&op);
        assert_eq!(sq, locked);
    }
}

#[test]
fn square_operations_apply() {
    let mut sq = BoardSquare::default();
    sq.apply(&BoardDiffOperation::SetNumber {
        digit: Some(Digit::D4),
    });
    assert_eq!(sq.number, Some(Digit::D4));
    sq.apply(&BoardDiffOperation::AddPencilMark {
        pencil_type: BoardPencilType::Centers,
        digit: Digit::D2,
    });
    assert!(sq.centers.contains(Digit::D2));
    sq.apply(&BoardDiffOperation::RemovePencilMark {
        pencil_type: BoardPencilType::Centers,
        digit: Digit::D2,
    });
    assert!(!sq.centers.contains(Digit::D2));
    sq.apply(&BoardDiffOperation::AddPencilMark {
        pencil_type: BoardPencilType::Corners,
        digit: Digit::D8,
    });
    sq.apply(&BoardDiffOperation::ClearPencilMarks {
        pencil_type: BoardPencilType::Corners,
    });
    assert!(!sq.corners.contains(Digit::D8));
}

#[test]
fn from_squares_needs_exactly_81() {
    assert!(BoardState::from_squares(vec![BoardSquare::default(); 80]).is_err());
    assert!(BoardState::from_squares(vec![BoardSquare::default(); 82]).is_err());
    let bs = BoardState::from_squares(vec![BoardSquare::default(); 81]).unwrap();
    assert_eq!(bs, BoardState::default());
}
