use sudoku_server::room::id::{room_id_chars, InvalidRoomIdError};
use sudoku_server::room::RoomId;

#[test]
fn room_id_chars_is_sorted() {
    let chars = room_id_chars();
    let mut chars_sorted = chars.clone();
    chars_sorted.sort();
    assert_eq!(chars, chars_sorted);
}

#[test]
fn conversion_from_str() {
    assert_eq!(
        RoomId::from_str("r3BvXyfHXQkM8N4AeVdJZPd").unwrap().to_u128(),
        124888837662232996869396112214390934746
    );
    assert_eq!(
        RoomId::from_str("3BvXyfHXQkM8N4AeVdJZPd"),
        Err(InvalidRoomIdError("3BvXyfHXQkM8N4AeVdJZPd".to_owned()))
    );
    assert_eq!(
        RoomId::from_str("r spaces are invalid"),
        Err(InvalidRoomIdError("r spaces are invalid".to_owned()))
    );
}

#[test]
fn conversion_to_str() {
    assert_eq!(
        RoomId::from_u128(124888837662232996869396112214390934746).to_string(),
        "r3BvXyfHXQkM8N4AeVdJZPd"
    );
}

#[test]
fn conversion_back_and_forth() {
    for idx in 0..10000u128 {
        assert_eq!(
            RoomId::from_str(&RoomId::from_u128(idx).to_string())
                .unwrap()
                .to_u128(),
            idx
        );
    }
}

#[test]
fn max_int() {
    assert_eq!(
        RoomId::from_str(&RoomId::from_u128(u128::MAX).to_string())
            .unwrap()
            .to_u128(),
        u128::MAX
    );
}

#[test]
fn overflow() {
    // this is a valid room id format
    assert!(RoomId::from_str("rzzzz").is_ok());
    // but too many 'z' characters eventually causes an overflow
    assert_eq!(
        RoomId::from_str("rzzzzzzzzzzzzzzzzzzzzzzzzzzzzzzzzzzzzz"),
        Err(InvalidRoomIdError(
            "rzzzzzzzzzzzzzzzzzzzzzzzzzzzzzzzzzzzzz".to_owned()
        ))
    );
}

#[test]
fn zero_renders_as_bare_prefix() {
    assert_eq!(RoomId::from_u128(0).to_string(), "r");
    assert_eq!(RoomId::from_str("r").unwrap().to_u128(), 0);
}

#[test]
fn empty_and_excluded_characters_fail() {
    assert!(RoomId::from_str("").is_err());
    // characters that look alike are left out of the alphabet
    for bad in ["ri", "rl", "rI", "ro", "rO", "r0", "r1"] {
        assert!(RoomId::from_str(bad).is_err(), "{bad} should not parse");
    }
}

#[test]
fn random_ids_round_trip() {
    for _ in 0..100 {
        let id = RoomId::random();
        assert_eq!(
            RoomId::from_str(&id.to_string()).unwrap().to_u128(),
            id.to_u128()
        );
    }
}

#[test]
fn id_blob_is_little_endian() {
    let blob = RoomId::from_u128(0x0102).to_le_bytes();
    assert_eq!(blob.len(), 16);
    assert_eq!(blob[0], 0x02);
    assert_eq!(blob[1], 0x01);
    assert!(blob[2..].iter().all(|b| *b == 0));
}
