use sudoku_server::digit::{Digit, DigitBitFlags};

#[test]
fn serde_serialize() {
    let empty: Vec<u8> = DigitBitFlags::default()
        .to_digits()
        .into_iter()
        .map(|d| d.value())
        .collect();
    assert_eq!(empty, Vec::<u8>::new());
    let values: Vec<u8> = DigitBitFlags::from_digits(&vec![
        Digit::D1,
        Digit::D2,
        Digit::D3,
        Digit::D8,
        Digit::D9,
    ])
    .to_digits()
    .into_iter()
    .map(|d| d.value())
    .collect();
    assert_eq!(values, vec![1, 2, 3, 8, 9]);
}

#[test]
fn serde_deserialize() {
    let empty: Vec<Digit> = Vec::new();
    assert_eq!(DigitBitFlags::from_digits(&empty), DigitBitFlags::default());
    let from_values: Vec<Digit> = vec![1u8, 2, 3, 8, 9]
        .into_iter()
        .map(|v| Digit::try_from(v).unwrap())
        .collect();
    assert_eq!(
        DigitBitFlags::from_digits(&from_values),
        DigitBitFlags::from_digits(&vec![Digit::D1, Digit::D2, Digit::D3, Digit::D8, Digit::D9])
    );
}

#[test]
fn sql_serialize_deserialize() {
    // just check that this round-trips, we don't really care about the actual
    // value it serializes to/from
    for flags_raw in vec![
        vec![],
        vec![Digit::D1, Digit::D2, Digit::D3, Digit::D8, Digit::D9],
    ] {
        let flags = DigitBitFlags::from_digits(&flags_raw);
        assert_eq!(DigitBitFlags::sql_deserialize(&flags.sql_serialize()), flags);
    }
}

#[test]
fn digit_values_round_trip() {
    for v in 1u8..=9 {
        let d = Digit::try_from(v).unwrap();
        assert_eq!(d.value(), v);
    }
    assert!(Digit::try_from(0).is_err());
    assert!(Digit::try_from(10).is_err());
    assert!(Digit::try_from(255).is_err());
}

#[test]
fn flags_insert_remove_contains() {
    let mut flags = DigitBitFlags::default();
    assert!(!flags.contains(Digit::D5));
    flags.insert(Digit::D5);
    flags.insert(Digit::D1);
    assert!(flags.contains(Digit::D5));
    assert!(flags.contains(Digit::D1));
    assert!(!flags.contains(Digit::D9));
    flags.remove(Digit::D5);
    assert!(!flags.contains(Digit::D5));
    assert!(flags.contains(Digit::D1));
}
