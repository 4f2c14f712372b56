use vstd::prelude::*;

verus! {

/// A Sudoku digit: one of the values 1 through 9.
#[derive(Clone, Copy, Debug, PartialEq, Eq, Structural)]
pub enum Digit {
    D1,
    D2,
    D3,
    D4,
    D5,
    D6,
    D7,
    D8,
    D9,
}

impl Digit {
    /// The numeric value of this digit, between 1 and 9.
    pub open spec fn spec_value(self) -> u8 {
        match self {
            Digit::D1 => 1,
            Digit::D2 => 2,
            Digit::D3 => 3,
            Digit::D4 => 4,
            Digit::D5 => 5,
            Digit::D6 => 6,
            Digit::D7 => 7,
            Digit::D8 => 8,
            Digit::D9 => 9,
        }
    }

    /// The digit with the given numeric value; meaningful for values 1 through 9.
    pub open spec fn spec_from_value(value: int) -> Digit {
        if value == 1 {
            Digit::D1
        } else if value == 2 {
            Digit::D2
        } else if value == 3 {
            Digit::D3
        } else if value == 4 {
            Digit::D4
        } else if value == 5 {
            Digit::D5
        } else if value == 6 {
            Digit::D6
        } else if value == 7 {
            Digit::D7
        } else if value == 8 {
            Digit::D8
        } else {
            Digit::D9
        }
    }

    /// Numeric value of this digit.
    pub fn value(self) -> (r: u8)
        ensures
            r == self.spec_value(),
            1 <= r <= 9,
    {
        match self {
            Digit::D1 => 1,
            Digit::D2 => 2,
            Digit::D3 => 3,
            Digit::D4 => 4,
            Digit::D5 => 5,
            Digit::D6 => 6,
            Digit::D7 => 7,
            Digit::D8 => 8,
            Digit::D9 => 9,
        }
    }

    /// Parses a numeric value into a digit; values outside 1..=9 fail.
    pub fn try_from(value: u8) -> (r: Result<Digit, &'static str>)
        ensures
            match r {
                Ok(d) => 1 <= value <= 9 && d == Digit::spec_from_value(value as int),
                Err(_) => !(1 <= value <= 9),
            },
    {
        match value {
            1 => Ok(Digit::D1),
            2 => Ok(Digit::D2),
            3 => Ok(Digit::D3),
            4 => Ok(Digit::D4),
            5 => Ok(Digit::D5),
            6 => Ok(Digit::D6),
            7 => Ok(Digit::D7),
            8 => Ok(Digit::D8),
            9 => Ok(Digit::D9),
            _ => Err("digit is out of range"),
        }
    }

    /// `spec_from_value` inverts `spec_value`, so two digits with equal values
    /// are the same digit.
    pub proof fn lemma_value_inverse(d: Digit)
        ensures
            Digit::spec_from_value(d.spec_value() as int) == d,
            1 <= d.spec_value() <= 9,
    {
    }
}

/// A set of digits stored as bit flags on a u16: bit k is set exactly when
/// the digit with value k is in the set. Insertion and removal only ever
/// touch bits 1 through 9, but the raw-byte codec below round-trips whatever
/// mask it was given.
#[derive(Clone, Copy, Debug, PartialEq, Eq, Structural)]
pub struct DigitBitFlags(pub u16);

impl View for DigitBitFlags {
    type V = u16;

    open spec fn view(&self) -> u16 {
        self.0
    }
}

/// Whether the digit with numeric value `value` is present in `mask`.
pub open spec fn flags_contain(mask: u16, value: u8) -> bool {
    (1u16 << value) & mask != 0
}

/// The two-byte little-endian form of a flags mask.
pub open spec fn flags_le_bytes(mask: u16) -> Seq<u8> {
    seq![(mask & 0xff) as u8, (mask >> 8) as u8]
}

/// The flags mask read back from its two-byte little-endian form.
pub open spec fn flags_from_le_bytes(b0: u8, b1: u8) -> u16 {
    (b0 as u16) | ((b1 as u16) << 8)
}

/// The digits present in `mask`, in ascending numeric order, starting at
/// value `i`.
pub open spec fn digits_of_from(mask: u16, i: int) -> Seq<Digit>
    decreases 10 - i,
{
    if i < 1 || i > 9 {
        Seq::empty()
    } else if flags_contain(mask, i as u8) {
        seq![Digit::spec_from_value(i)] + digits_of_from(mask, i + 1)
    } else {
        digits_of_from(mask, i + 1)
    }
}

/// The digits present in `mask`, in ascending numeric order.
pub open spec fn digits_of(mask: u16) -> Seq<Digit> {
    digits_of_from(mask, 1)
}

/// The flags mask holding exactly the digits of `ds`.
pub open spec fn mask_of_digits(ds: Seq<Digit>) -> u16
    decreases ds.len(),
{
    if ds.len() == 0 {
        0u16
    } else {
        mask_of_digits(ds.drop_last()) | (1u16 << ds.last().spec_value())
    }
}

impl DigitBitFlags {
    /// The empty set of digits.
    pub fn empty() -> (r: DigitBitFlags)
        ensures
            r@ == 0u16,
    {
        DigitBitFlags(0)
    }

    /// The set whose mask is `mask`; the raw-byte codec needs arbitrary masks.
    pub fn from_mask(mask: u16) -> (r: DigitBitFlags)
        ensures
            r@ == mask,
    {
        DigitBitFlags(mask)
    }

    /// Membership test by numeric value.
    pub fn contains_u8(&self, value: u8) -> (r: bool)
        requires
            value < 16,
        ensures
            r == flags_contain(self@, value),
    {
        (1u16 << (value as u16)) & self.0 != 0
    }

    /// Membership test for a digit.
    pub fn contains(&self, value: Digit) -> (r: bool)
        ensures
            r == flags_contain(self@, value.spec_value()),
    {
        self.contains_u8(value.value())
    }

    /// Adds a digit to the set.
    pub fn insert(&mut self, value: Digit)
        ensures
            final(self)@ == old(self)@ | (1u16 << value.spec_value()),
    {
        self.0 = self.0 | (1u16 << (value.value() as u16));
    }

    /// Removes a digit from the set.
    pub fn remove(&mut self, value: Digit)
        ensures
            final(self)@ == old(self)@ & !(1u16 << value.spec_value()),
    {
        self.0 = self.0 & !(1u16 << (value.value() as u16));
    }

    /// The two-byte little-endian encoding of this set.
    pub fn sql_serialize(&self) -> (r: Vec<u8>)
        ensures
            r@ == flags_le_bytes(self@),
    {
        let mut result: Vec<u8> = Vec::new();
        proof {
            let m: u16 = self.0;
            assert(m & 0xff < 256 && m >> 8 < 256) by (bit_vector);
        }
        result.push((self.0 & 0xff) as u8);
        result.push((self.0 >> 8) as u8);
        proof {
            assert(result@ =~= flags_le_bytes(self@));
        }
        result
    }

    /// Reads a set back from its two-byte little-endian encoding; every mask
    /// is accepted.
    pub fn sql_deserialize(bytes: &[u8]) -> (r: DigitBitFlags)
        requires
            bytes@.len() == 2,
        ensures
            r@ == flags_from_le_bytes(bytes@[0], bytes@[1]),
    {
        DigitBitFlags::from_le_pair(bytes[0], bytes[1])
    }

    /// Reads a set back from the two bytes of its little-endian encoding.
    pub fn from_le_pair(b0: u8, b1: u8) -> (r: DigitBitFlags)
        ensures
            r@ == flags_from_le_bytes(b0, b1),
    {
        DigitBitFlags((b0 as u16) | ((b1 as u16) << 8))
    }

    /// The digits of this set as a vector in ascending numeric order.
    pub fn to_digits(&self) -> (r: Vec<Digit>)
        ensures
            r@ == digits_of(self@),
    {
        let mut result: Vec<Digit> = Vec::new();
        let mut i: u8 = 1;
        while i <= 9
            invariant
                1 <= i <= 10,
                result@ + digits_of_from(self@, i as int) == digits_of(self@),
            decreases 10 - i,
        {
            if self.contains_u8(i) {
                let d = match Digit::try_from(i) {
                    Ok(d) => d,
                    Err(_) => {
                        proof {
                            assert(false);
                        }
                        Digit::D1
                    },
                };
                result.push(d);
                proof {
                    assert(result@ + digits_of_from(self@, i + 1 as int) =~= digits_of(self@));
                }
            }
            i = i + 1;
        }
        proof {
            assert(result@ =~= digits_of(self@));
        }
        result
    }

    /// The set holding exactly the digits of `digits`.
    pub fn from_digits(digits: &Vec<Digit>) -> (r: DigitBitFlags)
        ensures
            r@ == mask_of_digits(digits@),
    {
        let mut flags = DigitBitFlags::empty();
        let mut k: usize = 0;
        while k < digits.len()
            invariant
                0 <= k <= digits@.len(),
                flags@ == mask_of_digits(digits@.take(k as int)),
            decreases digits@.len() - k,
        {
            flags.insert(digits[k]);
            proof {
                assert(digits@.take(k + 1 as int).drop_last() =~= digits@.take(k as int));
                assert(digits@.take(k + 1 as int).last() == digits@[k as int]);
            }
            k = k + 1;
        }
        proof {
            assert(digits@.take(digits@.len() as int) =~= digits@);
        }
        flags
    }
}

impl Default for DigitBitFlags {
    /// The default set of digits is empty.
    fn default() -> (r: DigitBitFlags)
        ensures
            r@ == 0u16,
    {
        DigitBitFlags(0)
    }
}

/// The little-endian byte codec for flag masks loses nothing: reading the two
/// bytes back yields the original mask, whatever it was.
pub proof fn lemma_flags_le_round_trip(mask: u16)
    ensures
        flags_from_le_bytes(flags_le_bytes(mask)[0], flags_le_bytes(mask)[1]) == mask,
{
    assert(((mask & 0xff) as u8 as u16) | (((mask >> 8) as u8 as u16) << 8) == mask)
        by (bit_vector);
}

} // verus!
