use vstd::arithmetic::div_mod::lemma_fundamental_div_mod;
use vstd::arithmetic::power::{lemma_pow_increases, pow};
use vstd::prelude::*;
use vstd::string::StringExecFns;

verus! {

/// Alphanumerics excluding `ilIoO01`, which look too similar; sorted by code
/// point. Room-id text is `r` followed by base-55 little-endian digits over
/// this alphabet.
pub open spec fn alphabet() -> Seq<char> {
    seq![
        '2', '3', '4', '5', '6', '7', '8', '9', 'A', 'B', 'C', 'D', 'E', 'F', 'G', 'H', 'J', 'K',
        'L', 'M', 'N', 'P', 'Q', 'R', 'S', 'T', 'U', 'V', 'W', 'X', 'Y', 'Z', 'a', 'b', 'c', 'd',
        'e', 'f', 'g', 'h', 'j', 'k', 'm', 'n', 'p', 'q', 'r', 's', 't', 'u', 'v', 'w', 'x', 'y',
        'z',
    ]
}

/// The digit value of the character with code point `u`, or -1 when it is
/// not in the alphabet. The alphabet is sorted, so each of its eight runs of
/// consecutive code points maps onto a run of digit values.
pub open spec fn code_val(u: u32) -> int {
    if 50 <= u <= 57 {
        u - 50
    } else if 65 <= u <= 72 {
        u - 57
    } else if 74 <= u <= 78 {
        u - 58
    } else if 80 <= u <= 90 {
        u - 59
    } else if 97 <= u <= 104 {
        u - 65
    } else if 106 <= u <= 107 {
        u - 66
    } else if 109 <= u <= 110 {
        u - 67
    } else if 112 <= u <= 122 {
        u - 68
    } else {
        -1
    }
}

/// The digit value of one character, or -1 when it is not in the alphabet.
pub open spec fn char_val(c: char) -> int {
    code_val(c as u32)
}

/// Each alphabet character maps back to its own position.
pub proof fn lemma_alphabet_inverse()
    ensures
        forall|d: int| 0 <= d < 55 ==> char_val(#[trigger] alphabet()[d]) == d,
{
    assert forall|d: int| 0 <= d < 55 implies char_val(#[trigger] alphabet()[d]) == d by {
        if d < 8 {
            assert(alphabet()[d] == seq![
                '2', '3', '4', '5', '6', '7', '8', '9',
            ][d]);
        }
        assert(char_val(alphabet()[d]) == d);
    }
}

/// The base-55 digits of `n`, least significant first; zero has no digits.
pub open spec fn encode_digits(n: nat) -> Seq<int>
    decreases n,
{
    if n == 0 {
        Seq::empty()
    } else {
        seq![(n % 55) as int] + encode_digits(n / 55)
    }
}

/// The value of a little-endian list of base-55 digits.
pub open spec fn decode_digits(ds: Seq<int>) -> int
    decreases ds.len(),
{
    if ds.len() == 0 {
        0
    } else {
        ds[0] + 55 * decode_digits(ds.drop_first())
    }
}

/// The textual form of a room id value: `r` then the alphabet character of
/// each digit.
pub open spec fn encode_chars(n: nat) -> Seq<char> {
    encode_digits(n).map_values(|d: int| alphabet()[d])
}

pub open spec fn spec_format(n: u128) -> Seq<char> {
    seq!['r'] + encode_chars(n as nat)
}

/// The digit values of everything after the `r` prefix.
pub open spec fn digit_vals(s: Seq<char>) -> Seq<int> {
    s.subrange(1, s.len() as int).map_values(|c: char| char_val(c))
}

/// When a string parses as a room id: an `r`, then alphabet characters
/// whose value fits in a u128 without the running coefficient overflowing.
pub open spec fn spec_parse_ok(s: Seq<char>) -> bool {
    &&& s.len() >= 1
    &&& s[0] == 'r'
    &&& forall|i: int| 1 <= i < s.len() ==> char_val(#[trigger] s[i]) >= 0
    &&& (s.len() == 1 || (pow(55, (s.len() - 2) as nat) <= u128::MAX && decode_digits(
        digit_vals(s),
    ) <= u128::MAX))
}

/// The value a well-formed room-id string denotes.
pub open spec fn spec_parse_value(s: Seq<char>) -> int {
    decode_digits(digit_vals(s))
}

/// Every encoded digit is a valid alphabet position.
pub proof fn lemma_encode_digit_range(n: nat)
    ensures
        forall|k: int| 0 <= k < encode_digits(n).len() ==> 0 <= (#[trigger] encode_digits(n)[k])
            < 55,
    decreases n,
{
    if n > 0 {
        lemma_encode_digit_range(n / 55);
        let ds = encode_digits(n);
        let rest = encode_digits(n / 55);
        assert forall|k: int| 0 <= k < ds.len() implies 0 <= (#[trigger] ds[k]) < 55 by {
            if k > 0 {
                assert(ds[k] == rest[k - 1]);
            }
        }
    }
}

/// Decoding inverts encoding.
pub proof fn lemma_encode_decode(n: nat)
    ensures
        decode_digits(encode_digits(n)) == n,
    decreases n,
{
    if n > 0 {
        lemma_encode_decode(n / 55);
        lemma_fundamental_div_mod(n as int, 55);
        assert((seq![(n % 55) as int] + encode_digits(n / 55)).drop_first() =~= encode_digits(
            n / 55,
        ));
    }
}

/// A nonzero value is at least the place value of its top digit.
pub proof fn lemma_encode_len_pow(n: nat)
    requires
        n > 0,
    ensures
        encode_digits(n).len() >= 1,
        pow(55, (encode_digits(n).len() - 1) as nat) <= n,
    decreases n,
{
    reveal(pow);
    if n < 55 {
        assert(encode_digits(n / 55) =~= Seq::<int>::empty());
        assert(pow(55, 0) == 1);
    } else {
        lemma_encode_len_pow(n / 55);
        let m = encode_digits(n / 55).len();
        lemma_fundamental_div_mod(n as int, 55);
        assert(pow(55, m as nat) == 55 * pow(55, (m - 1) as nat));
        assert(55 * pow(55, (m - 1) as nat) <= 55 * (n / 55)) by (nonlinear_arith)
            requires
                pow(55, (m - 1) as nat) <= n / 55,
        ;
    }
}

/// Appending a digit to a list of digits adds that digit's place value.
pub proof fn lemma_decode_push(ds: Seq<int>, x: int)
    ensures
        decode_digits(ds.push(x)) == decode_digits(ds) + x * pow(55, ds.len()),
    decreases ds.len(),
{
    reveal(pow);
    if ds.len() == 0 {
        assert(ds.push(x).drop_first() =~= Seq::<int>::empty());
        assert(pow(55, 0) == 1);
        assert(ds.push(x)[0] == x);
        assert(ds.push(x).len() == 1);
        assert(decode_digits(Seq::<int>::empty()) == 0);
        assert(decode_digits(ds.push(x)) == ds.push(x)[0] + 55 * decode_digits(
            ds.push(x).drop_first(),
        ));
        assert(decode_digits(ds.push(x)) == x);
    } else {
        assert(ds.push(x).drop_first() =~= ds.drop_first().push(x));
        lemma_decode_push(ds.drop_first(), x);
        let d = decode_digits(ds.drop_first());
        let p = pow(55, (ds.len() - 1) as nat);
        assert(ds.push(x)[0] == ds[0]);
        assert(decode_digits(ds.push(x)) == ds[0] + 55 * (d + x * p));
        assert(pow(55, ds.len()) == 55 * p);
        assert(55 * (d + x * p) == 55 * d + x * (55 * p)) by (nonlinear_arith);
        assert(decode_digits(ds.push(x)) == (ds[0] + 55 * d) + x * (55 * p));
    }
}

/// Growing a prefix of nonnegative digits never shrinks its value.
pub proof fn lemma_decode_prefix_le(ds: Seq<int>, j: int)
    requires
        0 <= j <= ds.len(),
        forall|k: int| 0 <= k < ds.len() ==> (#[trigger] ds[k]) >= 0,
    ensures
        decode_digits(ds.take(j)) <= decode_digits(ds),
    decreases ds.len() - j,
{
    if j == ds.len() {
        assert(ds.take(j) =~= ds);
    } else {
        lemma_decode_prefix_le(ds, j + 1);
        assert(ds.take(j + 1) =~= ds.take(j).push(ds[j]));
        lemma_decode_push(ds.take(j), ds[j]);
        vstd::arithmetic::power::lemma_pow_positive(55, ds.take(j).len());
        assert(ds[j] * pow(55, ds.take(j).len()) >= 0) by (nonlinear_arith)
            requires
                ds[j] >= 0,
                pow(55, ds.take(j).len()) > 0,
        ;
    }
}

/// Round trip for room ids: the textual form of any id parses, and parses
/// back to the same id. The textual form always begins with `r`.
pub proof fn lemma_room_id_round_trip(id: RoomId)
    ensures
        spec_parse_ok(spec_format(id@)),
        spec_parse_value(spec_format(id@)) == id@,
        spec_format(id@).len() >= 1,
        spec_format(id@)[0] == 'r',
{
    let n = id@ as nat;
    let s = spec_format(id@);
    lemma_alphabet_inverse();
    lemma_encode_digit_range(n);
    lemma_encode_decode(n);
    assert(digit_vals(s) =~= encode_digits(n));
    assert forall|i: int| 1 <= i < s.len() implies char_val(#[trigger] s[i]) >= 0 by {
        assert(s[i] == encode_chars(n)[i - 1]);
        assert(encode_chars(n)[i - 1] == alphabet()[encode_digits(n)[i - 1]]);
    }
    if n > 0 {
        lemma_encode_len_pow(n);
        lemma_pow_increases(55, (encode_digits(n).len() - 1) as nat, (encode_digits(n).len()
            - 1) as nat);
        assert(pow(55, (s.len() - 2) as nat) <= n);
    }
}

/// A 128-bit room id, uniformly random at creation; its textual form is `r`
/// followed by a base-55 little-endian rendering over the sorted alphabet.
#[derive(Clone, Copy, Debug, Eq, Hash, PartialEq, Structural)]
pub struct RoomId(pub u128);

impl View for RoomId {
    type V = u128;

    open spec fn view(&self) -> u128 {
        self.0
    }
}

/// The 16-byte little-endian form of an id value.
pub open spec fn room_id_le_bytes(n: u128) -> Seq<u8> {
    Seq::new(16, |i: int| ((n >> ((8 * i) as u128)) & 0xff) as u8)
}

/// The failed input, kept whole for the error message.
#[derive(Debug, PartialEq, Eq)]
pub struct InvalidRoomIdError(pub String);
/// The one-character strings of the alphabet, in order.
fn alphabet_strs() -> (r: Vec<&'static str>)
    ensures
        r@.len() == 55,
        forall|d: int| 0 <= d < 55 ==> (#[trigger] r@[d])@ == seq![alphabet()[d]],
{
    proof {
        reveal_strlit("2");
        reveal_strlit("3");
        reveal_strlit("4");
        reveal_strlit("5");
        reveal_strlit("6");
        reveal_strlit("7");
        reveal_strlit("8");
        reveal_strlit("9");
        reveal_strlit("A");
        reveal_strlit("B");
        reveal_strlit("C");
        reveal_strlit("D");
        reveal_strlit("E");
        reveal_strlit("F");
        reveal_strlit("G");
        reveal_strlit("H");
        reveal_strlit("J");
        reveal_strlit("K");
        reveal_strlit("L");
        reveal_strlit("M");
        reveal_strlit("N");
        reveal_strlit("P");
        reveal_strlit("Q");
        reveal_strlit("R");
        reveal_strlit("S");
        reveal_strlit("T");
        reveal_strlit("U");
        reveal_strlit("V");
        reveal_strlit("W");
        reveal_strlit("X");
        reveal_strlit("Y");
        reveal_strlit("Z");
        reveal_strlit("a");
        reveal_strlit("b");
        reveal_strlit("c");
        reveal_strlit("d");
        reveal_strlit("e");
        reveal_strlit("f");
        reveal_strlit("g");
        reveal_strlit("h");
        reveal_strlit("j");
        reveal_strlit("k");
        reveal_strlit("m");
        reveal_strlit("n");
        reveal_strlit("p");
        reveal_strlit("q");
        reveal_strlit("r");
        reveal_strlit("s");
        reveal_strlit("t");
        reveal_strlit("u");
        reveal_strlit("v");
        reveal_strlit("w");
        reveal_strlit("x");
        reveal_strlit("y");
        reveal_strlit("z");
    }
    let mut v: Vec<&'static str> = Vec::new();
    v.push("2");
    v.push("3");
    v.push("4");
    v.push("5");
    v.push("6");
    v.push("7");
    v.push("8");
    v.push("9");
    v.push("A");
    v.push("B");
    v.push("C");
    v.push("D");
    v.push("E");
    v.push("F");
    v.push("G");
    v.push("H");
    v.push("J");
    v.push("K");
    v.push("L");
    v.push("M");
    v.push("N");
    v.push("P");
    v.push("Q");
    v.push("R");
    v.push("S");
    v.push("T");
    v.push("U");
    v.push("V");
    v.push("W");
    v.push("X");
    v.push("Y");
    v.push("Z");
    v.push("a");
    v.push("b");
    v.push("c");
    v.push("d");
    v.push("e");
    v.push("f");
    v.push("g");
    v.push("h");
    v.push("j");
    v.push("k");
    v.push("m");
    v.push("n");
    v.push("p");
    v.push("q");
    v.push("r");
    v.push("s");
    v.push("t");
    v.push("u");
    v.push("v");
    v.push("w");
    v.push("x");
    v.push("y");
    v.push("z");
    proof {
        assert forall|d: int| 0 <= d < 55 implies (#[trigger] v@[d])@ == seq![alphabet()[d]] by {
            assert(v@[d]@ =~= seq![alphabet()[d]]);
        }
    }
    v
}

/// The alphabet as characters, in order; exposed so that its shape (sorted,
/// no look-alike characters) can be checked from outside.
pub fn room_id_chars() -> (r: Vec<char>)
    ensures
        r@ == alphabet(),
{
    let mut v: Vec<char> = Vec::new();
    v.push('2');
    v.push('3');
    v.push('4');
    v.push('5');
    v.push('6');
    v.push('7');
    v.push('8');
    v.push('9');
    v.push('A');
    v.push('B');
    v.push('C');
    v.push('D');
    v.push('E');
    v.push('F');
    v.push('G');
    v.push('H');
    v.push('J');
    v.push('K');
    v.push('L');
    v.push('M');
    v.push('N');
    v.push('P');
    v.push('Q');
    v.push('R');
    v.push('S');
    v.push('T');
    v.push('U');
    v.push('V');
    v.push('W');
    v.push('X');
    v.push('Y');
    v.push('Z');
    v.push('a');
    v.push('b');
    v.push('c');
    v.push('d');
    v.push('e');
    v.push('f');
    v.push('g');
    v.push('h');
    v.push('j');
    v.push('k');
    v.push('m');
    v.push('n');
    v.push('p');
    v.push('q');
    v.push('r');
    v.push('s');
    v.push('t');
    v.push('u');
    v.push('v');
    v.push('w');
    v.push('x');
    v.push('y');
    v.push('z');
    proof {
        assert(v@ =~= alphabet());
    }
    v
}

/// The digit value of one ASCII byte, or none when it is not in the
/// alphabet.
fn byte_value(b: u8) -> (r: Option<u8>)
    ensures
        match r {
            Some(v) => v < 55 && code_val(b as u32) == v as int,
            None => code_val(b as u32) == -1,
        },
{
    if 50 <= b && b <= 57 {
        Some(b - 50)
    } else if 65 <= b && b <= 72 {
        Some(b - 57)
    } else if 74 <= b && b <= 78 {
        Some(b - 58)
    } else if 80 <= b && b <= 90 {
        Some(b - 59)
    } else if 97 <= b && b <= 104 {
        Some(b - 65)
    } else if 106 <= b && b <= 107 {
        Some(b - 66)
    } else if 109 <= b && b <= 110 {
        Some(b - 67)
    } else if 112 <= b && b <= 122 {
        Some(b - 68)
    } else {
        None
    }
}

impl RoomId {
    /// A fresh id. Relies on rand::random for a uniformly distributed value;
    /// nothing can be promised of the result.
    #[verifier::external_body]
    pub fn random() -> (r: RoomId) {
        RoomId(rand::random())
    }

    /// The numeric value of this id.
    pub fn to_u128(&self) -> (r: u128)
        ensures
            r == self@,
    {
        self.0
    }

    /// The id with the given numeric value.
    pub fn from_u128(value: u128) -> (r: RoomId)
        ensures
            r@ == value,
    {
        RoomId(value)
    }

    /// The 16-byte little-endian blob of this id, as stored on disk.
    pub fn to_le_bytes(&self) -> (r: Vec<u8>)
        ensures
            r@ == room_id_le_bytes(self@),
            r@.len() == 16,
    {
        let mut blob: Vec<u8> = Vec::new();
        let mut i: usize = 0;
        while i < 16
            invariant
                0 <= i <= 16,
                blob@.len() == i,
                forall|j: int|
                    0 <= j < i ==> #[trigger] blob@[j] == ((self@ >> ((8 * j) as u128))
                        & 0xff) as u8,
            decreases 16 - i,
        {
            proof {
                let n = self@;
                let sh = (8 * i) as u128;
                assert((n >> sh) & 0xff < 256) by (bit_vector);
            }
            blob.push(((self.0 >> ((8 * i) as u128)) & 0xff) as u8);
            i = i + 1;
        }
        proof {
            assert(blob@ =~= room_id_le_bytes(self@));
        }
        blob
    }

    /// The textual form: `r`, then the base-55 digits, least significant
    /// first.
    pub fn to_string(&self) -> (r: String)
        ensures
            r@ == spec_format(self@),
            r@.len() >= 1,
            r@[0] == 'r',
    {
        let strs = alphabet_strs();
        let mut s = String::new();
        s.append("r");
        proof {
            reveal_strlit("r");
            assert(s@ =~= seq!['r']);
            lemma_encode_digit_range(self@ as nat);
        }
        let mut rest: u128 = self.0;
        while rest > 0
            invariant
                strs@.len() == 55,
                forall|d: int| 0 <= d < 55 ==> (#[trigger] strs@[d])@ == seq![alphabet()[d]],
                s@ + encode_chars(rest as nat) == spec_format(self@),
                s@.len() >= 1,
                s@[0] == 'r',
            decreases rest,
        {
            let ghost prev = rest as nat;
            let digit = (rest % 55) as usize;
            s.append(strs[digit]);
            rest = rest / 55;
            proof {
                assert(encode_digits(prev)[0] == digit as int);
                lemma_encode_digit_range(prev);
                assert(encode_chars(prev) =~= seq![alphabet()[digit as int]] + encode_chars(
                    rest as nat,
                ));
                assert(s@ + encode_chars(rest as nat) =~= spec_format(self@));
            }
        }
        proof {
            assert(encode_chars(0) =~= Seq::<char>::empty());
            assert(s@ =~= spec_format(self@));
        }
        s
    }

    /// Parses the textual form. A string without the `r` prefix, with a
    /// character outside the alphabet, or whose value overflows a u128
    /// during parsing fails, and the error keeps the offending input.
    pub fn from_str(s: &str) -> (r: Result<RoomId, InvalidRoomIdError>)
        ensures
            r is Ok <==> spec_parse_ok(s@),
            r matches Ok(id) ==> id@ as int == spec_parse_value(s@),
            r matches Err(e) ==> e.0@ == s@,
    {
        reveal(pow);
        if !s.is_ascii() {
            proof {
                if spec_parse_ok(s@) {
                    let i = choose|i: int|
                        0 <= i < s@.len() && !('\0' <= #[trigger] s@[i] <= '\u{7f}');
                    assert(0 <= i < s@.len() && !('\0' <= s@[i] <= '\u{7f}'));
                    if i == 0 {
                        assert(s@[0] == 'r');
                        assert(false);
                    } else {
                        let c = s@[i];
                        assert(char_val(c) >= 0);
                        assert(c as u32 <= 122);
                        lemma_non_ascii_code(c);
                        assert(false);
                    }
                }
            }
            return Err(InvalidRoomIdError(s.to_owned()));
        }
        proof {
            vstd::string::is_ascii_spec_bytes(s);
        }
        let b = s.as_bytes();
        if b.len() == 0 {
            return Err(InvalidRoomIdError(s.to_owned()));
        }
        let b0 = *vstd::slice::slice_index_get(b, 0);
        if b0 != 114 {
            // 114 is the code of the prefix character `r`
            proof {
                assert(s@[0] != 'r');
            }
            return Err(InvalidRoomIdError(s.to_owned()));
        }
        proof {
            assert(s@[0] as u8 == 114 && s@[0] as u32 <= 127);
            assert(s@[0] == 'r');
        }
        let ghost ds = digit_vals(s@);
        proof {
            assert(ds.len() == s@.len() - 1);
            assert(forall|t: int|
                0 <= t < ds.len() ==> #[trigger] ds[t] == char_val(s@[t + 1]));
        }
        let mut coefficient: Option<u128> = Some(1);
        let mut result: u128 = 0;
        let mut k: usize = 1;
        while k < b.len()
            invariant
                1 <= k <= b@.len(),
                b@.len() == s@.len(),
                forall|i: int| 0 <= i < s@.len() ==> #[trigger] b@[i] == s@[i] as u8,
                forall|i: int| 0 <= i < s@.len() ==> '\0' <= #[trigger] s@[i] <= '\u{7f}',
                s@[0] == 'r',
                ds == digit_vals(s@),
                ds.len() == s@.len() - 1,
                forall|t: int| 0 <= t < ds.len() ==> #[trigger] ds[t] == char_val(s@[t + 1]),
                forall|t: int| 0 <= t < k - 1 ==> 0 <= #[trigger] ds[t] < 55,
                result as int == decode_digits(ds.take(k - 1)),
                match coefficient {
                    Some(c) => c as int == pow(55, (k - 1) as nat),
                    None => pow(55, (k - 1) as nat) > u128::MAX,
                },
                k >= 2 ==> pow(55, (k - 2) as nat) <= u128::MAX,
            decreases b@.len() - k,
        {
            proof {
                reveal(pow);
            }
            let ghost j = k - 1 as int;
            let bk = *vstd::slice::slice_index_get(b, k);
            let v = match byte_value(bk) {
                Some(v) => v,
                None => {
                    proof {
                        assert(s@[k as int] as u32 == bk as u32);
                        assert(char_val(s@[k as int]) == -1);
                    }
                    return Err(InvalidRoomIdError(s.to_owned()));
                },
            };
            proof {
                assert(s@[k as int] as u32 == bk as u32);
                assert(ds[j] == v as int && 0 <= ds[j] < 55);
            }
            let coeff = match coefficient {
                Some(c) => c,
                None => {
                    proof {
                        lemma_pow_increases(55, j as nat, (ds.len() - 1) as nat);
                        assert(!spec_parse_ok(s@));
                    }
                    return Err(InvalidRoomIdError(s.to_owned()));
                },
            };
            let product = match (v as u128).checked_mul(coeff) {
                Some(p) => p,
                None => {
                    proof {
                        lemma_parse_prefix_overflow(s@, ds, j, (v as int) * pow(55, j as nat),
                            result as int);
                    }
                    return Err(InvalidRoomIdError(s.to_owned()));
                },
            };
            let sum = match result.checked_add(product) {
                Some(x) => x,
                None => {
                    proof {
                        lemma_parse_prefix_overflow(s@, ds, j, (v as int) * pow(55, j as nat),
                            result as int);
                    }
                    return Err(InvalidRoomIdError(s.to_owned()));
                },
            };
            proof {
                lemma_decode_push(ds.take(j), ds[j]);
                assert(ds.take(j + 1) =~= ds.take(j).push(ds[j]));
            }
            result = sum;
            coefficient = coeff.checked_mul(55);
            k = k + 1;
        }
        proof {
            assert(ds.take(ds.len() as int) =~= ds);
            assert(k == s@.len());
            if s@.len() >= 2 {
                assert(k >= 2);
                assert(pow(55, (k - 2) as nat) <= u128::MAX);
                assert((k - 2) as nat == (s@.len() - 2) as nat);
                assert(pow(55, (s@.len() - 2) as nat) <= u128::MAX);
            }
            assert forall|i: int| 1 <= i < s@.len() implies char_val(#[trigger] s@[i]) >= 0 by {
                assert(ds[i - 1] == char_val(s@[i]));
                assert(0 <= ds[i - 1] < 55);
            }
            assert(decode_digits(digit_vals(s@)) == result as int);
            assert(spec_parse_ok(s@));
        }
        Ok(RoomId(result))
    }
}

/// If a partial parse at digit `j` already exceeds the u128 range, the whole
/// string cannot be well formed: either a later character is not in the
/// alphabet, or the full value is at least the partial one.
proof fn lemma_parse_prefix_overflow(s: Seq<char>, ds: Seq<int>, j: int, product: int, acc: int)
    requires
        s.len() >= 1,
        ds == digit_vals(s),
        ds.len() == s.len() - 1,
        0 <= j < ds.len(),
        forall|t: int| 0 <= t < ds.len() ==> #[trigger] ds[t] == char_val(s[t + 1]),
        forall|t: int| 0 <= t <= j ==> 0 <= #[trigger] ds[t] < 55,
        acc == decode_digits(ds.take(j)),
        acc >= 0,
        product == ds[j] * pow(55, j as nat),
        acc + product > u128::MAX,
    ensures
        !spec_parse_ok(s),
{
    if forall|i: int| 1 <= i < s.len() ==> char_val(#[trigger] s[i]) >= 0 {
        assert forall|t: int| 0 <= t < ds.len() implies (#[trigger] ds[t]) >= 0 by {
            assert(ds[t] == char_val(s[t + 1]));
        }
        lemma_decode_push(ds.take(j), ds[j]);
        assert(ds.take(j + 1) =~= ds.take(j).push(ds[j]));
        assert(decode_digits(ds.take(j + 1)) == acc + product);
        lemma_decode_prefix_le(ds, j + 1);
        assert(decode_digits(digit_vals(s)) > u128::MAX);
    }
}


/// A character outside the ASCII range has a code point above 127.
proof fn lemma_non_ascii_code(c: char)
    requires
        !('\0' <= c <= '\u{7f}'),
    ensures
        c as u32 > 127,
{
}

} // verus!
