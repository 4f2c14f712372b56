use vstd::prelude::*;
use vstd::string::StringExecFns;

verus! {

/// The character for one decimal digit value, 0 through 9.
pub open spec fn spec_decimal_digit(d: int) -> char {
    if d == 0 {
        '0'
    } else if d == 1 {
        '1'
    } else if d == 2 {
        '2'
    } else if d == 3 {
        '3'
    } else if d == 4 {
        '4'
    } else if d == 5 {
        '5'
    } else if d == 6 {
        '6'
    } else if d == 7 {
        '7'
    } else if d == 8 {
        '8'
    } else {
        '9'
    }
}

/// The decimal digits of `n`, most significant first.
pub open spec fn spec_decimal(n: nat) -> Seq<char>
    decreases n,
{
    if n < 10 {
        seq![spec_decimal_digit(n as int)]
    } else {
        spec_decimal(n / 10) + seq![spec_decimal_digit((n % 10) as int)]
    }
}

/// The one-character string for a decimal digit value.
fn decimal_digit_str(d: usize) -> (r: &'static str)
    requires
        d < 10,
    ensures
        r@ == seq![spec_decimal_digit(d as int)],
{
    proof {
        reveal_strlit("0");
        reveal_strlit("1");
        reveal_strlit("2");
        reveal_strlit("3");
        reveal_strlit("4");
        reveal_strlit("5");
        reveal_strlit("6");
        reveal_strlit("7");
        reveal_strlit("8");
        reveal_strlit("9");
    }
    let r = if d == 0 {
        "0"
    } else if d == 1 {
        "1"
    } else if d == 2 {
        "2"
    } else if d == 3 {
        "3"
    } else if d == 4 {
        "4"
    } else if d == 5 {
        "5"
    } else if d == 6 {
        "6"
    } else if d == 7 {
        "7"
    } else if d == 8 {
        "8"
    } else {
        "9"
    };
    proof {
        assert(r@ =~= seq![spec_decimal_digit(d as int)]);
    }
    r
}

/// Appends the decimal form of `n` to `out`.
pub fn append_decimal(out: &mut String, n: usize)
    ensures
        final(out)@ == old(out)@ + spec_decimal(n as nat),
    decreases n,
{
    if n >= 10 {
        append_decimal(out, n / 10);
    }
    out.append(decimal_digit_str(n % 10));
    proof {
        assert(out@ =~= old(out)@ + spec_decimal(n as nat));
    }
}

/// The decimal form of `n` as a string.
pub fn decimal_string(n: usize) -> (r: String)
    ensures
        r@ == spec_decimal(n as nat),
{
    let mut s = String::new();
    append_decimal(&mut s, n);
    proof {
        assert(s@ =~= spec_decimal(n as nat));
    }
    s
}

} // verus!
