//! Building messages: decimal numbers appended to strings.
use vstd::prelude::*;
use vstd::string::StringExecFns;

verus! {

/// The decimal digits of `n`, most significant first.
pub open spec fn decimal(n: nat) -> Seq<char>
    decreases n,
{
    if n < 10 {
        seq![digit_char(n)]
    } else {
        decimal(n / 10) + seq![digit_char(n % 10)]
    }
}

pub open spec fn digit_char(d: nat) -> char {
    if d == 0 {
        '0'
    } else if d == 1 {
        '1'
    } else if d == 2 {
        '2'
    } else if d == 3 {
        '3'
    } else if d == 4 {
        '4'
    } else if d == 5 {
        '5'
    } else if d == 6 {
        '6'
    } else if d == 7 {
        '7'
    } else if d == 8 {
        '8'
    } else {
        '9'
    }
}

fn digit_str(d: usize) -> (r: &'static str)
    requires
        d < 10,
    ensures
        r@ == seq![digit_char(d as nat)],
{
    proof {
        reveal_strlit("0");
        reveal_strlit("1");
        reveal_strlit("2");
        reveal_strlit("3");
        reveal_strlit("4");
        reveal_strlit("5");
        reveal_strlit("6");
        reveal_strlit("7");
        reveal_strlit("8");
        reveal_strlit("9");
    }
    if d == 0 {
        "0"
    } else if d == 1 {
        "1"
    } else if d == 2 {
        "2"
    } else if d == 3 {
        "3"
    } else if d == 4 {
        "4"
    } else if d == 5 {
        "5"
    } else if d == 6 {
        "6"
    } else if d == 7 {
        "7"
    } else if d == 8 {
        "8"
    } else {
        "9"
    }
}

/// Appends the decimal form of `n`.
pub fn push_decimal(s: &mut String, n: usize)
    ensures
        final(s)@ == old(s)@ + decimal(n as nat),
    decreases n,
{
    if n >= 10 {
        push_decimal(s, n / 10);
    }
    s.append(digit_str(n % 10));
}

/// `prefix`, the number, then `suffix`.
pub fn numbered(prefix: &str, n: usize, suffix: &str) -> (r: String)
    ensures
        r@ == prefix@ + decimal(n as nat) + suffix@,
{
    let mut s = String::from_str(prefix);
    push_decimal(&mut s, n);
    s.append(suffix);
    s
}

/// The lowercase hexadecimal digit of `d`.
pub open spec fn hex_char(d: nat) -> char {
    if d < 10 {
        digit_char(d)
    } else if d == 10 {
        'a'
    } else if d == 11 {
        'b'
    } else if d == 12 {
        'c'
    } else if d == 13 {
        'd'
    } else if d == 14 {
        'e'
    } else {
        'f'
    }
}

/// The hexadecimal digits of `n`, most significant first, without padding.
pub open spec fn hex(n: nat) -> Seq<char>
    decreases n,
{
    if n < 16 {
        seq![hex_char(n)]
    } else {
        hex(n / 16) + seq![hex_char(n % 16)]
    }
}

/// The hexadecimal digits of `n`, zero-padded on the left to `width`.
pub open spec fn hex_padded(n: nat, width: nat) -> Seq<char> {
    let h = hex(n);
    if h.len() < width {
        Seq::new((width - h.len()) as nat, |i: int| '0') + h
    } else {
        h
    }
}

/// `0x` and then the digits of `n` padded to `width`.
pub open spec fn hex_prefixed(n: nat, width: nat) -> Seq<char> {
    seq!['0', 'x'] + hex_padded(n, width)
}

pub open spec fn bool_text(b: bool) -> Seq<char> {
    if b {
        seq!['t', 'r', 'u', 'e']
    } else {
        seq!['f', 'a', 'l', 's', 'e']
    }
}

/// The decimal form of a signed number, with a leading minus when negative.
pub open spec fn signed_decimal(x: int) -> Seq<char> {
    if x < 0 {
        seq!['-'] + decimal((-x) as nat)
    } else {
        decimal(x as nat)
    }
}

fn hex_str(d: u32) -> (r: &'static str)
    requires
        d < 16,
    ensures
        r@ == seq![hex_char(d as nat)],
{
    proof {
        reveal_strlit("a");
        reveal_strlit("b");
        reveal_strlit("c");
        reveal_strlit("d");
        reveal_strlit("e");
        reveal_strlit("f");
    }
    if d < 10 {
        digit_str(d as usize)
    } else if d == 10 {
        "a"
    } else if d == 11 {
        "b"
    } else if d == 12 {
        "c"
    } else if d == 13 {
        "d"
    } else if d == 14 {
        "e"
    } else {
        "f"
    }
}

fn push_hex_digits(s: &mut String, n: u32)
    ensures
        final(s)@ == old(s)@ + hex(n as nat),
    decreases n,
{
    if n >= 16 {
        push_hex_digits(s, n / 16);
    }
    s.append(hex_str(n % 16));
}

fn hex_len(n: u32) -> (r: usize)
    ensures
        r == hex(n as nat).len(),
        1 <= r <= n / 2 + 1,
    decreases n,
{
    if n < 16 {
        1
    } else {
        let k = hex_len(n / 16);
        k + 1
    }
}

/// Appends `n` in hexadecimal, zero-padded to `width` digits.
pub fn push_hex(s: &mut String, n: u32, width: usize)
    ensures
        final(s)@ == old(s)@ + hex_padded(n as nat, width as nat),
{
    let len = hex_len(n);
    let ghost start = s@;
    if len < width {
        let mut k: usize = len;
        while k < width
            invariant
                len <= k <= width,
                s@ == start + Seq::new((k - len) as nat, |i: int| '0'),
            decreases width - k,
        {
            s.append("0");
            proof {
                reveal_strlit("0");
                assert(start + Seq::new((k + 1 - len) as nat, |i: int| '0') =~= start + Seq::new((k - len) as nat, |i: int| '0') + seq!['0']);
            }
            k = k + 1;
        }
    }
    let ghost padded = s@;
    push_hex_digits(s, n);
    proof {
        if len < width {
            assert(s@ =~= start + hex_padded(n as nat, width as nat));
        } else {
            assert(s@ =~= start + hex_padded(n as nat, width as nat));
        }
    }
}

/// Appends `0x` and then `n` in hexadecimal, zero-padded to `width` digits.
pub fn push_hex_prefixed(s: &mut String, n: u32, width: usize)
    ensures
        final(s)@ == old(s)@ + hex_prefixed(n as nat, width as nat),
{
    s.append("0x");
    proof {
        reveal_strlit("0x");
    }
    push_hex(s, n, width);
    proof {
        assert(s@ =~= old(s)@ + hex_prefixed(n as nat, width as nat));
    }
}

pub fn push_bool(s: &mut String, b: bool)
    ensures
        final(s)@ == old(s)@ + bool_text(b),
{
    proof {
        reveal_strlit("true");
        reveal_strlit("false");
    }
    if b {
        s.append("true");
    } else {
        s.append("false");
    }
}

/// Appends the decimal form of a signed number.
pub fn push_signed(s: &mut String, x: i32)
    ensures
        final(s)@ == old(s)@ + signed_decimal(x as int),
{
    if x < 0 {
        s.append("-");
        proof {
            reveal_strlit("-");
        }
        let magnitude: i64 = 0i64 - (x as i64);
        push_decimal(s, magnitude as usize);
        proof {
            assert(s@ =~= old(s)@ + signed_decimal(x as int));
        }
    } else {
        push_decimal(s, x as usize);
    }
}

/// The decimal form of a byte.
pub open spec fn dec_u8(x: u8) -> Seq<char> {
    decimal(x as nat)
}

/// Appends the decimal form of a byte.
pub fn push_u8(s: &mut String, x: u8)
    ensures
        final(s)@ == old(s)@ + dec_u8(x),
{
    push_decimal(s, x as usize);
}

} // verus!
