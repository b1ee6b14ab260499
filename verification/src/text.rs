//! Decimal and hexadecimal text building blocks for the disassembler listing.
//!
//! Every rendering function is specified against a spec-level character
//! sequence, so the exact text of a listing is pinned down by the contracts.

use vstd::prelude::*;

verus! {

/// The character for one digit value in base 10 or 16 (lower case).
pub open spec fn digit_char(d: int) -> char {
    if d == 0 {
        '0'
    } else if d == 1 {
        '1'
    } else if d == 2 {
        '2'
    } else if d == 3 {
        '3'
    } else if d == 4 {
        '4'
    } else if d == 5 {
        '5'
    } else if d == 6 {
        '6'
    } else if d == 7 {
        '7'
    } else if d == 8 {
        '8'
    } else if d == 9 {
        '9'
    } else if d == 10 {
        'a'
    } else if d == 11 {
        'b'
    } else if d == 12 {
        'c'
    } else if d == 13 {
        'd'
    } else if d == 14 {
        'e'
    } else if d == 15 {
        'f'
    } else {
        '?'
    }
}

fn digit_char_x(d: u64) -> (c: char)
    requires
        d < 16,
    ensures
        c == digit_char(d as int),
{
    if d == 0 {
        '0'
    } else if d == 1 {
        '1'
    } else if d == 2 {
        '2'
    } else if d == 3 {
        '3'
    } else if d == 4 {
        '4'
    } else if d == 5 {
        '5'
    } else if d == 6 {
        '6'
    } else if d == 7 {
        '7'
    } else if d == 8 {
        '8'
    } else if d == 9 {
        '9'
    } else if d == 10 {
        'a'
    } else if d == 11 {
        'b'
    } else if d == 12 {
        'c'
    } else if d == 13 {
        'd'
    } else if d == 14 {
        'e'
    } else {
        'f'
    }
}

/// The decimal digits of `n`, most significant first.
pub open spec fn dec_digits(n: nat) -> Seq<char>
    decreases n,
{
    if n < 10 {
        seq![digit_char(n as int)]
    } else {
        dec_digits(n / 10).push(digit_char((n % 10) as int))
    }
}

/// The decimal digits of `n`, left-padded with zeros to at least four places.
pub open spec fn dec_pad4(n: nat) -> Seq<char> {
    (if n < 10 {
        seq!['0', '0', '0']
    } else if n < 100 {
        seq!['0', '0']
    } else if n < 1000 {
        seq!['0']
    } else {
        Seq::<char>::empty()
    }) + dec_digits(n)
}

/// The hexadecimal digits of `n`, most significant first, lower case.
pub open spec fn hex_digits(n: nat) -> Seq<char>
    decreases n,
{
    if n < 16 {
        seq![digit_char(n as int)]
    } else {
        hex_digits(n / 16).push(digit_char((n % 16) as int))
    }
}

/// The hexadecimal digits of `n`, left-padded with zeros to at least two places.
pub open spec fn hex_pad2(n: nat) -> Seq<char> {
    (if n < 16 {
        seq!['0']
    } else {
        Seq::<char>::empty()
    }) + hex_digits(n)
}

/// Relies on String::push: appends exactly one character at the end.
#[verifier::external_body]
pub fn push_char(s: &mut String, c: char)
    ensures
        final(s)@ == old(s)@.push(c),
{
    s.push(c)
}

/// Relies on String::push_str: appends exactly the characters of `t`.
#[verifier::external_body]
pub fn push_str(s: &mut String, t: &str)
    ensures
        final(s)@ == old(s)@ + t@,
{
    s.push_str(t)
}

/// Appends the decimal digits of `n`.
pub fn push_dec(s: &mut String, n: u64)
    ensures
        final(s)@ == old(s)@ + dec_digits(n as nat),
    decreases n,
{
    if n < 10 {
        push_char(s, digit_char_x(n));
        proof {
            assert(old(s)@.push(digit_char(n as int)) =~= old(s)@ + dec_digits(n as nat));
        }
    } else {
        push_dec(s, n / 10);
        push_char(s, digit_char_x(n % 10));
        proof {
            assert((old(s)@ + dec_digits((n / 10) as nat)).push(digit_char((n % 10) as int))
                =~= old(s)@ + dec_digits(n as nat));
        }
    }
}

/// Appends the decimal digits of `n`, zero-padded to at least four places.
pub fn push_dec4(s: &mut String, n: u64)
    ensures
        final(s)@ == old(s)@ + dec_pad4(n as nat),
{
    if n < 10 {
        push_char(s, '0');
        push_char(s, '0');
        push_char(s, '0');
    } else if n < 100 {
        push_char(s, '0');
        push_char(s, '0');
    } else if n < 1000 {
        push_char(s, '0');
    }
    push_dec(s, n);
    proof {
        assert(s@ =~= old(s)@ + dec_pad4(n as nat));
    }
}

/// Appends the hexadecimal digits of `n`.
pub fn push_hex(s: &mut String, n: u64)
    ensures
        final(s)@ == old(s)@ + hex_digits(n as nat),
    decreases n,
{
    if n < 16 {
        push_char(s, digit_char_x(n));
        proof {
            assert(old(s)@.push(digit_char(n as int)) =~= old(s)@ + hex_digits(n as nat));
        }
    } else {
        push_hex(s, n / 16);
        push_char(s, digit_char_x(n % 16));
        proof {
            assert((old(s)@ + hex_digits((n / 16) as nat)).push(digit_char((n % 16) as int))
                =~= old(s)@ + hex_digits(n as nat));
        }
    }
}

/// Appends the hexadecimal digits of `n`, zero-padded to at least two places.
pub fn push_hex2(s: &mut String, n: u64)
    ensures
        final(s)@ == old(s)@ + hex_pad2(n as nat),
{
    if n < 16 {
        push_char(s, '0');
    }
    push_hex(s, n);
    proof {
        assert(s@ =~= old(s)@ + hex_pad2(n as nat));
    }
}

} // verus!
