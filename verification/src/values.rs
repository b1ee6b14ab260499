//! The tagged constant values held in a bytecode program's constant pool.
//!
//! A `Number` constant carries the IEEE 754 binary64 bit pattern of its
//! float64 value, so the verified core works on plain integers throughout;
//! callers convert with `f64::to_bits` / `f64::from_bits` at the boundary.

use vstd::prelude::*;

use crate::text::{dec_digits, digit_char, push_char, push_dec, push_str};

verus! {

/// The mathematical model of a constant: the same three tags over
/// spec-level payloads.
pub ghost enum ConstV {
    Number(u64),
    Boolean(bool),
    Str(Seq<char>),
}

/// A constant-pool entry: a float64 (by its bit pattern), a boolean, or text.
#[derive(Debug, Clone, PartialEq, Eq)]
pub enum Value {
    Number(u64),
    Boolean(bool),
    Str(String),
}

impl View for Value {
    type V = ConstV;

    open spec fn view(&self) -> ConstV {
        match self {
            Value::Number(bits) => ConstV::Number(*bits),
            Value::Boolean(b) => ConstV::Boolean(*b),
            Value::Str(s) => ConstV::Str(s@),
        }
    }
}

impl Value {
    /// Tag test: is this a `Number`?
    pub fn is_number(&self) -> (r: bool)
        ensures
            r == (self@ is Number),
    {
        match self {
            Value::Number(_) => true,
            _ => false,
        }
    }

    /// Tag test: is this a `Boolean`?
    pub fn is_boolean(&self) -> (r: bool)
        ensures
            r == (self@ is Boolean),
    {
        match self {
            Value::Boolean(_) => true,
            _ => false,
        }
    }

    /// Tag test: is this a `Str`?
    pub fn is_string(&self) -> (r: bool)
        ensures
            r == (self@ is Str),
    {
        match self {
            Value::Str(_) => true,
            _ => false,
        }
    }

    /// The bit pattern of a `Number` constant.
    pub fn get_number(&self) -> (r: u64)
        requires
            self@ is Number,
        ensures
            self@ == ConstV::Number(r),
    {
        match self {
            Value::Number(bits) => *bits,
            _ => unreached(),
        }
    }

    /// The payload of a `Boolean` constant.
    pub fn get_boolean(&self) -> (r: bool)
        requires
            self@ is Boolean,
        ensures
            self@ == ConstV::Boolean(r),
    {
        match self {
            Value::Boolean(b) => *b,
            _ => unreached(),
        }
    }

    /// The payload of a `Str` constant.
    pub fn get_string(&self) -> (r: &String)
        requires
            self@ is Str,
        ensures
            self@ == ConstV::Str(r@),
    {
        match self {
            Value::Str(s) => s,
            _ => unreached(),
        }
    }

    /// The textual rendering used by the disassembler's operand column.
    pub fn render(&self) -> (r: String)
        ensures
            r@ == render_const(self@),
    {
        match self {
            Value::Number(bits) => render_number_x(*bits),
            Value::Boolean(b) => {
                let mut s = String::new();
                if *b {
                    push_str(&mut s, "true");
                } else {
                    push_str(&mut s, "false");
                }
                proof {
                    assert(s@ =~= render_const(self@));
                }
                s
            },
            Value::Str(text) => {
                let mut s = String::new();
                push_str(&mut s, text.as_str());
                proof {
                    assert(s@ =~= render_const(self@));
                }
                s
            },
        }
    }
}

/// Is this bit pattern an IEEE 754 NaN: exponent all ones, fraction nonzero?
pub open spec fn is_nan_bits(bits: u64) -> bool {
    (bits >> 52) & 0x7ff == 0x7ff && bits & 0xf_ffff_ffff_ffff != 0
}

/// Is this bit pattern one of the two IEEE 754 zeros?
pub open spec fn is_zero_bits(bits: u64) -> bool {
    bits == 0 || bits == 0x8000_0000_0000_0000
}

/// IEEE 754 equality of two float64 values, over their bit patterns: a NaN
/// equals nothing (itself included), positive and negative zero are equal,
/// and every other value is equal exactly to its own bit pattern.
pub open spec fn num_eq(a: u64, b: u64) -> bool {
    !is_nan_bits(a) && !is_nan_bits(b) && (a == b || (is_zero_bits(a) && is_zero_bits(b)))
}

/// Decides `num_eq` — the equality the constant pool deduplicates numbers
/// by — on two bit patterns.
pub fn number_equal(a: u64, b: u64) -> (r: bool)
    ensures
        r == num_eq(a, b),
{
    let a_nan = (a >> 52) & 0x7ff == 0x7ff && a & 0xf_ffff_ffff_ffff != 0;
    let b_nan = (b >> 52) & 0x7ff == 0x7ff && b & 0xf_ffff_ffff_ffff != 0;
    if a_nan || b_nan {
        false
    } else if a == b {
        true
    } else {
        (a == 0 || a == 0x8000_0000_0000_0000) && (b == 0 || b == 0x8000_0000_0000_0000)
    }
}

/// The rendering of one constant: `Number` by `render_number`, `Boolean` as
/// `true`/`false`, `Str` as its own text.
pub open spec fn render_const(c: ConstV) -> Seq<char> {
    match c {
        ConstV::Number(bits) => render_number(bits),
        ConstV::Boolean(b) => if b {
            "true"@
        } else {
            "false"@
        },
        ConstV::Str(s) => s,
    }
}

/// The digits of a decimal magnitude with an optional leading minus sign.
pub open spec fn signed_dec(negative: bool, v: u64) -> Seq<char> {
    if negative {
        seq!['-'] + dec_digits(v as nat)
    } else {
        dec_digits(v as nat)
    }
}

/// The sixteen hexadecimal digits of a 64-bit word, most significant first.
pub open spec fn hex16(bits: u64) -> Seq<char> {
    Seq::new(16, |i: int| digit_char(((bits >> ((15 - i) * 4) as u64) & 0xf) as int))
}

/// The fallback rendering for a float64 whose value has no short exact
/// decimal form here: its bit pattern as `0x` plus sixteen hex digits.
pub open spec fn hex_fallback(bits: u64) -> Seq<char> {
    "0x"@ + hex16(bits)
}

/// The rendering of a float64 from its bit pattern: `NaN`, `Infinity` and
/// `-Infinity` by name; zero as `0` or `-0`; a value that is exactly an
/// integer of at most 63 bits as its decimal digits; anything else falls
/// back to the bit pattern in hexadecimal.
pub open spec fn render_number(bits: u64) -> Seq<char> {
    let negative = (bits >> 63) == 1;
    let e = (bits >> 52) & 0x7ff;
    let f = bits & 0xf_ffff_ffff_ffff;
    if e == 0x7ff {
        if f != 0 {
            "NaN"@
        } else if negative {
            "-Infinity"@
        } else {
            "Infinity"@
        }
    } else if e == 0 && f == 0 {
        if negative {
            "-0"@
        } else {
            "0"@
        }
    } else if e == 0 {
        hex_fallback(bits)
    } else {
        let m = ((0x10_0000_0000_0000 + f) as u64);
        if e >= 1075 {
            if e - 1075 <= 10 {
                signed_dec(negative, m << ((e - 1075) as u64))
            } else {
                hex_fallback(bits)
            }
        } else {
            let k = ((1075 - e) as u64);
            if k <= 52 && m & (((1u64 << k) - 1) as u64) == 0 {
                signed_dec(negative, m >> k)
            } else {
                hex_fallback(bits)
            }
        }
    }
}

/// Appends the sixteen hex digits of `bits`.
fn push_hex16(s: &mut String, bits: u64)
    ensures
        final(s)@ == old(s)@ + hex16(bits),
{
    let mut i: u64 = 0;
    while i < 16
        invariant
            i <= 16,
            s@ == old(s)@ + Seq::new(i as nat, |j: int| digit_char(((bits >> ((15 - j) * 4) as u64) & 0xf) as int)),
        decreases 16 - i,
    {
        let sh: u64 = (15 - i) * 4;
        let d: u64 = (bits >> sh) & 0xf;
        proof {
            assert((bits >> sh) & 0xf < 16) by (bit_vector);
        }
        push_char(s, digit_char_for(d));
        proof {
            assert(s@ =~= old(s)@ + Seq::new((i + 1) as nat, |j: int| digit_char(((bits >> ((15 - j) * 4) as u64) & 0xf) as int)));
        }
        i = i + 1;
    }
    proof {
        assert(s@ =~= old(s)@ + hex16(bits));
    }
}

fn digit_char_for(d: u64) -> (c: char)
    requires
        d < 16,
    ensures
        c == digit_char(d as int),
{
    if d == 0 {
        '0'
    } else if d == 1 {
        '1'
    } else if d == 2 {
        '2'
    } else if d == 3 {
        '3'
    } else if d == 4 {
        '4'
    } else if d == 5 {
        '5'
    } else if d == 6 {
        '6'
    } else if d == 7 {
        '7'
    } else if d == 8 {
        '8'
    } else if d == 9 {
        '9'
    } else if d == 10 {
        'a'
    } else if d == 11 {
        'b'
    } else if d == 12 {
        'c'
    } else if d == 13 {
        'd'
    } else if d == 14 {
        'e'
    } else {
        'f'
    }
}

fn push_hex_fallback(s: &mut String, bits: u64)
    ensures
        final(s)@ == old(s)@ + hex_fallback(bits),
{
    push_str(s, "0x");
    push_hex16(s, bits);
    proof {
        assert(s@ =~= old(s)@ + hex_fallback(bits));
    }
}

fn push_signed_dec(s: &mut String, negative: bool, v: u64)
    ensures
        final(s)@ == old(s)@ + signed_dec(negative, v),
{
    if negative {
        push_char(s, '-');
    }
    push_dec(s, v);
    proof {
        assert(s@ =~= old(s)@ + signed_dec(negative, v));
    }
}

/// Renders a float64 from its bit pattern, exactly as `render_number` says.
pub fn render_number_x(bits: u64) -> (r: String)
    ensures
        r@ == render_number(bits),
{
    let mut s = String::new();
    let negative = (bits >> 63) == 1;
    let e = (bits >> 52) & 0x7ff;
    let f = bits & 0xf_ffff_ffff_ffff;
    if e == 0x7ff {
        if f != 0 {
            push_str(&mut s, "NaN");
        } else if negative {
            push_str(&mut s, "-Infinity");
        } else {
            push_str(&mut s, "Infinity");
        }
    } else if e == 0 && f == 0 {
        if negative {
            push_str(&mut s, "-0");
        } else {
            push_str(&mut s, "0");
        }
    } else if e == 0 {
        push_hex_fallback(&mut s, bits);
    } else {
        proof {
            assert(f <= 0xf_ffff_ffff_ffff) by (bit_vector)
                requires
                    f == bits & 0xf_ffff_ffff_ffff,
            ;
            assert(e < 0x800) by (bit_vector)
                requires
                    e == (bits >> 52) & 0x7ff,
            ;
        }
        let m: u64 = 0x10_0000_0000_0000u64 + f;
        if e >= 1075 {
            if e - 1075 <= 10 {
                push_signed_dec(&mut s, negative, m << (e - 1075));
            } else {
                push_hex_fallback(&mut s, bits);
            }
        } else {
            let k: u64 = 1075 - e;
            if k <= 52 {
                proof {
                    assert(1u64 << k >= 1) by (bit_vector)
                        requires
                            k <= 52u64,
                    ;
                }
                let mask: u64 = (1u64 << k) - 1;
                if m & mask == 0 {
                    push_signed_dec(&mut s, negative, m >> k);
                } else {
                    push_hex_fallback(&mut s, bits);
                }
            } else {
                push_hex_fallback(&mut s, bits);
            }
        }
    }
    proof {
        assert(s@ =~= render_number(bits));
    }
    s
}

} // verus!
