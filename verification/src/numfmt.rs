//! Verified byte-level formatting: decimal numbers, fixed-point decimals,
//! zero-padded offsets and four-digit hex, as the PDF syntax needs them.
//!
//! Every exec function appends to a byte buffer and its contract pins the
//! appended bytes exactly, through the spec functions defined here.
use vstd::prelude::*;
use crate::fx::{fx_ok, FX_MAX};
use vstd::string::StrSliceExecFns;

verus! {

/// The bytes of an ASCII string, character by character.
pub open spec fn lit_bytes(s: Seq<char>) -> Seq<u8> {
    Seq::new(s.len(), |i: int| s[i] as u8)
}

/// Append the bytes of an ASCII string literal.
pub fn push_lit(out: &mut Vec<u8>, s: &str)
    requires
        s.is_ascii(),
    ensures
        final(out)@ == old(out)@ + lit_bytes(s@),
{
    let mut b = s.as_bytes_vec();
    proof {
        vstd::string::is_ascii_spec_bytes(s);
    }
    out.append(&mut b);
    proof {
        assert(out@ =~= old(out)@ + lit_bytes(s@));
    }
}

/// Decimal digits of a natural number, most significant first.
pub open spec fn dec_of(n: nat) -> Seq<u8>
    decreases n,
{
    if n < 10 {
        seq![(48 + n) as u8]
    } else {
        dec_of(n / 10).push((48 + n % 10) as u8)
    }
}

/// Decimal digits of an integer, with a leading `-` when negative.
pub open spec fn dec_i64_of(n: int) -> Seq<u8> {
    if n < 0 {
        seq![45u8] + dec_of((-n) as nat)
    } else {
        dec_of(n as nat)
    }
}

/// Append the decimal digits of `n`.
pub fn push_u64(out: &mut Vec<u8>, n: u64)
    ensures
        final(out)@ == old(out)@ + dec_of(n as nat),
    decreases n,
{
    if n >= 10 {
        push_u64(out, n / 10);
    }
    out.push(48 + (n % 10) as u8);
    proof {
        assert(out@ =~= old(out)@ + dec_of(n as nat));
    }
}

/// Append the decimal form of a signed value. The one value whose negation
/// does not fit, `i64::MIN`, is negated in the unsigned domain.
pub fn push_i64(out: &mut Vec<u8>, n: i64)
    ensures
        final(out)@ == old(out)@ + dec_i64_of(n as int),
{
    if n < 0 {
        out.push(45);
        let mag: u64 = ((-(n + 1)) as u64) + 1;
        proof {
            assert(mag == -(n as int));
        }
        push_u64(out, mag);
    } else {
        push_u64(out, n as u64);
    }
    proof {
        assert(out@ =~= old(out)@ + dec_i64_of(n as int));
    }
}

/// Powers of ten.
pub open spec fn pow10(k: nat) -> nat
    decreases k,
{
    if k == 0 {
        1
    } else {
        10 * pow10((k - 1) as nat)
    }
}

/// A number below `10^k` has at most `k` decimal digits.
pub proof fn lemma_dec_len(n: nat, k: nat)
    requires
        k >= 1,
        n < pow10(k),
    ensures
        dec_of(n).len() <= k,
    decreases n,
{
    if n >= 10 {
        assert(pow10(k) == 10 * pow10((k - 1) as nat));
        assert(n / 10 < pow10((k - 1) as nat)) by (nonlinear_arith)
            requires
                n < 10 * pow10((k - 1) as nat),
        ;
        lemma_dec_len(n / 10, (k - 1) as nat);
    }
}

/// Number of decimal digits.
pub fn dec_len_u64(n: u64) -> (r: usize)
    ensures
        r == dec_of(n as nat).len(),
        1 <= r <= 20,
    decreases n,
{
    proof {
        reveal_with_fuel(pow10, 21);
        assert(pow10(20) == 100_000_000_000_000_000_000);
        lemma_dec_len(n as nat, 20);
    }
    if n < 10 {
        1
    } else {
        let rest = dec_len_u64(n / 10);
        rest + 1
    }
}

/// Decimal digits zero-padded on the left to a width of ten, as the xref
/// table requires.
pub open spec fn pad10_of(n: nat) -> Seq<u8> {
    let d = dec_of(n);
    if d.len() >= 10 {
        d
    } else {
        Seq::new((10 - d.len()) as nat, |i: int| 48u8) + d
    }
}

/// Append the ten-character zero-padded decimal form of `n`.
pub fn push_pad10(out: &mut Vec<u8>, n: u64)
    ensures
        final(out)@ == old(out)@ + pad10_of(n as nat),
{
    let len = dec_len_u64(n);
    let pad: usize = if len >= 10 {
        0
    } else {
        10 - len
    };
    let mut i: usize = 0;
    while i < pad
        invariant
            0 <= i <= pad,
            out@ == old(out)@ + Seq::new(i as nat, |j: int| 48u8),
        decreases pad - i,
    {
        out.push(48);
        proof {
            assert(out@ =~= old(out)@ + Seq::new((i + 1) as nat, |j: int| 48u8));
        }
        i = i + 1;
    }
    push_u64(out, n);
    proof {
        assert(out@ =~= old(out)@ + pad10_of(n as nat));
    }
}

/// The fractional tail of a fixed-point decimal: empty when zero, otherwise
/// a point followed by up to three digits with trailing zeros trimmed.
pub open spec fn fx_frac_of(r: nat) -> Seq<u8>
    recommends
        r < 1000,
{
    if r == 0 {
        Seq::empty()
    } else if r % 10 != 0 {
        seq![46u8, (48 + r / 100) as u8, (48 + (r / 10) % 10) as u8, (48 + r % 10) as u8]
    } else if r % 100 != 0 {
        seq![46u8, (48 + r / 100) as u8, (48 + (r / 10) % 10) as u8]
    } else {
        seq![46u8, (48 + r / 100) as u8]
    }
}

/// The decimal form of a fixed-point value: plain integer when whole,
/// otherwise with a trimmed fractional part, and a leading `-` when
/// negative. This is how coordinates appear in content streams.
pub open spec fn fx_dec_of(x: int) -> Seq<u8> {
    let a = (if x < 0 {
        -x
    } else {
        x
    }) as nat;
    let sign: Seq<u8> = if x < 0 {
        seq![45u8]
    } else {
        Seq::empty()
    };
    sign + dec_of(a / 1000) + fx_frac_of(a % 1000)
}

/// Append the decimal form of a fixed-point value.
pub fn push_fx(out: &mut Vec<u8>, x: i64)
    requires
        fx_ok(x as int),
    ensures
        final(out)@ == old(out)@ + fx_dec_of(x as int),
{
    let a: u64 = if x < 0 {
        out.push(45);
        (-x) as u64
    } else {
        x as u64
    };
    push_u64(out, a / 1000);
    let r: u64 = a % 1000;
    if r != 0 {
        out.push(46);
        out.push(48 + (r / 100) as u8);
        if r % 10 != 0 {
            out.push(48 + ((r / 10) % 10) as u8);
            out.push(48 + (r % 10) as u8);
        } else if r % 100 != 0 {
            out.push(48 + ((r / 10) % 10) as u8);
        }
    }
    proof {
        assert(out@ =~= old(out)@ + fx_dec_of(x as int));
    }
}

/// The decimal form of a non-negative fixed-point value with exactly three
/// digits after the point, as color operators are written.
pub open spec fn fx_dec3_of(x: int) -> Seq<u8>
    recommends
        0 <= x,
{
    let a = x as nat;
    dec_of(a / 1000) + seq![
        46u8,
        (48 + (a % 1000) / 100) as u8,
        (48 + (a / 10) % 10) as u8,
        (48 + a % 10) as u8,
    ]
}

/// Append the three-decimal form of a non-negative fixed-point value.
pub fn push_fx3(out: &mut Vec<u8>, x: i64)
    requires
        0 <= x,
        fx_ok(x as int),
    ensures
        final(out)@ == old(out)@ + fx_dec3_of(x as int),
{
    let a = x as u64;
    push_u64(out, a / 1000);
    out.push(46);
    out.push(48 + ((a % 1000) / 100) as u8);
    out.push(48 + ((a / 10) % 10) as u8);
    out.push(48 + (a % 10) as u8);
    proof {
        assert(out@ =~= old(out)@ + fx_dec3_of(x as int));
    }
}

/// A lowercase hex digit.
pub open spec fn hex_digit(d: nat) -> u8
    recommends
        d < 16,
{
    if d < 10 {
        (48 + d) as u8
    } else {
        (87 + d) as u8
    }
}

/// Four lowercase hex digits of a glyph id, most significant first.
pub open spec fn hex4_of(g: u16) -> Seq<u8> {
    seq![
        hex_digit((g as nat / 4096) % 16),
        hex_digit((g as nat / 256) % 16),
        hex_digit((g as nat / 16) % 16),
        hex_digit(g as nat % 16),
    ]
}

fn hex_digit_exec(d: u16) -> (r: u8)
    requires
        d < 16,
    ensures
        r == hex_digit(d as nat),
{
    if d < 10 {
        48 + d as u8
    } else {
        87 + d as u8
    }
}

/// Append the four-hex-digit form of a glyph id.
pub fn push_hex4(out: &mut Vec<u8>, g: u16)
    ensures
        final(out)@ == old(out)@ + hex4_of(g),
{
    out.push(hex_digit_exec((g / 4096) % 16));
    out.push(hex_digit_exec((g / 256) % 16));
    out.push(hex_digit_exec((g / 16) % 16));
    out.push(hex_digit_exec(g % 16));
    proof {
        assert(out@ =~= old(out)@ + hex4_of(g));
    }
}

} // verus!
