//! Text building blocks: decimal numbers, padding, and human-readable sizes.

use vstd::prelude::*;
use vstd::string::*;

verus! {

/// The character of a decimal digit.
pub open spec fn digit_char(d: int) -> char {
    if d == 0 {
        '0'
    } else if d == 1 {
        '1'
    } else if d == 2 {
        '2'
    } else if d == 3 {
        '3'
    } else if d == 4 {
        '4'
    } else if d == 5 {
        '5'
    } else if d == 6 {
        '6'
    } else if d == 7 {
        '7'
    } else if d == 8 {
        '8'
    } else {
        '9'
    }
}

/// The decimal notation of a natural number, without leading zeros.
pub open spec fn decimal(n: nat) -> Seq<char>
    decreases n,
{
    if n < 10 {
        seq![digit_char(n as int)]
    } else {
        decimal(n / 10) + seq![digit_char((n % 10) as int)]
    }
}

/// `n` spaces.
pub open spec fn spaces(n: nat) -> Seq<char>
    decreases n,
{
    if n == 0 {
        Seq::<char>::empty()
    } else {
        spaces((n - 1) as nat) + " "@
    }
}

/// `s` left-aligned in a field of `width` characters, as `{:<width}` pads it.
pub open spec fn pad_end(s: Seq<char>, width: nat) -> Seq<char> {
    if s.len() >= width {
        s
    } else {
        s + spaces((width - s.len()) as nat)
    }
}

/// `s` right-aligned in a field of `width` characters, as `{:>width}` pads it.
pub open spec fn pad_start(s: Seq<char>, width: nat) -> Seq<char> {
    if s.len() >= width {
        s
    } else {
        spaces((width - s.len()) as nat) + s
    }
}

fn digit_str(d: u64) -> (s: &'static str)
    requires
        d < 10,
    ensures
        s@ == seq![digit_char(d as int)],
{
    if d == 0 {
        proof {
            reveal_strlit("0");
        }
        "0"
    } else if d == 1 {
        proof {
            reveal_strlit("1");
        }
        "1"
    } else if d == 2 {
        proof {
            reveal_strlit("2");
        }
        "2"
    } else if d == 3 {
        proof {
            reveal_strlit("3");
        }
        "3"
    } else if d == 4 {
        proof {
            reveal_strlit("4");
        }
        "4"
    } else if d == 5 {
        proof {
            reveal_strlit("5");
        }
        "5"
    } else if d == 6 {
        proof {
            reveal_strlit("6");
        }
        "6"
    } else if d == 7 {
        proof {
            reveal_strlit("7");
        }
        "7"
    } else if d == 8 {
        proof {
            reveal_strlit("8");
        }
        "8"
    } else {
        proof {
            reveal_strlit("9");
        }
        "9"
    }
}

/// Appends the decimal notation of `n`.
pub fn push_decimal(out: &mut String, n: u64)
    ensures
        final(out)@ == old(out)@ + decimal(n as nat),
    decreases n,
{
    if n >= 10 {
        push_decimal(out, n / 10);
    }
    out.append(digit_str(n % 10));
    assert(final(out)@ =~= old(out)@ + decimal(n as nat));
}

/// Appends `n` spaces.
pub fn push_spaces(out: &mut String, n: usize)
    ensures
        final(out)@ == old(out)@ + spaces(n as nat),
{
    let mut i: usize = 0;
    while i < n
        invariant
            i <= n,
            out@ == old(out)@ + spaces(i as nat),
        decreases n - i,
    {
        out.append(" ");
        i = i + 1;
        assert(out@ =~= old(out)@ + spaces(i as nat));
    }
}

/// Appends `s` left-aligned in a field of `width` characters.
pub fn push_padded_end(out: &mut String, s: &str, width: usize)
    ensures
        final(out)@ == old(out)@ + pad_end(s@, width as nat),
{
    let len = s.unicode_len();
    out.append(s);
    if len < width {
        push_spaces(out, width - len);
    }
    assert(final(out)@ =~= old(out)@ + pad_end(s@, width as nat));
}

/// Appends `s` right-aligned in a field of `width` characters.
pub fn push_padded_start(out: &mut String, s: &str, width: usize)
    ensures
        final(out)@ == old(out)@ + pad_start(s@, width as nat),
{
    let len = s.unicode_len();
    if len < width {
        push_spaces(out, width - len);
    }
    out.append(s);
    assert(final(out)@ =~= old(out)@ + pad_start(s@, width as nat));
}

// ---------------------------------------------------------------------------
// Human-readable sizes
// ---------------------------------------------------------------------------

/// `2^e`.
pub open spec fn pow2n(e: nat) -> nat
    decreases e,
{
    if e == 0 {
        1
    } else {
        2 * pow2n((e - 1) as nat)
    }
}

/// The number of low bits a 64-bit float drops when it holds `n`: none below
/// `2^53`, one more for each doubling above.
pub open spec fn dropped_bits(n: nat) -> nat
    decreases n,
{
    if n < 0x20_0000_0000_0000 {
        0
    } else {
        1 + dropped_bits(n / 2)
    }
}

/// `a / d` rounded to the nearest integer, ties to the even one.
pub open spec fn div_round_even(a: nat, d: nat) -> nat
    recommends
        d > 0,
{
    let q = a / d;
    let r = a % d;
    if 2 * r > d || (2 * r == d && q % 2 == 1) {
        q + 1
    } else {
        q
    }
}

/// The value a 64-bit float takes when converted from `n`: `n` rounded to 53
/// significant bits, ties to even.
pub open spec fn as_double(n: nat) -> nat {
    div_round_even(n, pow2n(dropped_bits(n))) * pow2n(dropped_bits(n))
}

/// The number of times a size is divided by 1024 before it is shown: until
/// it is below 1024, and at most four times.
pub open spec fn unit_index(bytes: nat) -> nat {
    if bytes < 0x400 {
        0
    } else if bytes < 0x10_0000 {
        1
    } else if bytes < 0x4000_0000 {
        2
    } else if bytes < 0x100_0000_0000 {
        3
    } else {
        4
    }
}

/// `1024^k` for the units in use.
pub open spec fn unit_scale(k: nat) -> nat {
    if k == 0 {
        1
    } else if k == 1 {
        0x400
    } else if k == 2 {
        0x10_0000
    } else if k == 3 {
        0x4000_0000
    } else {
        0x100_0000_0000
    }
}

/// The name of the unit `1024^k`.
pub open spec fn unit_name(k: nat) -> Seq<char> {
    if k == 1 {
        "KiB"@
    } else if k == 2 {
        "MiB"@
    } else if k == 3 {
        "GiB"@
    } else {
        "TiB"@
    }
}

/// The size in tenths of its unit, as a float division followed by rounding
/// to one decimal place (ties to even) gives it.
pub open spec fn size_tenths(bytes: nat) -> nat {
    div_round_even(as_double(bytes) * 10, unit_scale(unit_index(bytes)))
}

/// A size as people read it: whole bytes below 1 KiB, otherwise one decimal
/// place in the largest binary unit up to TiB.
pub open spec fn format_bytes_text(bytes: nat) -> Seq<char> {
    if bytes < 0x400 {
        decimal(bytes) + " B"@
    } else {
        let t = size_tenths(bytes);
        decimal(t / 10) + "."@ + decimal(t % 10) + " "@ + unit_name(unit_index(bytes))
    }
}

/// Formats a size in bytes for people, such as `999 B`, `1.0 KiB` or
/// `2.5 GiB`.
pub fn format_bytes(bytes: u64) -> (text: String)
    ensures
        text@ == format_bytes_text(bytes as nat),
{
    let mut text = String::new();
    if bytes < 1024 {
        push_decimal(&mut text, bytes);
        text.append(" B");
        return text;
    }
    // The value a float holds: drop the bits beyond 53 significant ones,
    // rounding to nearest with ties to even.
    let mut shifted: u64 = bytes;
    let mut dropped: u32 = 0;
    let mut scale: u128 = 1;
    while shifted >= 0x20_0000_0000_0000
        invariant
            dropped_bits(bytes as nat) == dropped + dropped_bits(shifted as nat),
            scale == pow2n(dropped as nat),
            dropped < scale,
            scale <= 0x1000,
            shifted as nat * scale <= bytes as nat,
        decreases shifted,
    {
        proof {
            assert(pow2n(dropped as nat + 1) == 2 * pow2n(dropped as nat));
            assert(scale <= 0x800) by (nonlinear_arith)
                requires
                    shifted >= 0x20_0000_0000_0000,
                    shifted as nat * scale <= bytes as nat,
                    bytes <= u64::MAX,
            ;
            assert((shifted / 2) as nat * (scale * 2) <= bytes as nat) by (nonlinear_arith)
                requires
                    shifted as nat * scale <= bytes as nat,
            ;
        }
        shifted = shifted / 2;
        dropped = dropped + 1;
        scale = scale * 2;
    }
    proof {
        lemma_pow2n_bound(dropped as nat);
    }
    let b = bytes as u128;
    let q = b / scale;
    let r = b % scale;
    proof {
        assert(q * scale <= b) by (nonlinear_arith)
            requires
                q == b / scale,
                scale >= 1,
        ;
    }
    let rounded = if 2 * r > scale || (2 * r == scale && q % 2 == 1) {
        q + 1
    } else {
        q
    };
    assert(rounded * scale <= b + scale) by (nonlinear_arith)
        requires
            rounded <= q + 1,
            q * scale <= b,
    ;
    let double = rounded * scale;
    assert(double == as_double(bytes as nat));
    let (unit_scale_value, unit): (u128, &str) = if bytes < 0x10_0000 {
        (0x400, "KiB")
    } else if bytes < 0x4000_0000 {
        (0x10_0000, "MiB")
    } else if bytes < 0x100_0000_0000 {
        (0x4000_0000, "GiB")
    } else {
        (0x100_0000_0000, "TiB")
    };
    let scaled = double * 10;
    let tq = scaled / unit_scale_value;
    let tr = scaled % unit_scale_value;
    let tenths = if 2 * tr > unit_scale_value || (2 * tr == unit_scale_value && tq % 2 == 1) {
        tq + 1
    } else {
        tq
    };
    proof {
        assert(tq <= scaled) by (nonlinear_arith)
            requires
                tq == scaled / unit_scale_value,
                unit_scale_value >= 1,
        ;
    }
    assert(tenths == size_tenths(bytes as nat));
    push_decimal(&mut text, (tenths / 10) as u64);
    text.append(".");
    push_decimal(&mut text, (tenths % 10) as u64);
    text.append(" ");
    text.append(unit);
    text
}

proof fn lemma_pow2n_bound(e: nat)
    ensures
        pow2n(e) >= 1,
    decreases e,
{
    if e > 0 {
        lemma_pow2n_bound((e - 1) as nat);
    }
}

} // verus!
