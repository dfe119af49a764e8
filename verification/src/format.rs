//! Number formatting and scales for the displays.
use vstd::prelude::*;

use vstd::arithmetic::div_mod::{lemma_div_denominator, lemma_fundamental_div_mod};

use crate::text::{decimal, digit_char, push_decimal, string_from_chars};

verus! {

/// The digits `d` from index `i` on, with a comma before each digit
/// (but the first of all) that a multiple of three digits follow, so
/// that `1234567` reads `1,234,567`.
pub open spec fn grouped_from(d: Seq<char>, i: int) -> Seq<char>
    decreases d.len() - i,
{
    if i < 0 || i >= d.len() {
        Seq::empty()
    } else {
        let rest = grouped_from(d, i + 1);
        if i > 0 && (d.len() - i) % 3 == 0 {
            seq![',', d[i]] + rest
        } else {
            seq![d[i]] + rest
        }
    }
}

/// `n` in decimal with thousands separated by commas.
pub fn format_number(num: u64) -> (r: String)
    ensures
        r@ == grouped_from(decimal(num as nat), 0),
{
    let mut digits: Vec<char> = Vec::new();
    push_decimal(&mut digits, num);
    assert(digits@ =~= decimal(num as nat));
    let n = digits.len();
    let mut out: Vec<char> = Vec::new();
    let mut i: usize = 0;
    let ghost d = digits@;
    while i < n
        invariant
            n == d.len(),
            d == digits@,
            i <= n,
            out@ + grouped_from(d, i as int) == grouped_from(d, 0),
        decreases n - i,
    {
        if i > 0 && (n - i) % 3 == 0 {
            out.push(',');
        }
        out.push(digits[i]);
        proof {
            assert(out@ + grouped_from(d, i + 1) =~= grouped_from(d, 0));
        }
        i = i + 1;
    }
    assert(grouped_from(d, n as int) =~= Seq::<char>::empty());
    assert(out@ + Seq::<char>::empty() =~= out@);
    string_from_chars(out.as_slice())
}

/// Link capacities a graph is scaled to, in bits per second.
pub open spec fn capacity_tiers() -> Seq<u64> {
    seq![
        1_000_000u64,
        10_000_000,
        100_000_000,
        1_000_000_000,
        10_000_000_000,
        40_000_000_000,
        100_000_000_000,
    ]
}

/// The first tier, from `i` on, that carries `bits` per second.
pub open spec fn tier_from(bits: int, i: int) -> u64
    decreases 7 - i,
{
    if i < 0 || i >= 7 {
        100_000_000_000
    } else if bits <= capacity_tiers()[i] {
        capacity_tiers()[i]
    } else {
        tier_from(bits, i + 1)
    }
}

/// The graph scale for a peak of `actual_max` bytes per second: the
/// smallest link capacity that carries it (100 Gbit/s at most), in bytes
/// per second.
pub fn get_network_capacity_scale(actual_max: u64) -> (r: u64)
    requires
        actual_max * 8 <= u64::MAX,
    ensures
        r == tier_from(actual_max * 8, 0) / 8,
{
    let actual_bits = actual_max * 8;
    let tiers: [u64; 7] = [
        1_000_000,
        10_000_000,
        100_000_000,
        1_000_000_000,
        10_000_000_000,
        40_000_000_000,
        100_000_000_000,
    ];
    let mut i: usize = 0;
    while i < 7
        invariant
            i <= 7,
            actual_bits == actual_max * 8,
            tiers@ == capacity_tiers(),
            tier_from(actual_bits as int, 0) == tier_from(actual_bits as int, i as int),
        decreases 7 - i,
    {
        if actual_bits <= tiers[i] {
            return tiers[i] / 8;
        }
        i = i + 1;
    }
    100_000_000_000 / 8
}

// ---------------------------------------------------------------------
// Sizes in binary units
// ---------------------------------------------------------------------

/// `num / den` rounded to the nearest whole number, a half to the even
/// neighbour.
pub open spec fn round_half_even(num: nat, den: nat) -> nat {
    let q = num / den;
    let r = num % den;
    if 2 * r > den || (2 * r == den && q % 2 == 1) {
        q + 1
    } else {
        q
    }
}

/// The distance between neighbouring doubles near `b`: 1 below 2^53,
/// doubling with each bit above.
pub open spec fn double_spacing(b: nat) -> nat
    decreases b,
{
    if b < 0x20_0000_0000_0000 {
        1
    } else {
        2 * double_spacing(b / 2)
    }
}

/// The whole number `b` as a double holds it: the nearest multiple of
/// the spacing, a tie to the even multiple.
pub open spec fn as_double(b: nat) -> nat {
    round_half_even(b, double_spacing(b)) * double_spacing(b)
}

/// How many times 1024 goes into `v`, four at most.
pub open spec fn size_steps(v: nat) -> nat {
    if v >= 0x100_0000_0000 {
        4
    } else if v >= 0x4000_0000 {
        3
    } else if v >= 0x10_0000 {
        2
    } else if v >= 0x400 {
        1
    } else {
        0
    }
}

/// 1024 to the power `k` (for `k` up to 4).
pub open spec fn step_scale(k: nat) -> nat {
    if k == 0 {
        1
    } else if k == 1 {
        0x400
    } else if k == 2 {
        0x10_0000
    } else if k == 3 {
        0x4000_0000
    } else {
        0x100_0000_0000
    }
}

/// The name of the unit `k` steps of 1024 above the byte.
pub open spec fn size_unit(k: nat) -> Seq<char> {
    if k == 0 {
        seq!['B']
    } else if k == 1 {
        seq!['K', 'B']
    } else if k == 2 {
        seq!['M', 'B']
    } else if k == 3 {
        seq!['G', 'B']
    } else {
        seq!['T', 'B']
    }
}

/// The decimals shown of `v / scale`: none from 100 up, one from 10 up,
/// else two.
pub open spec fn size_decimals(v: nat, scale: nat) -> nat {
    if v >= 100 * scale {
        0
    } else if v >= 10 * scale {
        1
    } else {
        2
    }
}

/// 10 to the power `d` (for `d` up to 2).
pub open spec fn pow10(d: nat) -> nat {
    if d == 0 {
        1
    } else if d == 1 {
        10
    } else {
        100
    }
}

/// The decimal point and the `d` digits of `f` (nothing for `d == 0`).
pub open spec fn fraction_digits(f: nat, d: nat) -> Seq<char> {
    if d == 0 {
        Seq::empty()
    } else if d == 1 {
        seq!['.', digit_char((f % 10) as int)]
    } else {
        seq!['.', digit_char(((f / 10) % 10) as int), digit_char((f % 10) as int)]
    }
}

/// A size of `bytes` bytes: the value as a double, divided by 1024 while
/// it is at least 1024 (four times at most), shown with no, one or two
/// decimals (rounded to even) and the unit B, KB, MB, GB or TB.
pub open spec fn size_text(bytes: nat) -> Seq<char> {
    let v = as_double(bytes);
    let k = size_steps(v);
    let scale = step_scale(k);
    let d = size_decimals(v, scale);
    let n = round_half_even(v * pow10(d), scale);
    decimal(n / pow10(d)) + fraction_digits(n % pow10(d), d) + seq![' '] + size_unit(k)
}

/// `b` as a double holds it (see `as_double`).
fn double_value(bytes: u64) -> (v: u128)
    ensures
        v == as_double(bytes as nat),
        v <= 0x1_0000_0000_0000_1000,
{
    let mut t: u64 = bytes;
    let mut spacing: u64 = 1;
    while t >= 0x20_0000_0000_0000
        invariant
            1 <= spacing <= 0x1000,
            spacing == 1 || spacing * 0x10_0000_0000_0000 <= bytes,
            t == bytes / spacing,
            spacing * double_spacing(t as nat) == double_spacing(bytes as nat),
        decreases t,
    {
        proof {
            lemma_fundamental_div_mod(bytes as int, spacing as int);
            assert(spacing * 0x20_0000_0000_0000 <= bytes) by (nonlinear_arith)
                requires
                    spacing * t <= bytes,
                    t >= 0x20_0000_0000_0000,
                    spacing >= 1,
            ;
            lemma_div_denominator(bytes as int, spacing as int, 2);
            let ds = double_spacing((t / 2) as nat);
            assert(double_spacing(t as nat) == 2 * ds);
            assert((spacing * 2) * ds == spacing * (2 * ds)) by (nonlinear_arith);
        }
        t = t / 2;
        spacing = spacing * 2;
    }
    assert(spacing == double_spacing(bytes as nat)) by {
        let ds = double_spacing(t as nat);
        assert(ds == 1);
        assert(spacing * ds == spacing) by (nonlinear_arith)
            requires
                ds == 1,
        ;
    }
    let q: u64 = bytes / spacing;
    let r: u64 = bytes % spacing;
    let n: u128 = if 2 * r > spacing || (2 * r == spacing && q % 2 == 1) {
        q as u128 + 1
    } else {
        q as u128
    };
    assert(n == round_half_even(bytes as nat, spacing as nat));
    proof {
        lemma_fundamental_div_mod(bytes as int, spacing as int);
        assert(n * spacing <= 0x1_0000_0000_0000_1000) by (nonlinear_arith)
            requires
                n <= q + 1,
                spacing * q <= bytes,
                bytes < 0x1_0000_0000_0000_0000,
                1 <= spacing <= 0x1000,
        ;
    }
    n * spacing as u128
}

/// Appends the decimal digits of `n` to `out`.
fn push_decimal_wide(out: &mut Vec<char>, n: u128)
    ensures
        final(out)@ == old(out)@ + decimal(n as nat),
    decreases n,
{
    if n >= 10 {
        push_decimal_wide(out, n / 10);
    }
    out.push(digit(n % 10));
}

fn digit(d: u128) -> (c: char)
    requires
        d < 10,
    ensures
        c == digit_char(d as int),
{
    (48u8 + d as u8) as char
}

/// The steps of 1024, the decimals and the rounded digits of a size of
/// `v` bytes (see `size_text`).
fn rounded_size(v: u128) -> (r: (u64, u64, u128))
    requires
        v <= 0x1_0000_0000_0000_1000,
    ensures
        r.0 == size_steps(v as nat),
        r.1 == size_decimals(v as nat, step_scale(r.0 as nat)),
        r.2 == round_half_even(v as nat * pow10(r.1 as nat), step_scale(r.0 as nat)),
{
    let (k, scale): (u64, u128) = if v >= 0x100_0000_0000 {
        (4, 0x100_0000_0000)
    } else if v >= 0x4000_0000 {
        (3, 0x4000_0000)
    } else if v >= 0x10_0000 {
        (2, 0x10_0000)
    } else if v >= 0x400 {
        (1, 0x400)
    } else {
        (0, 1)
    };
    let (d, num): (u64, u128) = if v >= 100 * scale {
        (0, v)
    } else if v >= 10 * scale {
        (1, v * 10)
    } else {
        (2, v * 100)
    };
    let q: u128 = num / scale;
    let r: u128 = num % scale;
    let n: u128 = if 2 * r > scale || (2 * r == scale && q % 2 == 1) {
        q + 1
    } else {
        q
    };
    (k, d, n)
}

/// Appends the text of `n` hundredths, tenths or units (`d` decimals)
/// of the unit `k`.
fn push_size(out: &mut Vec<char>, k: u64, d: u64, n: u128)
    requires
        k <= 4,
        d <= 2,
    ensures
        final(out)@ == old(out)@ + decimal(n as nat / pow10(d as nat)) + fraction_digits(
            n as nat % pow10(d as nat),
            d as nat,
        ) + seq![' '] + size_unit(k as nat),
{
    let p10: u128 = if d == 0 {
        1
    } else if d == 1 {
        10
    } else {
        100
    };
    let frac: u128 = n % p10;
    push_decimal_wide(out, n / p10);
    let ghost before = out@;
    if d == 1 {
        out.push('.');
        out.push(digit(frac % 10));
    } else if d == 2 {
        out.push('.');
        out.push(digit((frac / 10) % 10));
        out.push(digit(frac % 10));
    }
    assert(out@ =~= before + fraction_digits(frac as nat, d as nat));
    let ghost before_unit = out@;
    out.push(' ');
    if k == 0 {
        out.push('B');
    } else {
        if k == 1 {
            out.push('K');
        } else if k == 2 {
            out.push('M');
        } else if k == 3 {
            out.push('G');
        } else {
            out.push('T');
        }
        out.push('B');
    }
    assert(out@ =~= before_unit + seq![' '] + size_unit(k as nat));
}

/// A size in binary units (see `size_text`), e.g. `1536` reads
/// `"1.50 KB"`.
pub fn format_bytes(bytes: u64) -> (r: String)
    ensures
        r@ == size_text(bytes as nat),
{
    let v = double_value(bytes);
    let (k, d, n): (u64, u64, u128) = rounded_size(v);
    let mut out: Vec<char> = Vec::new();
    push_size(&mut out, k, d, n);
    assert(out@ =~= size_text(bytes as nat));
    string_from_chars(out.as_slice())
}

} // verus!
