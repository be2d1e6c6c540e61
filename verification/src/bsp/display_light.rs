//! Text and pixel encodings of the panel overlay: decimal digits, the
//! overlay's value words, and RGB565 packing.
use vstd::prelude::*;

use crate::drivers::light::Rgb;

verus! {

/// Decimal ASCII digits of `v`, most significant first, no leading zeros.
pub open spec fn decimal(v: nat) -> Seq<u8>
    decreases v,
{
    if v < 10 {
        seq![(48 + v) as u8]
    } else {
        decimal(v / 10).push((48 + v % 10) as u8)
    }
}

/// The same digits, least significant first.
pub open spec fn reversed_digits(v: nat) -> Seq<u8>
    decreases v,
{
    if v < 10 {
        seq![(48 + v) as u8]
    } else {
        seq![(48 + v % 10) as u8] + reversed_digits(v / 10)
    }
}

proof fn lemma_reversed_digits(v: nat)
    ensures
        reversed_digits(v).reverse() == decimal(v),
        reversed_digits(v).len() == decimal(v).len(),
    decreases v,
{
    if v >= 10 {
        lemma_reversed_digits(v / 10);
        let head = seq![(48 + v % 10) as u8];
        assert((head + reversed_digits(v / 10)).reverse() =~= reversed_digits(v / 10).reverse() + head.reverse());
        assert(head.reverse() =~= head);
        assert(decimal(v / 10) + head =~= decimal(v / 10).push((48 + v % 10) as u8));
    }
}

/// Ten to the `k`.
pub open spec fn ten_pow(k: nat) -> nat
    decreases k,
{
    if k == 0 {
        1
    } else {
        10 * ten_pow((k - 1) as nat)
    }
}

proof fn lemma_decimal_len(v: nat, k: nat)
    requires
        v < ten_pow(k),
        k >= 1,
    ensures
        decimal(v).len() <= k,
    decreases k,
{
    if v >= 10 {
        let smaller = ten_pow((k - 1) as nat);
        assert(v / 10 < smaller) by (nonlinear_arith)
            requires
                v < 10 * smaller,
        ;
        if k == 1 {
            assert(smaller == 1);
        } else {
            lemma_decimal_len(v / 10, (k - 1) as nat);
        }
    }
}

/// A `u64` has at most twenty decimal digits.
proof fn lemma_u64_digits(v: u64)
    ensures
        decimal(v as nat).len() <= 20,
{
    reveal_with_fuel(ten_pow, 21);
    assert(ten_pow(20) == 100_000_000_000_000_000_000);
    lemma_decimal_len(v as nat, 20);
}

/// Appends the decimal ASCII digits of `value` to `buf` at offset `n`;
/// returns the new length.
pub fn write_u64<const N: usize>(value: u64, buf: &mut [u8; N], n: usize) -> (end: usize)
    requires
        n + decimal(value as nat).len() <= N,
    ensures
        end == n + decimal(value as nat).len(),
        final(buf)@ == old(buf)@.take(n as int) + decimal(value as nat) + old(buf)@.skip(end as int),
{
    proof {
        lemma_u64_digits(value);
        lemma_reversed_digits(value as nat);
    }
    let mut tmp = [0u8; 20];
    let mut len: usize = 0;
    let mut rest = value;
    loop
        invariant_except_break
            len + reversed_digits(rest as nat).len() == reversed_digits(value as nat).len(),
            tmp@.take(len as int) + reversed_digits(rest as nat) == reversed_digits(value as nat),
        invariant
            reversed_digits(value as nat).len() <= 20,
        ensures
            tmp@.take(len as int) == reversed_digits(value as nat),
            len == reversed_digits(value as nat).len(),
        decreases rest,
    {
        let ghost before = tmp@.take(len as int);
        assert(reversed_digits(rest as nat).len() >= 1);
        tmp[len] = 48u8 + (rest % 10) as u8;
        len += 1;
        proof {
            assert(tmp@.take(len as int) =~= before.push((48 + rest % 10) as u8));
            if rest >= 10 {
                assert(before + reversed_digits(rest as nat) =~= before.push((48 + rest % 10) as u8) + reversed_digits((rest / 10) as nat));
            } else {
                assert(before + reversed_digits(rest as nat) =~= before.push((48 + rest % 10) as u8));
            }
        }
        rest = rest / 10;
        if rest == 0 {
            break;
        }
    }
    let ghost digits = tmp@.take(len as int);
    let mut i: usize = 0;
    let mut at = n;
    while i < len
        invariant
            0 <= i <= len,
            at == n + i,
            len == digits.len(),
            len <= 20,
            n + len <= N,
            digits.reverse() == decimal(value as nat),
            digits == tmp@.take(len as int),
            buf@ == old(buf)@.take(n as int) + digits.reverse().take(i as int) + old(buf)@.skip(at as int),
        decreases len - i,
    {
        let ghost prev = buf@;
        buf[at] = tmp[len - 1 - i];
        proof {
            assert(digits.reverse()[i as int] == digits[len - 1 - i]);
            assert(digits[len - 1 - i] == tmp@[len - 1 - i]);
            assert(buf@ =~= old(buf)@.take(n as int) + digits.reverse().take(i + 1) + old(buf)@.skip(at + 1));
        }
        i += 1;
        at += 1;
    }
    proof {
        assert(digits.reverse().take(len as int) =~= digits.reverse());
    }
    at
}

/// Appends the decimal digits of a `u16`.
pub fn write_u16<const N: usize>(value: u16, buf: &mut [u8; N], n: usize) -> (end: usize)
    requires
        n + decimal(value as nat).len() <= N,
    ensures
        end == n + decimal(value as nat).len(),
        final(buf)@ == old(buf)@.take(n as int) + decimal(value as nat) + old(buf)@.skip(end as int),
{
    write_u64(value as u64, buf, n)
}

/// A signed value's decimal text: a leading `-` for negatives.
pub open spec fn signed_decimal(value: i32) -> Seq<u8> {
    if value < 0 {
        seq![45u8] + decimal((-value) as nat)
    } else {
        decimal(value as nat)
    }
}

/// Tenths as text: the whole part, a dot, then the tenths digit.
pub open spec fn tenths_text(value: i32) -> Seq<u8> {
    let magnitude = if value < 0 { -value } else { value as int };
    (if value < 0 { seq![45u8] } else { Seq::empty() }) + decimal((magnitude / 10) as nat) + seq![
        46u8,
        (48 + magnitude % 10) as u8,
    ]
}

proof fn lemma_magnitude_digits(v: nat)
    requires
        v <= 2_147_483_648,
    ensures
        decimal(v).len() <= 10,
        decimal(v / 10).len() <= 9,
{
    reveal_with_fuel(ten_pow, 11);
    assert(ten_pow(10) == 10_000_000_000);
    assert(ten_pow(9) == 1_000_000_000);
    lemma_decimal_len(v, 10);
    lemma_decimal_len(v / 10, 9);
}

/// Decimal digits of `value` (no leading zeros) written into the start of
/// `buf`; returns how many bytes were filled.
pub fn format_i32(value: i32, buf: &mut [u8; 12]) -> (n: usize)
    ensures
        n <= 12,
        final(buf)@.take(n as int) == signed_decimal(value),
{
    let negative = value < 0;
    let magnitude: u64 = if negative {
        (-(value as i64)) as u64
    } else {
        value as u64
    };
    proof {
        lemma_magnitude_digits(magnitude as nat);
    }
    let mut n: usize = 0;
    if negative {
        buf[0] = 45u8;
        n = 1;
    }
    let ghost head = buf@.take(n as int);
    let end = write_u64(magnitude, buf, n);
    assert(buf@.take(end as int) =~= head + decimal(magnitude as nat));
    if negative {
        assert(head =~= seq![45u8]);
    } else {
        assert(head =~= Seq::<u8>::empty());
    }
    end
}

/// Tenths of a unit as `whole.tenth` text; returns how many bytes were
/// filled.
pub fn format_tenths(value: i32, buf: &mut [u8; 12]) -> (n: usize)
    ensures
        n <= 12,
        final(buf)@.take(n as int) == tenths_text(value),
{
    let negative = value < 0;
    let magnitude: u64 = if negative {
        (-(value as i64)) as u64
    } else {
        value as u64
    };
    proof {
        lemma_magnitude_digits(magnitude as nat);
    }
    let mut n: usize = 0;
    if negative {
        buf[0] = 45u8;
        n = 1;
    }
    let ghost head = buf@.take(n as int);
    let end = write_u64(magnitude / 10, buf, n);
    let ghost body = buf@.take(end as int);
    assert(body =~= head + decimal((magnitude / 10) as nat));
    buf[end] = 46u8;
    buf[end + 1] = 48u8 + (magnitude % 10) as u8;
    assert(buf@.take(end + 2) =~= body + seq![46u8, (48 + magnitude % 10) as u8]);
    if negative {
        assert(head =~= seq![45u8]);
    } else {
        assert(head =~= Seq::<u8>::empty());
    }
    end + 2
}

/// Decimal digits of a `u16`; returns how many bytes were filled.
pub fn format_u16(value: u16, buf: &mut [u8; 6]) -> (n: usize)
    ensures
        n <= 6,
        final(buf)@.take(n as int) == decimal(value as nat),
{
    proof {
        reveal_with_fuel(ten_pow, 6);
        lemma_decimal_len(value as nat, 5);
    }
    let end = write_u16(value, buf, 0);
    assert(buf@.take(end as int) =~= decimal(value as nat));
    end
}

/// An optional coordinate pair as `x y` text, a single dash when unset.
pub open spec fn pair_text(pair: Option<(u16, u16)>) -> Seq<u8> {
    match pair {
        Some((x, y)) => decimal(x as nat) + seq![32u8] + decimal(y as nat),
        None => seq![45u8],
    }
}

/// Renders an optional coordinate pair; returns how many bytes were filled.
pub fn format_pair(pair: Option<(u16, u16)>, buf: &mut [u8; 8]) -> (n: usize)
    requires
        pair_text(pair).len() <= 8,
    ensures
        n == pair_text(pair).len(),
        final(buf)@.take(n as int) == pair_text(pair),
{
    match pair {
        Some((x, y)) => {
            let n = write_u16(x, buf, 0);
            let ghost first = buf@.take(n as int);
            assert(first =~= decimal(x as nat));
            buf[n] = 32u8;
            let end = write_u16(y, buf, n + 1);
            assert(buf@.take(end as int) =~= first + seq![32u8] + decimal(y as nat));
            end
        },
        None => {
            buf[0] = 45u8;
            assert(buf@.take(1) =~= seq![45u8]);
            1
        },
    }
}

/// The brightest channel of a driven color, the live brightness readout.
pub fn brightness_of(color: Rgb) -> (b: u8)
    ensures
        b >= color.0 && b >= color.1 && b >= color.2,
        b == color.0 || b == color.1 || b == color.2,
{
    let m = if color.0 >= color.1 { color.0 } else { color.1 };
    if m >= color.2 { m } else { color.2 }
}

/// The light mode's three-letter word: `1` breathing, `2` solid, anything
/// else off.
pub open spec fn mode_text(mode: u8) -> Seq<u8> {
    if mode == 1 {
        seq![66u8, 82, 69]
    } else if mode == 2 {
        seq![83u8, 79, 76]
    } else {
        seq![79u8, 70, 70]
    }
}

pub fn mode_word(mode: u8) -> (w: [u8; 3])
    ensures
        w@ == mode_text(mode),
{
    let w: [u8; 3] = match mode {
        1 => [66, 82, 69],
        2 => [83, 79, 76],
        _ => [79, 70, 70],
    };
    assert(w@ =~= mode_text(mode));
    w
}

/// The ASCII digit of a movement-direction code (`1`-`9`), a dash when
/// nothing moves (`0`) or the code is out of range.
pub fn direction_arrow(dir: u8) -> (c: u8)
    ensures
        c == if 1 <= dir <= 9 {
            (48 + dir) as u8
        } else {
            45u8
        },
{
    if 1 <= dir && dir <= 9 {
        48 + dir
    } else {
        45
    }
}

/// A color packed as RGB565: five bits of red, six of green, five of blue.
pub open spec fn packed565(color: Rgb) -> int {
    (color.0 / 8) * 2048 + (color.1 / 4) * 32 + color.2 / 8
}

pub fn rgb565(color: Rgb) -> (p: u16)
    ensures
        p == packed565(color),
{
    let r = color.0 as u16;
    let g = color.1 as u16;
    let b = color.2 as u16;
    let p = ((r & 0xF8) << 8) | ((g & 0xFC) << 3) | (b >> 3);
    assert(p == (r / 8) * 2048 + (g / 4) * 32 + b / 8) by (bit_vector)
        requires
            r <= 255,
            g <= 255,
            b <= 255,
            p == ((r & 0xF8) << 8) | ((g & 0xFC) << 3) | (b >> 3),
    ;
    p
}

/// Per-channel inversion of an RGB565 word, visible on any fill.
pub open spec fn inverted565(packed: u16) -> int {
    let r = packed / 2048;
    let g = (packed / 32) % 64;
    let b = packed % 32;
    (31 - r) * 2048 + (63 - g) * 32 + (31 - b)
}

pub fn invert_rgb565(packed: u16) -> (p: u16)
    ensures
        p == inverted565(packed),
{
    let r = (packed >> 11) & 0x1F;
    let g = (packed >> 5) & 0x3F;
    let b = packed & 0x1F;
    assert(r <= 31 && g <= 63 && b <= 31) by (bit_vector)
        requires
            r == (packed >> 11) & 0x1F,
            g == (packed >> 5) & 0x3F,
            b == packed & 0x1F,
    ;
    let ri: u16 = 0x1F - r;
    let gi: u16 = 0x3F - g;
    let bi: u16 = 0x1F - b;
    let p = (ri << 11) | (gi << 5) | bi;
    assert(p == (31 - packed / 2048) * 2048 + (63 - (packed / 32) % 64) * 32 + (31 - packed % 32)) by (bit_vector)
        requires
            r == (packed >> 11) & 0x1F,
            g == (packed >> 5) & 0x3F,
            b == packed & 0x1F,
            ri == 31 - r,
            gi == 63 - g,
            bi == 31 - b,
            p == (ri << 11) | (gi << 5) | bi,
    ;
    p
}

} // verus!
