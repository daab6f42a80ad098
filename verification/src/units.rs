//! Unit formatting.
//!
//! Byte counts become short binary-prefixed texts, and ratios become whole
//! percentages between 0 and 100.  All rounding is to the nearest value, with
//! ties going away from zero.

use crate::text::{decimal, digit_char, push_decimal};
use vstd::prelude::*;

verus! {

/// Bytes in one KiB.
pub const KIB: u64 = 1024;

/// Bytes in one MiB.
pub const MIB: u64 = 1_048_576;

/// Bytes in one GiB.
pub const GIB: u64 = 1_073_741_824;

/// Bytes in one TiB.
pub const TIB: u64 = 1_099_511_627_776;

/// `n / d` rounded to the nearest whole number, ties upwards.
pub open spec fn rounded_ratio(n: nat, d: nat) -> nat
    recommends
        d > 0,
{
    (2 * n + d) / (2 * d)
}

/// A number of tenths written with exactly one decimal place.
pub open spec fn tenths_fixed(tenths: nat) -> Seq<char> {
    decimal(tenths / 10).push('.').push(digit_char(tenths % 10))
}

/// A number of tenths written with one decimal place, or with none where the
/// decimal would be 0.
pub open spec fn tenths_short(tenths: nat) -> Seq<char> {
    if tenths % 10 == 0 {
        decimal(tenths / 10)
    } else {
        tenths_fixed(tenths)
    }
}

/// Every whole number below this one is a 64-bit floating-point number.
pub const EXACT_LIMIT: u64 = 9_007_199_254_740_992;

/// The distance between the 64-bit floating-point numbers around `n`.
pub open spec fn float_step(n: nat) -> nat
    decreases n,
{
    if n < EXACT_LIMIT {
        1
    } else {
        2 * float_step(n / 2)
    }
}

/// The 64-bit floating-point number nearest to `n`; of two that are equally
/// near, the one that is an even multiple of their distance.
pub open spec fn nearest_float(n: nat) -> nat {
    let step = float_step(n);
    let below = (n / step) * step;
    let rest = n % step;
    if 2 * rest > step || (2 * rest == step && (n / step) % 2 == 1) {
        below + step
    } else {
        below
    }
}

/// The short text for a size of `bytes` bytes.
///
/// Below 1 KiB the bytes are counted; below 1 MiB and below 1 GiB whole KiB
/// and MiB.  GiB and TiB get one decimal place up to 100 units and none from
/// there on; GiB drop a decimal of 0, TiB keep it.  The size is scaled as a
/// floating-point number: a size too large to be one is first rounded to
/// the nearest.
pub open spec fn size_text(bytes: nat) -> Seq<char> {
    if bytes < KIB {
        decimal(bytes).push('B')
    } else if bytes < MIB {
        decimal(rounded_ratio(bytes, KIB as nat)).push('K')
    } else if bytes < GIB {
        decimal(rounded_ratio(bytes, MIB as nat)).push('M')
    } else if bytes < TIB {
        if bytes >= 100 * GIB {
            decimal(rounded_ratio(bytes, GIB as nat)).push('G')
        } else {
            tenths_short(rounded_ratio(10 * bytes, GIB as nat)).push('G')
        }
    } else {
        if bytes >= 100 * TIB {
            decimal(rounded_ratio(nearest_float(bytes), TIB as nat)).push('T')
        } else {
            tenths_fixed(rounded_ratio(10 * bytes, TIB as nat)).push('T')
        }
    }
}

/// The share of `part` in `whole` as a whole percentage, never above 100, and
/// 0 where `whole` is 0.
pub open spec fn percent(part: nat, whole: nat) -> nat {
    if whole == 0 {
        0
    } else if rounded_ratio(100 * part, whole) > 100 {
        100
    } else {
        rounded_ratio(100 * part, whole)
    }
}

/// The square of the ratio `value / max` as a whole percentage, never above
/// 100, and 0 where `max` is 0.
pub open spec fn squared_percent(value: nat, max: nat) -> nat {
    percent(value * value, max * max)
}

/// The highest of the values, 0 if there is none.
pub open spec fn peak(values: Seq<u32>) -> u32
    decreases values.len(),
{
    if values.len() == 0 {
        0
    } else if peak(values.drop_last()) < values.last() {
        values.last()
    } else {
        peak(values.drop_last())
    }
}

/// The lowest of the values, 0 if there is none.
pub open spec fn lowest(values: Seq<u32>) -> u32
    decreases values.len(),
{
    if values.len() == 0 {
        0
    } else if values.len() == 1 || values.last() < lowest(values.drop_last()) {
        values.last()
    } else {
        lowest(values.drop_last())
    }
}

/// No value is above the highest or below the lowest, and where there is a
/// value, the highest and the lowest are among the values.
pub proof fn lemma_peak_and_lowest(values: Seq<u32>)
    ensures
        forall|i: int| 0 <= i < values.len() ==> lowest(values) <= #[trigger] values[i] <= peak(values),
        values.len() > 0 ==> values.contains(peak(values)) && values.contains(lowest(values)),
    decreases values.len(),
{
    if values.len() > 0 {
        let rest = values.drop_last();
        lemma_peak_and_lowest(rest);
        assert forall|i: int| 0 <= i < values.len() implies lowest(values) <= #[trigger] values[i]
            <= peak(values) by {
            if i < rest.len() {
                assert(rest[i] == values[i]);
            }
        }
        assert(values.last() == values[values.len() - 1]);
        if rest.len() > 0 {
            let high = choose|i: int| 0 <= i < rest.len() && rest[i] == peak(rest);
            assert(values[high] == peak(rest));
            let low = choose|i: int| 0 <= i < rest.len() && rest[i] == lowest(rest);
            assert(values[low] == lowest(rest));
        }
    }
}

/// The highest of the values, 0 if there is none.
pub fn max_of(values: &Vec<u32>) -> (m: u32)
    ensures
        m == peak(values@),
{
    let mut m: u32 = 0;
    let mut i: usize = 0;
    assert(values@.take(0) == Seq::<u32>::empty());
    while i < values.len()
        invariant
            i <= values.len(),
            m == peak(values@.take(i as int)),
        decreases values.len() - i,
    {
        assert(values@.take(i + 1).drop_last() == values@.take(i as int));
        if m < values[i] {
            m = values[i];
        }
        i += 1;
    }
    assert(values@.take(i as int) == values@);
    m
}

/// The lowest of the values, 0 if there is none.
pub fn min_of(values: &Vec<u32>) -> (m: u32)
    ensures
        m == lowest(values@),
{
    let mut m: u32 = 0;
    let mut i: usize = 0;
    assert(values@.take(0) == Seq::<u32>::empty());
    while i < values.len()
        invariant
            i <= values.len(),
            m == lowest(values@.take(i as int)),
        decreases values.len() - i,
    {
        assert(values@.take(i + 1).drop_last() == values@.take(i as int));
        if i == 0 || values[i] < m {
            m = values[i];
        }
        i += 1;
    }
    assert(values@.take(i as int) == values@);
    m
}

/// A power of two up to 2048: the distances between the floating-point
/// numbers that a `u64` can be near to.
spec fn is_float_step(step: nat) -> bool {
    ||| step == 1
    ||| step == 2
    ||| step == 4
    ||| step == 8
    ||| step == 16
    ||| step == 32
    ||| step == 64
    ||| step == 128
    ||| step == 256
    ||| step == 512
    ||| step == 1024
    ||| step == 2048
}

/// The multiple of `step` above the one that `n` follows is 2^64 at most.
proof fn lemma_next_multiple_fits(n: nat, step: nat)
    requires
        is_float_step(step),
        n <= u64::MAX,
    ensures
        (n / step) * step + step <= 0x1_0000_0000_0000_0000,
{
    if step == 1 {
        assert((n / 1) * 1 + 1 <= 0x1_0000_0000_0000_0000);
    } else if step == 2 {
        assert((n / 2) * 2 + 2 <= 0x1_0000_0000_0000_0000);
    } else if step == 4 {
        assert((n / 4) * 4 + 4 <= 0x1_0000_0000_0000_0000);
    } else if step == 8 {
        assert((n / 8) * 8 + 8 <= 0x1_0000_0000_0000_0000);
    } else if step == 16 {
        assert((n / 16) * 16 + 16 <= 0x1_0000_0000_0000_0000);
    } else if step == 32 {
        assert((n / 32) * 32 + 32 <= 0x1_0000_0000_0000_0000);
    } else if step == 64 {
        assert((n / 64) * 64 + 64 <= 0x1_0000_0000_0000_0000);
    } else if step == 128 {
        assert((n / 128) * 128 + 128 <= 0x1_0000_0000_0000_0000);
    } else if step == 256 {
        assert((n / 256) * 256 + 256 <= 0x1_0000_0000_0000_0000);
    } else if step == 512 {
        assert((n / 512) * 512 + 512 <= 0x1_0000_0000_0000_0000);
    } else if step == 1024 {
        assert((n / 1024) * 1024 + 1024 <= 0x1_0000_0000_0000_0000);
    } else {
        assert((n / 2048) * 2048 + 2048 <= 0x1_0000_0000_0000_0000);
    }
}

/// The 64-bit floating-point number nearest to `n`.  It may be 2^64, which
/// no `u64` holds.
pub fn nearest_float_of(n: u64) -> (f: u128)
    ensures
        f == nearest_float(n as nat),
        f <= 0x1_0000_0000_0000_0000,
{
    let mut step: u64 = 1;
    let mut whole: u64 = n;
    while whole >= EXACT_LIMIT
        invariant
            is_float_step(step as nat),
            whole == n / step,
            float_step(n as nat) == step * float_step(whole as nat),
        decreases whole,
    {
        proof {
            if step == 2048 {
                assert(n / 2048 < EXACT_LIMIT);
            }
            vstd::arithmetic::div_mod::lemma_div_denominator(n as int, step as int, 2);
            let half = float_step(whole as nat / 2);
            assert(step * (2 * half) == (step * 2) * half) by (nonlinear_arith);
        }
        whole = whole / 2;
        step = step * 2;
    }
    assert(float_step(n as nat) == step) by {
        assert(float_step(whole as nat) == 1);
        assert(step * 1 == step);
    }
    proof {
        lemma_next_multiple_fits(n as nat, step as nat);
    }
    let rest: u64 = n % step;
    let below: u128 = (whole as u128) * (step as u128);
    if 2 * rest > step || (2 * rest == step && whole % 2 == 1) {
        below + step as u128
    } else {
        below
    }
}

/// Appends a number of tenths with exactly one decimal place.
fn push_tenths_fixed(out: &mut String, tenths: u64)
    ensures
        final(out)@ == old(out)@ + tenths_fixed(tenths as nat),
{
    push_decimal(out, tenths / 10);
    out.push('.');
    out.push((48u8 + (tenths % 10) as u8) as char);
    assert(out@ =~= old(out)@ + tenths_fixed(tenths as nat));
}

/// Appends a number of tenths with one decimal place, or with none where the
/// decimal would be 0.
pub fn push_tenths_short(out: &mut String, tenths: u64)
    ensures
        final(out)@ == old(out)@ + tenths_short(tenths as nat),
{
    if tenths % 10 == 0 {
        push_decimal(out, tenths / 10);
    } else {
        push_tenths_fixed(out, tenths);
    }
}

/// Appends the short text for a size of `bytes` bytes.
pub fn push_size(out: &mut String, bytes: u64)
    ensures
        final(out)@ == old(out)@ + size_text(bytes as nat),
{
    if bytes < KIB {
        push_decimal(out, bytes);
        out.push('B');
    } else if bytes < MIB {
        push_decimal(out, (2 * bytes + KIB) / (2 * KIB));
        out.push('K');
    } else if bytes < GIB {
        push_decimal(out, (2 * bytes + MIB) / (2 * MIB));
        out.push('M');
    } else if bytes < TIB {
        if bytes >= 100 * GIB {
            push_decimal(out, (2 * bytes + GIB) / (2 * GIB));
        } else {
            push_tenths_short(out, (20 * bytes + GIB) / (2 * GIB));
        }
        out.push('G');
    } else {
        if bytes >= 100 * TIB {
            let units: u128 = (2 * nearest_float_of(bytes) + TIB as u128) / (2 * (TIB as u128));
            push_decimal(out, units as u64);
        } else {
            push_tenths_fixed(out, (20 * bytes + TIB) / (2 * TIB));
        }
        out.push('T');
    }
    assert(out@ =~= old(out)@ + size_text(bytes as nat));
}

/// The short text for a size of `bytes` bytes.
pub fn format_size(bytes: u64) -> (text: String)
    ensures
        text@ == size_text(bytes as nat),
{
    let mut text = String::new();
    push_size(&mut text, bytes);
    assert(Seq::<char>::empty() + size_text(bytes as nat) == size_text(bytes as nat));
    text
}

/// A percentage lies between 0 and 100.  A part that is no more than the
/// whole needs no clamping, and the whole itself, or more, makes 100.
pub proof fn lemma_percent_range(part: nat, whole: nat)
    ensures
        percent(part, whole) <= 100,
        whole == 0 ==> percent(part, whole) == 0,
        0 < whole && part <= whole ==> percent(part, whole) == rounded_ratio(100 * part, whole),
        0 < whole <= part ==> percent(part, whole) == 100,
{
    if whole > 0 {
        if part <= whole {
            assert((2 * (100 * part) + whole) / (2 * whole) <= 100) by (nonlinear_arith)
                requires
                    part <= whole,
                    whole > 0,
            ;
        }
        if part >= whole {
            assert((2 * (100 * part) + whole) / (2 * whole) >= 100) by (nonlinear_arith)
                requires
                    part >= whole,
                    whole > 0,
            ;
        }
    }
}

/// A larger part of the same whole never makes a lower percentage.
pub proof fn lemma_percent_rises(less: nat, more: nat, whole: nat)
    requires
        less <= more,
    ensures
        percent(less, whole) <= percent(more, whole),
{
    if whole > 0 {
        assert((2 * (100 * less) + whole) / (2 * whole) <= (2 * (100 * more) + whole) / (2 * whole))
            by (nonlinear_arith)
            requires
                less <= more,
                whole > 0,
        ;
    }
}

/// The share of `used` in `total` as a whole percentage.
///
/// The result is `used / total * 100` rounded to the nearest whole number,
/// never above 100, and 0 where `total` is 0.
pub fn percent_of(used: u64, total: u64) -> (p: u32)
    ensures
        p == percent(used as nat, total as nat),
        p <= 100,
        total == 0 ==> p == 0,
{
    if total == 0 {
        return 0;
    }
    let q: u128 = (200 * (used as u128) + total as u128) / (2 * (total as u128));
    if q > 100 {
        100
    } else {
        q as u32
    }
}

/// The ratio of `value` to `max` as a whole percentage, for bars that show a
/// frequency against its rated ceiling.
pub fn ratio_bar_percent(value: u64, max: u64) -> (p: u32)
    ensures
        p == percent(value as nat, max as nat),
        p <= 100,
        max == 0 ==> p == 0,
{
    percent_of(value, max)
}

/// The squared ratio of `value` to `max` as a whole percentage, for clock
/// indicators: squaring spreads the low and middle range over more tiers.
pub fn squared_ratio_percent(value: u32, max: u32) -> (p: u32)
    ensures
        p == squared_percent(value as nat, max as nat),
        p <= 100,
        max == 0 ==> p == 0,
{
    if max == 0 {
        return 0;
    }
    assert(0 < (max as nat) * (max as nat) <= 0xFFFF_FFFF * 0xFFFF_FFFF) by (nonlinear_arith)
        requires
            0 < max <= 0xFFFF_FFFF,
    ;
    assert((value as nat) * (value as nat) <= 0xFFFF_FFFF * 0xFFFF_FFFF) by (nonlinear_arith)
        requires
            value <= 0xFFFF_FFFF,
    ;
    percent_of((value as u64) * (value as u64), (max as u64) * (max as u64))
}

} // verus!
