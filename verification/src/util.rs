//! Sizes, speeds and times as the window shows them.
use vstd::prelude::*;
use vstd::string::*;

use crate::text::decimal;

verus! {

/// `n / d`, rounded to the nearest whole number, and to the even one halfway between two.
pub open spec fn rounded_div(n: int, d: int) -> int {
    let q = n / d;
    let r = n % d;
    if 2 * r > d || (2 * r == d && q % 2 == 1) {
        q + 1
    } else {
        q
    }
}

/// The power of two a number is rounded to a multiple of when it is held to 53 binary digits:
/// the least that leaves no more digits than that.
pub open spec fn grain(n: int, unit: int) -> int
    decreases n - unit,
{
    if unit < 1 || n < 9007199254740992 * unit {
        unit
    } else {
        grain(n, 2 * unit)
    }
}

/// A byte count held to 53 binary digits, as sizes are worked out with.
pub open spec fn held(bytes: u64) -> int {
    let unit = grain(bytes as int, 1);
    rounded_div(bytes as int, unit) * unit
}

/// How many times over 1024 bytes a size is shown in.
pub open spec fn unit_size(size: int, unit: int, index: int) -> (int, int)
    decreases 4 - index,
{
    if index < 4 && size >= 1024 * unit {
        unit_size(size, 1024 * unit, index + 1)
    } else {
        (unit, index)
    }
}

/// The size of the unit a byte count is shown in, and which one that is: bytes, or multiples
/// of 1024 up to the fourth power.
pub open spec fn shown_in(bytes: u64) -> (int, int) {
    unit_size(held(bytes), 1, 0)
}

/// The binary units.
pub open spec fn iec_unit(index: int) -> Seq<char> {
    if index == 0 {
        "B"@
    } else if index == 1 {
        "KiB"@
    } else if index == 2 {
        "MiB"@
    } else if index == 3 {
        "GiB"@
    } else {
        "TiB"@
    }
}

/// The units by their decimal names.
pub open spec fn plain_unit(index: int) -> Seq<char> {
    if index == 0 {
        "B"@
    } else if index == 1 {
        "KB"@
    } else if index == 2 {
        "MB"@
    } else if index == 3 {
        "GB"@
    } else {
        "TB"@
    }
}

/// How many units `size` is, rounded to no, one or two decimals.
pub open spec fn amount_text(size: int, unit: int, decimals: int) -> Seq<char> {
    if decimals == 0 {
        crate::text::decimal_text(rounded_div(size, unit) as nat)
    } else if decimals == 1 {
        let tenths = rounded_div(size * 10, unit) as nat;
        crate::text::decimal_text(tenths / 10) + "."@ + crate::text::decimal_text(tenths % 10)
    } else {
        let hundredths = rounded_div(size * 100, unit) as nat;
        crate::text::decimal_text(hundredths / 100) + "."@ + crate::text::decimal_text(
            (hundredths % 100) / 10,
        ) + crate::text::decimal_text(hundredths % 10)
    }
}

/// A byte count as the window shows it: whole bytes, or tenths of a larger unit.
pub open spec fn size_text(bytes: u64) -> Seq<char> {
    let (unit, index) = shown_in(bytes);
    if index == 0 {
        crate::text::decimal_text(bytes as nat) + " "@ + iec_unit(0)
    } else {
        amount_text(held(bytes), unit, 1) + " "@ + iec_unit(index)
    }
}

/// A byte count under the decimal names of the units: whole bytes, or tenths of a larger unit.
pub open spec fn plain_size_text(bytes: u64) -> Seq<char> {
    let (unit, index) = shown_in(bytes);
    if index == 0 {
        crate::text::decimal_text(bytes as nat) + " "@ + plain_unit(0)
    } else {
        amount_text(held(bytes), unit, 1) + " "@ + plain_unit(index)
    }
}

/// A byte count under the decimal names of the units, to three digits where it has so many.
pub open spec fn fine_size_text(bytes: u64) -> Seq<char> {
    let (unit, index) = shown_in(bytes);
    let decimals: int = if index == 0 || held(bytes) >= 100 * unit {
        0
    } else if held(bytes) >= 10 * unit {
        1
    } else {
        2
    };
    amount_text(held(bytes), unit, decimals) + " "@ + plain_unit(index)
}

/// A speed: whole bytes, whole kilobytes, or tenths of a megabyte.
pub open spec fn speed_text(bytes: u64) -> Seq<char> {
    if bytes >= 1048576 {
        amount_text(held(bytes), 1048576, 1) + " MB/s"@
    } else if bytes >= 1024 {
        amount_text(held(bytes), 1024, 0) + " KB/s"@
    } else {
        crate::text::decimal_text(bytes as nat) + " B/s"@
    }
}

/// `n / d`, rounded to the nearest whole number, and to the even one halfway between two.
fn round_div(n: u128, d: u128) -> (q: u128)
    requires
        0 < d,
        n < 0x4000_0000_0000_0000_0000_0000_0000_0000,
        d < 0x4000_0000_0000_0000_0000_0000_0000_0000,
    ensures
        q == rounded_div(n as int, d as int),
        q <= n / d + 1,
{
    let q: u128 = n / d;
    let r: u128 = n % d;
    proof {
        assert(q <= n) by (nonlinear_arith)
            requires
                q == n / d,
                0 < d,
        ;
    }
    if 2 * r > d || (2 * r == d && q % 2 == 1) {
        q + 1
    } else {
        q
    }
}

proof fn grain_bounds(n: int, unit: int)
    requires
        0 <= n < 18446744073709551616,
        1 <= unit <= 4096,
    ensures
        unit <= grain(n, unit) <= 4096,
        n < 9007199254740992 * grain(n, unit),
    decreases 4096 - unit,
{
    if n >= 9007199254740992 * unit {
        assert(unit < 2048);
        grain_bounds(n, 2 * unit);
    }
}

proof fn small_numbers_are_held_exactly(bytes: u64)
    requires
        bytes < 9007199254740992,
    ensures
        held(bytes) == bytes,
{
    let n = bytes as int;
    assert(grain(n, 1) == 1);
    assert(n / 1 == n && n % 1 == 0);
    assert(rounded_div(n, 1) == n);
}

/// A byte count held to 53 binary digits.
fn hold(bytes: u64) -> (size: u128)
    ensures
        size == held(bytes),
        size <= 18446744073709559808,
        bytes < 9007199254740992 ==> size == bytes,
{
    let mut unit: u128 = 1;
    proof {
        grain_bounds(bytes as int, 1);
    }
    while bytes as u128 >= 9007199254740992 * unit
        invariant
            1 <= unit <= 4096,
            grain(bytes as int, unit as int) == grain(bytes as int, 1),
            grain(bytes as int, 1) <= 4096,
        decreases 4096 - unit,
    {
        assert(unit < 2048);
        unit = 2 * unit;
    }
    let q: u128 = round_div(bytes as u128, unit);
    proof {
        let n = bytes as int;
        let u = unit as int;
        assert(q * u <= n + u) by (nonlinear_arith)
            requires
                q <= n / u + 1,
                0 < u,
                0 <= n,
        {
            assert(n / u * u <= n);
        }
        if n < 9007199254740992 {
            small_numbers_are_held_exactly(bytes);
        }
    }
    q * unit
}

/// The size of the unit `size` is shown in, and which one that is.
fn pick_unit(size: u128) -> (unit: (u128, usize))
    ensures
        (unit.0 as int, unit.1 as int) == unit_size(size as int, 1, 0),
        1 <= unit.0 <= 1099511627776,
        unit.1 <= 4,
{
    let mut unit: u128 = 1;
    let mut index: usize = 0;
    while index < 4 && size >= 1024 * unit
        invariant
            index <= 4,
            unit >= 1,
            index == 0 ==> unit == 1,
            index == 1 ==> unit == 1024,
            index == 2 ==> unit == 1048576,
            index == 3 ==> unit == 1073741824,
            index == 4 ==> unit == 1099511627776,
            unit_size(size as int, unit as int, index as int) == unit_size(size as int, 1, 0),
        ensures
            index <= 4,
            1 <= unit <= 1099511627776,
            !(index < 4 && size >= 1024 * unit),
            unit_size(size as int, unit as int, index as int) == unit_size(size as int, 1, 0),
        decreases 4 - index,
    {
        unit = 1024 * unit;
        index += 1;
    }
    (unit, index)
}

/// The name of a binary unit.
fn unit_name(index: usize) -> (name: &'static str)
    ensures
        name@ == iec_unit(index as int),
{
    match index {
        0 => "B",
        1 => "KiB",
        2 => "MiB",
        3 => "GiB",
        _ => "TiB",
    }
}

/// The decimal name of a unit.
fn plain_unit_name(index: usize) -> (name: &'static str)
    ensures
        name@ == plain_unit(index as int),
{
    match index {
        0 => "B",
        1 => "KB",
        2 => "MB",
        3 => "GB",
        _ => "TB",
    }
}

/// How many units `size` is, rounded to no, one or two decimals.
fn amount(size: u128, unit: u128, decimals: u8) -> (text: String)
    requires
        size <= 18446744073709559808,
        1 <= unit <= 1099511627776,
        decimals <= 2,
        decimals > 0 ==> unit >= 1024,
        decimals == 0 && unit == 1 ==> size <= u64::MAX,
    ensures
        text@ == amount_text(size as int, unit as int, decimals as int),
{
    let scale: u128 = if decimals == 0 {
        1
    } else if decimals == 1 {
        10
    } else {
        100
    };
    let n: u128 = round_div(size * scale, unit);
    proof {
        parts_fit(size as int, unit as int, scale as int, n as int);
    }
    let n: u64 = n as u64;
    if decimals == 0 {
        decimal(n)
    } else if decimals == 1 {
        let mut text = decimal(n / 10);
        text.append(".");
        text.append(decimal(n % 10).as_str());
        text
    } else {
        let mut text = decimal(n / 100);
        text.append(".");
        text.append(decimal((n % 100) / 10).as_str());
        text.append(decimal(n % 10).as_str());
        text
    }
}

proof fn parts_fit(size: int, unit: int, scale: int, n: int)
    requires
        0 <= size <= 18446744073709559808,
        1 <= unit,
        1 <= scale <= 100,
        scale > 1 ==> unit >= 1024,
        scale == 1 && unit == 1 ==> size <= u64::MAX,
        n == rounded_div(size * scale, unit),
    ensures
        n <= u64::MAX,
{
    let total = size * scale;
    assert(0 <= total <= size * 100) by (nonlinear_arith)
        requires
            total == size * scale,
            0 <= size,
            1 <= scale <= 100,
    ;
    if unit == 1 {
        assert(scale == 1);
        assert(total == size) by (nonlinear_arith)
            requires
                total == size * scale,
                scale == 1,
        ;
        assert(total / 1 == total && total % 1 == 0);
    } else if scale == 1 {
        assert(total == size) by (nonlinear_arith)
            requires
                total == size * scale,
                scale == 1,
        ;
        assert(total / unit <= total / 2) by (nonlinear_arith)
            requires
                0 <= total,
                unit >= 2,
        ;
    } else {
        assert(total / unit <= total / 1024) by (nonlinear_arith)
            requires
                0 <= total,
                unit >= 1024,
        ;
    }
}

proof fn units_are_powers(size: int)
    ensures
        ({
            let (unit, index) = unit_size(size, 1, 0);
            &&& 0 <= index <= 4
            &&& index == 0 ==> unit == 1 && size < 1024
            &&& index > 0 ==> unit >= 1024 && size >= unit
        }),
{
    reveal_with_fuel(unit_size, 5);
}

/// Formats a byte count using binary (IEC) units: B, KiB, MiB, GiB, TiB.
///
/// The divisor is 1024, so the unit names match the math (`1 MiB` == 1048576
/// bytes). This is the single source of truth for size formatting across the UI.
pub fn format_size(bytes: u64) -> (text: String)
    ensures
        text@ == size_text(bytes),
{
    let size: u128 = hold(bytes);
    let (unit, index): (u128, usize) = pick_unit(size);
    proof {
        units_are_powers(size as int);
    }
    let mut text = if index == 0 {
        decimal(bytes)
    } else {
        amount(size, unit, 1)
    };
    text.append(" ");
    text.append(unit_name(index));
    text
}

/// Formats a byte count under the decimal names of the units: B, KB, MB, GB, TB.
pub fn fmt_bytes(bytes: u64) -> (text: String)
    ensures
        text@ == plain_size_text(bytes),
{
    let size: u128 = hold(bytes);
    let (unit, index): (u128, usize) = pick_unit(size);
    proof {
        units_are_powers(size as int);
    }
    let mut text = if index == 0 {
        decimal(bytes)
    } else {
        amount(size, unit, 1)
    };
    text.append(" ");
    text.append(plain_unit_name(index));
    text
}

/// Formats a byte count under the decimal names of the units, the fewer decimals the larger
/// the number before them.
pub fn fmt_fine(bytes: u64) -> (text: String)
    ensures
        text@ == fine_size_text(bytes),
{
    let size: u128 = hold(bytes);
    let (unit, index): (u128, usize) = pick_unit(size);
    proof {
        units_are_powers(size as int);
    }
    let decimals: u8 = if index == 0 || size >= 100 * unit {
        0
    } else if size >= 10 * unit {
        1
    } else {
        2
    };
    let mut text = amount(size, unit, decimals);
    text.append(" ");
    text.append(plain_unit_name(index));
    text
}

/// Formats a speed in bytes a second.
pub fn fmt_speed(bps: u64) -> (text: String)
    ensures
        text@ == speed_text(bps),
{
    let size: u128 = hold(bps);
    if bps >= 1048576 {
        let mut text = amount(size, 1048576, 1);
        text.append(" MB/s");
        text
    } else if bps >= 1024 {
        let mut text = amount(size, 1024, 0);
        text.append(" KB/s");
        text
    } else {
        let mut text = decimal(bps);
        text.append(" B/s");
        text
    }
}

/// A size below 1 KiB is shown to the byte, and a larger one in a unit of at least 1024
/// bytes that it holds at least once.
pub proof fn sizes_are_shown_in_a_unit_they_hold(bytes: u64)
    ensures
        bytes < 1024 ==> shown_in(bytes) == (1int, 0int),
        bytes >= 1024 ==> {
            let (unit, index) = shown_in(bytes);
            &&& 1 <= index <= 4
            &&& held(bytes) >= unit >= 1024
            &&& index < 4 ==> held(bytes) < 1024 * unit
        },
{
    reveal_with_fuel(unit_size, 5);
    if bytes < 9007199254740992 {
        small_numbers_are_held_exactly(bytes);
    } else {
        held_is_close(bytes);
    }
}

proof fn held_is_close(bytes: u64)
    ensures
        bytes - 2048 <= held(bytes) <= bytes + 2048,
{
    grain_bounds(bytes as int, 1);
    let n = bytes as int;
    let u = grain(n, 1);
    let q = n / u;
    let r = n % u;
    assert(n == q * u + r && 0 <= r < u) by (nonlinear_arith)
        requires
            q == n / u,
            r == n % u,
            0 < u,
    ;
    assert((q + 1) * u == q * u + u) by (nonlinear_arith);
}

/// Seconds as a time: two units, from seconds up to days.
pub open spec fn eta_text(seconds: nat) -> Seq<char> {
    let text = |n: nat| crate::text::decimal_text(n);
    if seconds < 60 {
        text(seconds) + "s"@
    } else if seconds < 3600 {
        text(seconds / 60) + "m "@ + text(seconds % 60) + "s"@
    } else if seconds < 86400 {
        text(seconds / 3600) + "h "@ + text((seconds % 3600) / 60) + "m"@
    } else {
        text(seconds / 86400) + "d "@ + text((seconds % 86400) / 3600) + "h"@
    }
}

/// Two numbers, each with what it counts.
fn two_counts(a: u64, a_unit: &str, b: u64, b_unit: &str) -> (text: String)
    ensures
        text@ == crate::text::decimal_text(a as nat) + a_unit@ + crate::text::decimal_text(
            b as nat,
        ) + b_unit@,
{
    let mut text = decimal(a);
    text.append(a_unit);
    let more = decimal(b);
    text.append(more.as_str());
    text.append(b_unit);
    text
}

/// How long a download will take at its present speed.
pub fn format_eta(downloaded: u64, total: u64, speed_down: u64) -> (text: String)
    ensures
        text@ == (if speed_down == 0 {
            "∞"@
        } else if downloaded >= total {
            "0s"@
        } else {
            eta_text(((total - downloaded) / speed_down as int) as nat)
        }),
{
    if speed_down == 0 {
        return "∞".to_owned();
    }
    if downloaded >= total {
        return "0s".to_owned();
    }
    let seconds: u64 = (total - downloaded) / speed_down;
    if seconds < 60 {
        let mut text = decimal(seconds);
        text.append("s");
        text
    } else if seconds < 3600 {
        two_counts(seconds / 60, "m ", seconds % 60, "s")
    } else if seconds < 86400 {
        two_counts(seconds / 3600, "h ", (seconds % 3600) / 60, "m")
    } else {
        two_counts(seconds / 86400, "d ", (seconds % 86400) / 3600, "h")
    }
}

/// Rounding goes to the nearest whole, and from the middle between two to the even one.
pub proof fn rounding_goes_to_the_nearest(n: int, d: int)
    requires
        0 <= n,
        0 < d,
    ensures
        2 * n - d <= 2 * (rounded_div(n, d) * d) <= 2 * n + d,
        2 * (rounded_div(n, d) * d) == 2 * n - d ==> rounded_div(n, d) % 2 == 0,
        2 * (rounded_div(n, d) * d) == 2 * n + d ==> rounded_div(n, d) % 2 == 0,
        rounded_div(n, d) >= 0,
{
    let q = n / d;
    let r = n % d;
    assert(n == q * d + r && 0 <= r < d && q >= 0) by (nonlinear_arith)
        requires
            q == n / d,
            r == n % d,
            0 < d,
            0 <= n,
    ;
    assert((q + 1) * d == q * d + d) by (nonlinear_arith);
}

proof fn rounded_near(n: int, unit: int) -> (near: nat)
    requires
        0 <= n,
        0 < unit,
    ensures
        near == rounded_div(n, unit),
        2 * n - unit <= 2 * (near * unit) <= 2 * n + unit,
{
    rounding_goes_to_the_nearest(n, unit);
    let near = rounded_div(n, unit) as nat;
    assert(near * unit == rounded_div(n, unit) * unit);
    near
}

/// An amount is written in its unit, rounded to as many decimals as asked for: the whole part, and
/// behind a point the digits of the rest.
#[verifier::spinoff_prover]
#[verifier::rlimit(40)]
pub proof fn amounts_are_written_rounded(size: int, unit: int) -> (near: (nat, nat, nat))
    requires
        0 <= size,
        0 < unit,
    ensures
        amount_text(size, unit, 0) == crate::text::decimal_text(near.0),
        2 * size - unit <= 2 * (near.0 * unit) <= 2 * size + unit,
        amount_text(size, unit, 1) == crate::text::decimal_text(near.1 / 10) + seq!['.']
            + crate::text::decimal_text(near.1 % 10),
        2 * (10 * size) - unit <= 2 * (near.1 * unit) <= 2 * (10 * size) + unit,
        amount_text(size, unit, 2) == crate::text::decimal_text(near.2 / 100) + seq!['.']
            + crate::text::decimal_text((near.2 / 10) % 10) + crate::text::decimal_text(
            near.2 % 10,
        ),
        2 * (100 * size) - unit <= 2 * (near.2 * unit) <= 2 * (100 * size) + unit,
{
    reveal_strlit(".");
    assert("."@ =~= seq!['.']);
    let a = rounded_near(size, unit);
    let b = rounded_near(size * 10, unit);
    let c = rounded_near(size * 100, unit);
    assert((c % 100) / 10 == (c / 10) % 10);
    assert(amount_text(size, unit, 0) == crate::text::decimal_text(a));
    assert(amount_text(size, unit, 1) == crate::text::decimal_text(b / 10) + "."@
        + crate::text::decimal_text(b % 10));
    assert(amount_text(size, unit, 2) == crate::text::decimal_text(c / 100) + "."@
        + crate::text::decimal_text((c % 100) / 10) + crate::text::decimal_text(c % 10));
    (a, b, c)
}

/// Sizes are written in the largest unit they reach, with one decimal above bytes: the number is
/// the size in that unit, rounded to tenths.
#[verifier::spinoff_prover]
#[verifier::rlimit(40)]
pub proof fn sizes_are_written_in_the_largest_unit(bytes: u64) -> (tenths: nat)
    requires
        bytes < 9007199254740992,
    ensures
        bytes < 1024 ==> size_text(bytes) == crate::text::decimal_text(bytes as nat) + " "@ + "B"@,
        bytes < 1024 ==> plain_size_text(bytes) == crate::text::decimal_text(bytes as nat) + " "@
            + "B"@,
        1024 <= bytes < 1048576 ==> size_text(bytes) == tenths_text(tenths) + " "@ + "KiB"@,
        1024 <= bytes < 1048576 ==> plain_size_text(bytes) == tenths_text(tenths) + " "@ + "KB"@,
        1024 <= bytes < 1048576 ==> 20 * bytes - 1024 <= 2048 * tenths <= 20 * bytes + 1024,
        1048576 <= bytes < 1073741824 ==> size_text(bytes) == tenths_text(tenths) + " "@ + "MiB"@,
        1048576 <= bytes < 1073741824 ==> plain_size_text(bytes) == tenths_text(tenths) + " "@
            + "MB"@,
        1048576 <= bytes < 1073741824 ==> 20 * bytes - 1048576 <= 2097152 * tenths <= 20 * bytes
            + 1048576,
        1073741824 <= bytes < 1099511627776 ==> size_text(bytes) == tenths_text(tenths) + " "@
            + "GiB"@,
        1073741824 <= bytes < 1099511627776 ==> plain_size_text(bytes) == tenths_text(tenths)
            + " "@ + "GB"@,
        1073741824 <= bytes < 1099511627776 ==> 20 * bytes - 1073741824 <= 2147483648 * tenths
            <= 20 * bytes + 1073741824,
        bytes >= 1099511627776 ==> size_text(bytes) == tenths_text(tenths) + " "@ + "TiB"@,
        bytes >= 1099511627776 ==> plain_size_text(bytes) == tenths_text(tenths) + " "@ + "TB"@,
        bytes >= 1099511627776 ==> 20 * bytes - 1099511627776 <= 2199023255552 * tenths <= 20
            * bytes + 1099511627776,
{
    reveal_with_fuel(unit_size, 5);
    small_numbers_are_held_exactly(bytes);
    let (unit, index) = shown_in(bytes);
    let near = amounts_are_written_rounded(bytes as int, unit);
    let tenths = near.1;
    assert(amount_text(bytes as int, unit, 1) =~= tenths_text(tenths));
    assert(unit == 1024 ==> tenths * unit == tenths * 1024);
    assert(unit == 1048576 ==> tenths * unit == tenths * 1048576);
    assert(unit == 1073741824 ==> tenths * unit == tenths * 1073741824);
    assert(unit == 1099511627776 ==> tenths * unit == tenths * 1099511627776);
    tenths
}

/// A number of tenths, written with its point.
pub open spec fn tenths_text(tenths: nat) -> Seq<char> {
    crate::text::decimal_text(tenths / 10) + seq!['.'] + crate::text::decimal_text(tenths % 10)
}

/// Fine sizes have three digits: two decimals below ten, one below a hundred, and none above, nor
/// in bytes.
#[verifier::spinoff_prover]
#[verifier::rlimit(40)]
pub proof fn fine_sizes_have_three_digits(bytes: u64)
    requires
        bytes < 9007199254740992,
    ensures
        bytes < 1024 ==> fine_size_text(bytes) == amount_text(bytes as int, 1, 0) + " "@ + "B"@,
        1024 <= bytes < 10240 ==> fine_size_text(bytes) == amount_text(bytes as int, 1024, 2)
            + " "@ + "KB"@,
        10240 <= bytes < 102400 ==> fine_size_text(bytes) == amount_text(bytes as int, 1024, 1)
            + " "@ + "KB"@,
        102400 <= bytes < 1048576 ==> fine_size_text(bytes) == amount_text(bytes as int, 1024, 0)
            + " "@ + "KB"@,
        1048576 <= bytes < 10485760 ==> fine_size_text(bytes) == amount_text(
            bytes as int,
            1048576,
            2,
        ) + " "@ + "MB"@,
        10485760 <= bytes < 104857600 ==> fine_size_text(bytes) == amount_text(
            bytes as int,
            1048576,
            1,
        ) + " "@ + "MB"@,
        104857600 <= bytes < 1073741824 ==> fine_size_text(bytes) == amount_text(
            bytes as int,
            1048576,
            0,
        ) + " "@ + "MB"@,
        1073741824 <= bytes < 10737418240 ==> fine_size_text(bytes) == amount_text(
            bytes as int,
            1073741824,
            2,
        ) + " "@ + "GB"@,
        10737418240 <= bytes < 107374182400 ==> fine_size_text(bytes) == amount_text(
            bytes as int,
            1073741824,
            1,
        ) + " "@ + "GB"@,
        107374182400 <= bytes < 1099511627776 ==> fine_size_text(bytes) == amount_text(
            bytes as int,
            1073741824,
            0,
        ) + " "@ + "GB"@,
        1099511627776 <= bytes < 10995116277760 ==> fine_size_text(bytes) == amount_text(
            bytes as int,
            1099511627776,
            2,
        ) + " "@ + "TB"@,
{
    reveal_with_fuel(unit_size, 5);
    small_numbers_are_held_exactly(bytes);
}

/// A size below 2 to the 53 is held exactly; a larger one is held as an even number that is never
/// further off than two kilobytes.
pub proof fn large_sizes_are_held_closely(bytes: u64)
    ensures
        bytes < 9007199254740992 ==> held(bytes) == bytes,
        bytes - 2048 <= held(bytes) <= bytes + 2048,
        bytes >= 9007199254740992 ==> held(bytes) % 2 == 0,
{
    held_is_close(bytes);
    if bytes < 9007199254740992 {
        small_numbers_are_held_exactly(bytes);
    } else {
        grain_doubles(bytes as int, 2);
        let u = grain(bytes as int, 1);
        let q = rounded_div(bytes as int, u);
        assert(u == grain(bytes as int, 2));
        let h = u / 2;
        assert(u == 2 * h);
        assert(q * u == 2 * (q * h)) by (nonlinear_arith)
            requires
                u == 2 * h,
        ;
    }
}

proof fn grain_doubles(n: int, unit: int)
    requires
        0 <= n < 18446744073709551616,
        2 <= unit <= 4096,
        unit % 2 == 0,
    ensures
        grain(n, unit) % 2 == 0,
    decreases 4096 - unit,
{
    if n >= 9007199254740992 * unit {
        grain_doubles(n, 2 * unit);
    }
}

/// Speeds are written in bytes below a kilobyte, in whole kilobytes below a megabyte and in
/// tenths of a megabyte above.
pub proof fn speeds_are_written_in_their_unit(bytes: u64) -> (near: (nat, nat))
    requires
        bytes < 9007199254740992,
    ensures
        bytes < 1024 ==> speed_text(bytes) == crate::text::decimal_text(bytes as nat) + " B/s"@,
        1024 <= bytes < 1048576 ==> speed_text(bytes) == crate::text::decimal_text(near.0)
            + " KB/s"@,
        1024 <= bytes < 1048576 ==> 2 * bytes - 1024 <= 2048 * near.0 <= 2 * bytes + 1024,
        1048576 <= bytes ==> speed_text(bytes) == tenths_text(near.1) + " MB/s"@,
        1048576 <= bytes ==> 20 * bytes - 1048576 <= 2097152 * near.1 <= 20 * bytes + 1048576,
{
    small_numbers_are_held_exactly(bytes);
    let kilo = amounts_are_written_rounded(bytes as int, 1024);
    let mega = amounts_are_written_rounded(bytes as int, 1048576);
    (kilo.0, mega.1)
}

/// A time is written in its two largest units: the days and hours, hours and minutes, minutes and
/// seconds that make it up, or the seconds alone below a minute.
pub proof fn times_are_written_in_two_units(d: nat, h: nat, m: nat, s: nat)
    requires
        h < 24,
        m < 60,
        s < 60,
    ensures
        eta_text(s) == crate::text::decimal_text(s) + seq!['s'],
        m > 0 ==> eta_text(60 * m + s) == crate::text::decimal_text(m) + seq!['m', ' ']
            + crate::text::decimal_text(s) + seq!['s'],
        h > 0 ==> eta_text(3600 * h + 60 * m + s) == crate::text::decimal_text(h) + seq!['h', ' ']
            + crate::text::decimal_text(m) + seq!['m'],
        d > 0 ==> eta_text(86400 * d + 3600 * h + 60 * m + s) == crate::text::decimal_text(d)
            + seq!['d', ' '] + crate::text::decimal_text(h) + seq!['h'],
{
    reveal_strlit("s");
    reveal_strlit("m");
    reveal_strlit("h");
    reveal_strlit("m ");
    reveal_strlit("h ");
    reveal_strlit("d ");
    assert("s"@ =~= seq!['s'] && "m"@ =~= seq!['m'] && "h"@ =~= seq!['h']);
    assert("m "@ =~= seq!['m', ' '] && "h "@ =~= seq!['h', ' '] && "d "@ =~= seq!['d', ' ']);
    let a = 60 * m + s;
    assert(a / 60 == m && a % 60 == s);
    let b = 3600 * h + 60 * m + s;
    assert(b / 3600 == h && (b % 3600) / 60 == m);
    let c = 86400 * d + 3600 * h + 60 * m + s;
    assert(c / 86400 == d && (c % 86400) / 3600 == h);
}

/// The time a download takes is what is missing divided by the speed, rounded down; nothing
/// missing takes none, and without speed it takes for ever.
pub proof fn the_time_a_download_takes(
    downloaded: u64,
    total: u64,
    speed_down: u64,
    text: String,
    seconds: nat,
)
    requires
        call_ensures(format_eta, (downloaded, total, speed_down), text),
    ensures
        speed_down == 0 ==> text@ == "∞"@,
        speed_down > 0 && downloaded >= total ==> text@ == "0s"@,
        speed_down > 0 && downloaded < total && seconds * speed_down <= total - downloaded && total
            - downloaded < (seconds + 1) * speed_down ==> text@ == eta_text(seconds),
{
    if speed_down > 0 && downloaded < total && seconds * speed_down <= total - downloaded && total
        - downloaded < (seconds + 1) * speed_down {
        let n = total - downloaded;
        let d = speed_down as int;
        assert(n / d == seconds) by (nonlinear_arith)
            requires
                d > 0,
                seconds * d <= n,
                n < (seconds + 1) * d,
        ;
    }
}

} // verus!
