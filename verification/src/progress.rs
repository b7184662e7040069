//! Progress accounting, and how it reads.

use vstd::prelude::*;

use crate::text;

verus! {

/// One look at a running transfer.
#[derive(Debug, Clone, Copy, PartialEq, Eq, Structural)]
pub struct ProgressSnapshot {
    pub downloaded: u64,
    pub total: Option<u64>,
    /// Smoothed transfer rate in bytes per second, as the bits of a double.
    pub speed_bits: u64,
    /// Segments currently streaming.
    pub active_connections: u32,
    /// Total segments, including finished ones.
    pub segments: u32,
    pub eta_secs: Option<u64>,
    pub elapsed_ms: u64,
}

/// `n / d`, rounded to the nearest integer, halves to the even one.
pub open spec fn round_even(n: nat, d: nat) -> nat {
    let q = n / d;
    let r = n % d;
    if 2 * r > d || (2 * r == d && q % 2 == 1) {
        q + 1
    } else {
        q
    }
}

/// The distance between neighbouring doubles around `n`, for an `n` of at least
/// one.
pub open spec fn double_step(n: nat) -> nat
    decreases n,
{
    if n < 0x20_0000_0000_0000 {
        1
    } else {
        2 * double_step(n / 2)
    }
}

/// The double nearest to `n`.
pub open spec fn nearest_double(n: nat) -> nat {
    round_even(n, double_step(n)) * double_step(n)
}

/// The binary unit a count is given in: its size and its name.
pub open spec fn unit_of(value: nat) -> (nat, Seq<char>) {
    if value < 0x400 {
        (1, "B"@)
    } else if value < 0x10_0000 {
        (0x400, "KiB"@)
    } else if value < 0x4000_0000 {
        (0x10_0000, "MiB"@)
    } else if value < 0x100_0000_0000 {
        (0x4000_0000, "GiB"@)
    } else if value < 0x4_0000_0000_0000 {
        (0x100_0000_0000, "TiB"@)
    } else {
        (0x4_0000_0000_0000, "PiB"@)
    }
}

/// A byte count as it is shown: whole bytes below a kibibyte, otherwise two
/// decimals of the unit, computed from the nearest double.
pub open spec fn bytes_text(bytes: nat) -> Seq<char> {
    let value = nearest_double(bytes);
    let (size, name) = unit_of(value);
    if size == 1 {
        text::decimal(bytes) + " "@ + name
    } else {
        let hundredths = round_even(100 * value, size);
        text::decimal(hundredths / 100) + "."@ + text::two_digits(hundredths % 100) + " "@ + name
    }
}

proof fn lemma_double_step(n: nat)
    ensures
        double_step(n) >= 1,
        n >= 0x20_0000_0000_0000 ==> double_step(n) <= n / 0x10_0000_0000_0000,
    decreases n,
{
    if n >= 0x20_0000_0000_0000 {
        lemma_double_step(n / 2);
    }
}

fn double_step_of(n: u64) -> (r: u64)
    ensures
        r == double_step(n as nat),
        1 <= r <= 4096,
    decreases n,
{
    proof {
        lemma_double_step(n as nat);
        if n >= 0x20_0000_0000_0000 {
            lemma_double_step((n / 2) as nat);
        }
    }
    if n < 0x20_0000_0000_0000 {
        1
    } else {
        2 * double_step_of(n / 2)
    }
}

fn round_even_of(n: u128, d: u128) -> (r: u128)
    requires
        0 < d <= 0x1_0000_0000_0000_0000,
        n <= 0x1_0000_0000_0000_0000_0000_0000,
    ensures
        r == round_even(n as nat, d as nat),
        r <= n + 1,
{
    let q: u128 = n / d;
    let rest: u128 = n % d;
    assert(q <= n && rest < d) by (nonlinear_arith)
        requires
            q == n / d,
            rest == n % d,
            d > 0,
    ;
    if 2 * rest > d || (2 * rest == d && q % 2 == 1) {
        q + 1
    } else {
        q
    }
}

fn unit_of_value(value: u128) -> (r: (u128, &'static str))
    ensures
        (r.0 as nat, r.1@) == unit_of(value as nat),
        1 <= r.0 <= 0x4_0000_0000_0000,
{
    if value < 0x400 {
        (1, "B")
    } else if value < 0x10_0000 {
        (0x400, "KiB")
    } else if value < 0x4000_0000 {
        (0x10_0000, "MiB")
    } else if value < 0x100_0000_0000 {
        (0x4000_0000, "GiB")
    } else if value < 0x4_0000_0000_0000 {
        (0x100_0000_0000, "TiB")
    } else {
        (0x4_0000_0000_0000, "PiB")
    }
}

/// A rounded quotient is at most one more than any bound on the exact one.
proof fn lemma_round_even_bound(n: nat, d: nat, limit: nat)
    requires
        d > 0,
        n <= limit * d,
    ensures
        round_even(n, d) <= limit + 1,
{
    assert(n / d <= limit) by (nonlinear_arith)
        requires
            d > 0,
            n <= limit * d,
    ;
}

/// Human-readable byte count, e.g. `1.43 GiB`.
pub fn format_bytes(bytes: u64) -> (r: String)
    ensures
        r@ == bytes_text(bytes as nat),
{
    let step: u128 = double_step_of(bytes) as u128;
    let rounded: u128 = round_even_of(bytes as u128, step);
    assert(rounded * step <= 0x1_0000_0000_0000_0000 * 4096 + 4096) by (nonlinear_arith)
        requires
            rounded <= 0x1_0000_0000_0000_0000,
            1 <= step <= 4096,
    ;
    let value: u128 = rounded * step;
    assert(value == nearest_double(bytes as nat));
    let (size, name) = unit_of_value(value);
    if size == 1 {
        let mut out = text::decimal_of(bytes);
        out.append(" ");
        out.append(name);
        return out;
    }
    let hundredths: u128 = round_even_of(100 * value, size);
    proof {
        // Below the largest unit there are at most 102,400 hundredths; in it the
        // value is below 2^77, which is far less than 2^62 units.
        assert(100 * value <= 0x4000_0000_0000_0000nat * size) by {
            assert(size >= 0x400);
            if size == 0x4_0000_0000_0000 {
                assert(value <= 0x1_0000_0000_0000_0000 * 4096 + 4096);
            }
        }
        lemma_round_even_bound((100 * value) as nat, size as nat, 0x4000_0000_0000_0000);
    }
    let h: u64 = hundredths as u64;
    let mut out = text::decimal_of(h / 100);
    out.append(".");
    out.append(text::two_digits_of(h % 100).as_str());
    out.append(" ");
    out.append(name);
    out
}

/// A transfer rate in whole bytes per second, e.g. `1.43 GiB/s`.
pub fn format_speed(bytes_per_second: u64) -> (r: String)
    ensures
        r@ == bytes_text(bytes_per_second as nat) + "/s"@,
{
    let mut out = format_bytes(bytes_per_second);
    out.append("/s");
    out
}

/// A duration in seconds as it is shown, leaving out the leading zeros.
pub open spec fn duration_text(secs: nat) -> Seq<char> {
    let h = secs / 3600;
    let m = (secs % 3600) / 60;
    let s = secs % 60;
    if h > 0 {
        text::decimal(h) + "h "@ + text::two_digits(m) + "m "@ + text::two_digits(s) + "s"@
    } else if m > 0 {
        text::decimal(m) + "m "@ + text::two_digits(s) + "s"@
    } else {
        text::decimal(s) + "s"@
    }
}

pub fn format_duration(secs: u64) -> (r: String)
    ensures
        r@ == duration_text(secs as nat),
{
    let h: u64 = secs / 3600;
    let m: u64 = (secs % 3600) / 60;
    let s: u64 = secs % 60;
    if h > 0 {
        let mut out = text::decimal_of(h);
        out.append("h ");
        out.append(text::two_digits_of(m).as_str());
        out.append("m ");
        out.append(text::two_digits_of(s).as_str());
        out.append("s");
        out
    } else if m > 0 {
        let mut out = text::decimal_of(m);
        out.append("m ");
        out.append(text::two_digits_of(s).as_str());
        out.append("s");
        out
    } else {
        let mut out = text::decimal_of(s);
        out.append("s");
        out
    }
}

/// A rounded quotient is as near to the exact one as a whole number can be, and is it
/// where that is whole.
pub proof fn law_rounding_goes_to_the_nearest(n: nat, d: nat, k: nat)
    requires
        d > 0,
    ensures
        -(d as int) <= 2 * (round_even(n, d) * d - n) <= d,
        round_even(k * d, d) == k,
{
    let q = n / d;
    let r = n % d;
    assert(n == q * d + r && 0 <= r < d) by (nonlinear_arith)
        requires
            q == n / d,
            r == n % d,
            d > 0,
    ;
    assert((q + 1) * d == q * d + d) by (nonlinear_arith);
    assert((k * d) / d == k && (k * d) % d == 0) by (nonlinear_arith)
        requires
            d > 0,
    ;
}

/// Counts below a kibibyte are shown exactly, and whole kibibytes, mebibytes and
/// gibibytes as such.
pub proof fn law_whole_units_are_shown_as_such(k: nat)
    requires
        1 <= k < 1024,
    ensures
        bytes_text(k) == text::decimal(k) + " "@ + "B"@,
        bytes_text(0) == text::decimal(0) + " "@ + "B"@,
        bytes_text(k * 0x400) == text::decimal(k) + "."@ + text::two_digits(0) + " "@ + "KiB"@,
        bytes_text(k * 0x10_0000) == text::decimal(k) + "."@ + text::two_digits(0) + " "@ + "MiB"@,
        bytes_text(k * 0x4000_0000) == text::decimal(k) + "."@ + text::two_digits(0) + " "@
            + "GiB"@,
{
    law_rounding_goes_to_the_nearest(0, 1, 0);
    law_rounding_goes_to_the_nearest(0, 1, k);
    law_rounding_goes_to_the_nearest(0, 1, k * 0x400);
    law_rounding_goes_to_the_nearest(0, 1, k * 0x10_0000);
    law_rounding_goes_to_the_nearest(0, 1, k * 0x4000_0000);
    assert(nearest_double(k) == k && nearest_double(0) == 0);
    assert(nearest_double(k * 0x400) == k * 0x400);
    assert(nearest_double(k * 0x10_0000) == k * 0x10_0000);
    assert(nearest_double(k * 0x4000_0000) == k * 0x4000_0000);
    law_rounding_goes_to_the_nearest(0, 0x400, 100 * k);
    law_rounding_goes_to_the_nearest(0, 0x10_0000, 100 * k);
    law_rounding_goes_to_the_nearest(0, 0x4000_0000, 100 * k);
}

/// A duration is shown as its hours, minutes and seconds, without leading zeros.
pub proof fn law_a_duration_is_shown_in_parts(h: nat, m: nat, s: nat)
    requires
        m < 60,
        s < 60,
    ensures
        h > 0 ==> duration_text(h * 3600 + m * 60 + s) == text::decimal(h) + "h "@
            + text::two_digits(m) + "m "@ + text::two_digits(s) + "s"@,
        h == 0 && m > 0 ==> duration_text(h * 3600 + m * 60 + s) == text::decimal(m) + "m "@
            + text::two_digits(s) + "s"@,
        duration_text(s) == text::decimal(s) + "s"@,
{
    let secs = h * 3600 + m * 60 + s;
    assert(secs / 3600 == h && (secs % 3600) / 60 == m && secs % 60 == s);
}

} // verus!
