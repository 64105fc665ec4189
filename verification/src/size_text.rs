//! File sizes as they are shown.

use crate::text;
use crate::text::u64_to_string;
use vstd::prelude::*;

verus! {

/// The bytes of a kilobyte.
pub const KB: u64 = 1024;

/// The bytes of a megabyte.
pub const MB: u64 = 1048576;

/// The bytes of a gigabyte.
pub const GB: u64 = 1073741824;

/// The least size that is no longer told apart from every other size: sizes
/// from here on are first taken to 53 binary digits.
pub const EXACT: u64 = 9007199254740992;

/// `n` divided by `d`, rounded to the nearest whole number; of two that are
/// equally near, the even one.
pub open spec fn divided(n: nat, d: nat) -> nat
    recommends
        d > 0,
{
    let q = n / d;
    let r = n % d;
    if 2 * r < d || (2 * r == d && q % 2 == 0) {
        q
    } else {
        q + 1
    }
}

/// The step between sizes near `n` that are told apart.
pub open spec fn step_at(n: nat) -> nat
    decreases n,
{
    if n < EXACT {
        1
    } else {
        2 * step_at(n / 2)
    }
}

/// The size as which `n` bytes are shown: `n` itself, or the nearest of the
/// sizes that are told apart.
pub open spec fn told_size(n: nat) -> nat {
    divided(n, step_at(n)) * step_at(n)
}

/// A number of tenths with one digit behind the point.
pub open spec fn tenths_text(t: nat) -> Seq<char> {
    text::decimal(t / 10) + "."@ + text::decimal(t % 10)
}

/// `bytes` in units of `unit` bytes, with one digit behind the point.
pub open spec fn in_units(bytes: nat, unit: nat, name: Seq<char>) -> Seq<char> {
    tenths_text(divided(told_size(bytes) * 10, unit)) + " "@ + name
}

/// How a file of so many bytes is shown.
pub open spec fn size_text(bytes: nat) -> Seq<char> {
    if bytes >= GB {
        in_units(bytes, GB as nat, "GB"@)
    } else if bytes >= MB {
        in_units(bytes, MB as nat, "MB"@)
    } else if bytes >= KB {
        in_units(bytes, KB as nat, "KB"@)
    } else {
        text::decimal(bytes) + " B"@
    }
}

fn divide(n: u128, d: u128) -> (r: u128)
    requires
        0 < d <= 0x1_0000_0000_0000_0000,
        n <= 0x100_0000_0000_0000_0000,
    ensures
        r == divided(n as nat, d as nat),
        r <= n / d + 1,
{
    let q: u128 = n / d;
    let rest: u128 = n % d;
    assert(q <= n) by (nonlinear_arith)
        requires
            q == n / d,
            d > 0,
    ;
    if 2 * rest < d || (2 * rest == d && q % 2 == 0) {
        q
    } else {
        q + 1
    }
}

proof fn lemma_step(n: nat)
    requires
        n <= u64::MAX,
    ensures
        n < EXACT ==> step_at(n) == 1,
        EXACT <= n ==> 2 <= step_at(n) <= 2048,
{
    reveal_with_fuel(step_at, 13);
}

fn find_step(n: u64) -> (r: u64)
    ensures
        r == step_at(n as nat),
        1 <= r <= 2048,
    decreases n,
{
    proof {
        lemma_step(n as nat);
    }
    if n < EXACT {
        1
    } else {
        proof {
            lemma_step((n / 2) as nat);
        }
        2 * find_step(n / 2)
    }
}

fn told(n: u64) -> (r: u128)
    ensures
        r == told_size(n as nat),
        r <= 0x1_0000_0000_0000_0800,
{
    let step: u64 = find_step(n);
    let q: u128 = divide(n as u128, step as u128);
    proof {
        assert(q * step <= n + step) by (nonlinear_arith)
            requires
                q <= n / step + 1,
                step >= 1,
        ;
        assert(0 <= q * step) by (nonlinear_arith)
            requires
                q >= 0,
                step >= 1,
        ;
    }
    q * step as u128
}

fn units(bytes: u64, unit: u64, name: &str) -> (r: String)
    requires
        unit >= 1024,
    ensures
        r@ == in_units(bytes as nat, unit as nat, name@),
{
    let size: u128 = told(bytes);
    let tenths: u128 = divide(size * 10, unit as u128);
    proof {
        assert((size * 10) / (unit as int) <= (size * 10) / 1024) by (nonlinear_arith)
            requires
                unit >= 1024,
                size >= 0,
        ;
    }
    let whole: u64 = (tenths / 10) as u64;
    let part: u64 = (tenths % 10) as u64;
    let mut r = u64_to_string(whole);
    r.append(".");
    r.append(u64_to_string(part).as_str());
    r.append(" ");
    r.append(name);
    r
}

/// Formats a file size in bytes into a human-readable string (KB, MB, GB).
pub fn format_file_size(bytes: u64) -> (r: String)
    ensures
        r@ == size_text(bytes as nat),
{
    if bytes >= GB {
        units(bytes, GB, "GB")
    } else if bytes >= MB {
        units(bytes, MB, "MB")
    } else if bytes >= KB {
        units(bytes, KB, "KB")
    } else {
        let mut r = u64_to_string(bytes);
        r.append(" B");
        r
    }
}

/// A size below eight petabytes is off by at most half of the last digit that
/// is shown.
pub proof fn law_shown_size_is_near(bytes: nat, unit: nat)
    requires
        bytes < EXACT,
        unit > 0,
    ensures
        ({
            let t = divided(told_size(bytes) * 10, unit);
            &&& 2 * t * unit <= 2 * bytes * 10 + unit
            &&& 2 * bytes * 10 <= 2 * t * unit + unit
        }),
{
    let step = step_at(bytes);
    assert(step == 1);
    assert(divided(bytes, step) == bytes);
    assert(bytes * step == bytes);
    let n = (bytes * 10) as int;
    let d = unit as int;
    let q = n / d;
    let r = n % d;
    assert(n == q * d + r && 0 <= r < d) by (nonlinear_arith)
        requires
            q == n / d,
            r == n % d,
            d > 0,
    ;
    let t = divided(bytes * 10, unit) as int;
    if t == q {
        assert(2 * t * d == 2 * (q * d)) by (nonlinear_arith)
            requires
                t == q,
        ;
    } else {
        assert(2 * t * d == 2 * (q * d) + 2 * d) by (nonlinear_arith)
            requires
                t == q + 1,
        ;
    }
}

proof fn lemma_divided_near(n: nat, d: nat)
    requires
        d > 0,
    ensures
        2 * (divided(n, d) * d) <= 2 * n + d,
        2 * n <= 2 * (divided(n, d) * d) + d,
{
    let q = (n / d) as int;
    let r = (n % d) as int;
    let t = divided(n, d) as int;
    assert(n == q * d + r && 0 <= r < d) by (nonlinear_arith)
        requires
            q == n as int / d as int,
            r == n as int % d as int,
            d > 0,
    ;
    if t != q {
        assert(t * d == q * d + d) by (nonlinear_arith)
            requires
                t == q + 1,
        ;
    }
}

/// A size below a kilobyte is shown in bytes as it is. Every other size is
/// shown in the largest unit that it reaches, in tenths of it, and is off by at
/// most half a tenth, and by the kilobyte to which sizes of petabytes are told
/// apart.
pub proof fn law_sizes_are_shown_in_their_unit(bytes: u64, r: String)
    requires
        call_ensures(format_file_size, (bytes,), r),
    ensures
        bytes < 1024 ==> r@ == text::decimal(bytes as nat) + " B"@,
        bytes >= 1024 ==> exists|t: nat, unit: nat, name: Seq<char>|
            {
                &&& r@ == #[trigger] (text::decimal(t / 10) + "."@ + text::decimal(t % 10) + " "@
                    + name)
                &&& unit == 1024 && name == "KB"@ && bytes < 1048576 || unit == 1048576 && name
                    == "MB"@ && 1048576 <= bytes < 1073741824 || unit == 1073741824 && name == "GB"@
                    && 1073741824 <= bytes
                &&& #[trigger] (2 * (t * unit)) <= 20 * bytes + unit + 20480
                &&& 20 * bytes <= 2 * (t * unit) + unit + 20480
            },
{
    let b = bytes as nat;
    let step = step_at(b);
    lemma_step(b);
    lemma_divided_near(b, step);
    let size = told_size(b);
    let unit: nat = if bytes >= GB {
        GB as nat
    } else if bytes >= MB {
        MB as nat
    } else {
        KB as nat
    };
    let name = if bytes >= GB {
        "GB"@
    } else if bytes >= MB {
        "MB"@
    } else {
        "KB"@
    };
    lemma_divided_near(size * 10, unit);
    let t = divided(size * 10, unit);
    if bytes >= 1024 {
        assert(r@ == text::decimal(t / 10) + "."@ + text::decimal(t % 10) + " "@ + name);
        assert(2 * (t * unit) <= 20 * bytes + unit + 20480);
    }
}

/// A size that lies halfway between two tenths is shown as the even one.
pub proof fn law_halves_are_shown_even(bytes: u64, r: String, t: nat)
    requires
        call_ensures(format_file_size, (bytes,), r),
        1024 <= bytes < 1048576,
        20 * bytes == 2 * (t * 1024) + 1024,
    ensures
        ({
            let even = if t % 2 == 0 {
                t
            } else {
                t + 1
            };
            r@ == text::decimal(even / 10) + "."@ + text::decimal(even % 10) + " "@ + "KB"@
        }),
{
    let b = bytes as nat;
    lemma_step(b);
    assert(divided(b, 1) == b);
    assert(told_size(b) == b);
    let n = b * 10;
    assert(n == t * 1024 + 512);
    assert(n / 1024 == t && n % 1024 == 512);
    let even: nat = if t % 2 == 0 {
        t
    } else {
        t + 1
    };
    assert(divided(told_size(b) * 10, KB as nat) == even);
}

} // verus!
