//! How sizes, times and extensions are written.

use crate::text;
use crate::text::{
    a_number_reads_back, a_padded_number_reads_back, all_digits, decimal, digit, padded, value_of,
};
use vstd::prelude::*;
use vstd::utf8::{encode_utf8, is_char_boundary};

verus! {

/// The most bytes that an extension has, its dot among them.
pub const LONGEST_EXTENSION: usize = 12;

/// Whether byte `at` is the last dot.
pub open spec fn is_last_dot(name: Seq<u8>, at: int) -> bool {
    &&& 0 <= at < name.len()
    &&& name[at] == 46
    &&& forall|i: int| at < i < name.len() ==> name[i] != 46
}

/// Whether an extension worth keeping begins at byte `at`: after the last dot, which does not
/// come first, there is something, and not too much of it.
pub open spec fn extends_at(name: Seq<u8>, at: int) -> bool {
    &&& is_last_dot(name, at)
    &&& 0 < at < name.len() - 1
    &&& name.len() - at <= LONGEST_EXTENSION
}

/// Byte offset at which a file name's extension begins, if it has one worth keeping. A leading
/// dot is no extension, and a very long one is part of the name.
pub fn extension_start(name: &str) -> (result: Option<usize>)
    ensures
        match result {
            Some(at) => extends_at(encode_utf8(name@), at as int) && at < usize::MAX,
            None => forall|at: int| !(#[trigger] extends_at(encode_utf8(name@), at)),
        },
{
    let bytes: &[u8] = name.as_bytes();
    let len: usize = bytes.len();
    let mut i: usize = len;
    while i > 0
        invariant
            i <= len,
            len == bytes@.len(),
            bytes@ == encode_utf8(name@),
            forall|j: int| i <= j < len ==> bytes@[j] != 46,
        decreases i,
    {
        i = i - 1;
        if bytes[i] == 46 {
            assert(is_last_dot(bytes@, i as int));
            if i == 0 || i + 1 >= len || len - i > LONGEST_EXTENSION {
                return None;
            }
            return Some(i);
        }
    }
    None
}

/// A name has at most one extension.
pub proof fn an_extension_is_unique(name: Seq<u8>, a: int, b: int)
    requires
        extends_at(name, a),
        extends_at(name, b),
    ensures
        a == b,
{
}

/// What comes after a dot that is not the last byte starts a character.
pub(crate) proof fn lemma_after_a_dot(text: Seq<char>, at: int)
    requires
        0 <= at < encode_utf8(text).len() - 1,
        encode_utf8(text)[at] == 46,
    ensures
        is_char_boundary(encode_utf8(text), at + 1),
{
    let bytes = encode_utf8(text);
    vstd::utf8::encode_utf8_valid_utf8(text);
    vstd::utf8::is_char_boundary_iff_is_leading_byte(bytes, at);
    vstd::utf8::utf8_byte_ranges_bitwise(bytes[at]);
    assert(vstd::utf8::is_leading_byte_width_1(46u8)) by {
        assert(0u8 <= 46u8 && 46u8 <= 0x7fu8);
    }
    vstd::utf8::valid_utf8_split(bytes, at);
    lemma_a_short_character(bytes, at);
}

proof fn lemma_a_short_character(bytes: Seq<u8>, at: int)
    requires
        0 <= at < bytes.len() - 1,
        vstd::utf8::valid_utf8(bytes),
        is_char_boundary(bytes, at),
        vstd::utf8::is_leading_byte_width_1(bytes[at]),
    ensures
        is_char_boundary(bytes, at + 1),
    decreases bytes.len(),
{
    if at == 0 {
        let rest = vstd::utf8::pop_first_scalar(bytes);
        assert(vstd::utf8::length_of_first_scalar(bytes) == 1);
        assert(rest =~= bytes.skip(1));
        reveal_with_fuel(is_char_boundary, 3);
    } else {
        let n = vstd::utf8::length_of_first_scalar(bytes);
        let rest = vstd::utf8::pop_first_scalar(bytes);
        assert(rest[at - n] == bytes[at]);
        lemma_a_short_character(rest, at - n);
    }
}

/// What a file name's extension says, without its dot.
pub open spec fn extension_text(name: Seq<char>, ext: Seq<char>) -> bool {
    exists|at: int| #[trigger]
        extends_at(encode_utf8(name), at) && encode_utf8(ext) == encode_utf8(name).skip(at + 1)
}

/// What a file name's extension says, without its dot, as it is written.
pub fn extension(name: &str) -> (result: Option<&str>)
    ensures
        match result {
            Some(ext) => extension_text(name@, ext@) && encode_utf8(ext@).len() > 0,
            None => forall|at: int| !(#[trigger] extends_at(encode_utf8(name@), at)),
        },
{
    match extension_start(name) {
        None => None,
        Some(dot) => {
            proof {
                lemma_after_a_dot(name@, dot as int);
            }
            let (_, ext): (&str, &str) = name.split_at(dot + 1);
            assert(extends_at(encode_utf8(name@), dot as int));
            Some(ext)
        },
    }
}

/// The gap between neighbouring 53-bit floating-point numbers around `n`.
pub open spec fn float_gap(n: nat) -> nat
    decreases n,
{
    if n < 0x20_0000_0000_0000 {
        1
    } else {
        2 * float_gap(n / 2)
    }
}

/// `n` divided by `d` to the nearest whole number, a tie going to the even one.
pub open spec fn nearest(n: nat, d: nat) -> nat {
    let q = n / d;
    let twice = 2 * (n % d);
    if twice > d || (twice == d && q % 2 == 1) {
        q + 1
    } else {
        q
    }
}

/// The 53-bit floating-point number nearest to `n`.
pub open spec fn as_float(n: nat) -> nat {
    nearest(n, float_gap(n)) * float_gap(n)
}

/// How many times a value can be divided by 1024 before it is under 1024, up to `left` times.
pub open spec fn unit_steps(value: nat, size: nat, left: nat) -> nat
    decreases left,
{
    if left == 0 || value < 1024 * size {
        0
    } else {
        1 + unit_steps(value, 1024 * size, (left - 1) as nat)
    }
}

/// 1024 to the power of `steps`.
pub open spec fn unit_size(steps: nat) -> nat
    decreases steps,
{
    if steps == 0 {
        1
    } else {
        1024 * unit_size((steps - 1) as nat)
    }
}

/// What a unit is called, with a space before it.
pub open spec fn unit_name(steps: nat) -> Seq<char> {
    if steps == 1 {
        " KB"@
    } else if steps == 2 {
        " MB"@
    } else if steps == 3 {
        " GB"@
    } else if steps == 4 {
        " TB"@
    } else if steps == 5 {
        " PB"@
    } else {
        " EB"@
    }
}

/// A number of tenths, with one decimal.
pub open spec fn in_tenths(tenths: nat) -> Seq<char> {
    decimal(tenths / 10) + "."@ + decimal(tenths % 10)
}

/// A byte count as it is shown: whole bytes under 1024, and above that one decimal of the
/// largest unit that it reaches.
pub open spec fn size_text(bytes: u64) -> Seq<char> {
    if bytes < 1024 {
        decimal(bytes as nat) + " B"@
    } else {
        let value = as_float(bytes as nat);
        let steps = unit_steps(value, 1, 6);
        in_tenths(nearest(10 * value, unit_size(steps))) + unit_name(steps)
    }
}

/// `n` divided by `d` to the nearest whole number, a tie going to the even one.
fn round_div(n: u128, d: u128) -> (result: u128)
    requires
        0 < d <= 0x1000_0000_0000_0000,
        n <= 0x1000_0000_0000_0000_0000,
    ensures
        result == nearest(n as nat, d as nat),
        n / d <= result <= n / d + 1,
{
    let q: u128 = n / d;
    assert(q <= n) by (nonlinear_arith)
        requires
            q == n / d,
            d > 0,
    ;
    let twice: u128 = 2 * (n % d);
    if twice > d || (twice == d && q % 2 == 1) {
        q + 1
    } else {
        q
    }
}

/// The 53-bit floating-point number nearest to `bytes`.
fn to_float(bytes: u64) -> (result: u128)
    ensures
        result == as_float(bytes as nat),
        result <= bytes + 4096,
        bytes >= 1024 ==> result >= 1024,
{
    let mut gap: u128 = 1;
    let mut left: u64 = bytes;
    while left >= 0x20_0000_0000_0000
        invariant
            gap * float_gap(left as nat) == float_gap(bytes as nat),
            1 <= gap <= 4096,
            left * gap <= bytes,
            bytes < 0x20_0000_0000_0000 ==> gap == 1,
        decreases left,
    {
        proof {
            let half = left as nat / 2;
            assert(gap * (2 * float_gap(half)) == (2 * gap) * float_gap(half)) by (nonlinear_arith);
            assert(half * (2 * gap) <= left * gap) by (nonlinear_arith)
                requires
                    2 * half <= left,
                    gap >= 1,
            ;
            assert(gap <= 2048) by (nonlinear_arith)
                requires
                    left * gap <= bytes,
                    left >= 0x20_0000_0000_0000,
                    bytes <= 0xffff_ffff_ffff_ffff,
            ;
            assert(left <= bytes) by (nonlinear_arith)
                requires
                    left * gap <= bytes,
                    gap >= 1,
            ;
        }
        gap = gap * 2;
        left = left / 2;
    }
    assert(gap == float_gap(bytes as nat)) by {
        assert(float_gap(left as nat) == 1);
        assert(gap * 1 == gap);
    }
    let q: u128 = round_div(bytes as u128, gap);
    proof {
        let n = bytes as int;
        let g = gap as int;
        assert((n / g) * g <= n < (n / g + 1) * g) by (nonlinear_arith)
            requires
                g > 0,
        ;
        assert((n / g) * g <= q * g <= (n / g + 1) * g) by (nonlinear_arith)
            requires
                n / g <= q <= n / g + 1,
                g > 0,
        ;
        assert((n / g + 1) * g == (n / g) * g + g) by (nonlinear_arith);
        if bytes < 0x20_0000_0000_0000 {
            assert(n / 1 == n);
        }
    }
    q * gap
}

/// A byte count for a reader, with one decimal above 1024 bytes so that a column of them never
/// reflows.
pub fn format_size(bytes: u64) -> (result: String)
    ensures
        result@ == size_text(bytes),
{
    if bytes < 1024 {
        let mut out: String = text::write_decimal(bytes);
        out.append(" B");
        return out;
    }
    let value: u128 = to_float(bytes);
    let mut size: u128 = 1;
    let mut steps: u64 = 0;
    while steps < 6 && value >= 1024 * size
        invariant
            steps <= 6,
            size == unit_size(steps as nat),
            1 <= size <= 0x1000_0000_0000_0000,
            steps <= 5 ==> size <= 0x4_0000_0000_0000,
            steps <= 4 ==> size <= 0x100_0000_0000,
            steps <= 3 ==> size <= 0x4000_0000,
            steps <= 2 ==> size <= 0x10_0000,
            steps <= 1 ==> size <= 0x400,
            steps == 0 ==> size == 1,
            steps >= 1 ==> size >= 1024,
            unit_steps(value as nat, 1, 6) == steps + unit_steps(
                value as nat,
                size as nat,
                (6 - steps) as nat,
            ),
        decreases 6 - steps,
    {
        size = size * 1024;
        steps = steps + 1;
    }
    assert(steps >= 1);
    let tenths: u128 = round_div(10 * value, size);
    proof {
        let v = 10 * value;
        assert(v / size as int <= v / 1024) by (nonlinear_arith)
            requires
                size >= 1024,
                v >= 0,
        ;
    }
    let mut out: String = text::write_decimal((tenths / 10) as u64);
    out.append(".");
    out.append(text::write_decimal((tenths % 10) as u64).as_str());
    if steps == 1 {
        out.append(" KB");
    } else if steps == 2 {
        out.append(" MB");
    } else if steps == 3 {
        out.append(" GB");
    } else if steps == 4 {
        out.append(" TB");
    } else if steps == 5 {
        out.append(" PB");
    } else {
        out.append(" EB");
    }
    out
}

/// The letters of the units above the byte.
pub open spec fn unit_letters() -> Seq<char> {
    seq!['K', 'M', 'G', 'T', 'P', 'E']
}

/// Whether `text` says `shown` tenths of the unit that is 1024 to the power of `steps` bytes.
pub open spec fn says_tenths(text: Seq<char>, shown: nat, steps: nat) -> bool {
    &&& 1 <= steps <= 6
    &&& text.len() >= 6
    &&& text[text.len() - 1] == 'B'
    &&& text[text.len() - 2] == unit_letters()[steps - 1]
    &&& text[text.len() - 3] == ' '
    &&& '0' <= text[text.len() - 4] <= '9'
    &&& text[text.len() - 5] == '.'
    &&& all_digits(text.take(text.len() - 5))
    &&& shown == 10 * value_of(text.take(text.len() - 5)) + (text[text.len() - 4] as int - '0' as int)
}

/// What is written of a size reads back. Under 1024 bytes it is the number of bytes. Above that it is
/// a number of tenths of the largest unit that the size reaches, and no number of tenths is nearer,
/// but for the few bytes by which a floating-point number of that size is off.
pub proof fn a_size_reads_back(bytes: u64)
    ensures
        bytes < 1024 ==> {
            let text = size_text(bytes);
            let n = text.len() - 2;
            &&& n >= 1
            &&& text[n] == ' '
            &&& text[n + 1] == 'B'
            &&& all_digits(text.take(n))
            &&& value_of(text.take(n)) == bytes
        },
        bytes >= 1024 ==> exists|shown: nat, steps: nat|
            {
                let unit = vstd::arithmetic::power::pow(1024, steps);
                let slip = if bytes < 0x20_0000_0000_0000 {
                    0int
                } else {
                    40_950
                };
                &&& #[trigger] says_tenths(size_text(bytes), shown, steps)
                &&& unit <= bytes + slip
                &&& steps < 6 ==> bytes < 1024 * unit + slip
                &&& -unit - slip <= 2 * shown * unit - 20 * bytes <= unit + slip
            },
{
    reveal_strlit(" B");
    if bytes < 1024 {
        a_number_reads_back(bytes as nat);
        let text = size_text(bytes);
        assert(text.take(text.len() - 2) =~= decimal(bytes as nat));
    } else {
        let value = as_float(bytes as nat);
        let steps = unit_steps(value, 1, 6);
        let unit = unit_size(steps);
        let shown = nearest(10 * value, unit);
        lemma_floats_are_near(bytes as nat);
        lemma_unit_steps(value, 0, 6);
        lemma_units_are_powers(steps);
        lemma_units_are_powers(1);
        assert(unit_size(0) == 1);
        assert(unit_size(1) == 1024 * unit_size(0));
        if steps == 0 {
            assert(value < 1024 * unit_size(0));
        }
        lemma_nearest(10 * value, unit);
        lemma_says_tenths(shown, steps);
        assert(2 * shown * unit == 2 * (shown * unit)) by (nonlinear_arith);
        assert(says_tenths(size_text(bytes), shown, steps));
    }
}

proof fn lemma_says_tenths(shown: nat, steps: nat)
    requires
        1 <= steps <= 6,
    ensures
        says_tenths(in_tenths(shown) + unit_name(steps), shown, steps),
{
    reveal_strlit(".");
    reveal_strlit(" KB");
    reveal_strlit(" MB");
    reveal_strlit(" GB");
    reveal_strlit(" TB");
    reveal_strlit(" PB");
    reveal_strlit(" EB");
    let text = in_tenths(shown) + unit_name(steps);
    a_number_reads_back(shown / 10);
    assert(decimal(shown % 10) == seq![digit(shown % 10)]);
    assert(unit_name(steps).len() == 3);
    assert(text.take(text.len() - 5) =~= decimal(shown / 10));
    assert(text[text.len() - 4] == digit(shown % 10));
}

proof fn lemma_nearest(n: nat, d: nat)
    requires
        d > 0,
    ensures
        -(d as int) <= 2 * (nearest(n, d) * d) - 2 * n <= d,
{
    let q = n / d;
    assert(n == d * q + n % d && 0 <= n % d < d) by {
        vstd::arithmetic::div_mod::lemma_fundamental_div_mod(n as int, d as int);
        vstd::arithmetic::div_mod::lemma_mod_bound(n as int, d as int);
    }
    assert((q + 1) * d == d * q + d) by (nonlinear_arith);
    assert(q * d == d * q) by (nonlinear_arith);
}

proof fn lemma_gaps(n: nat)
    ensures
        float_gap(n) >= 1,
        n < 0x20_0000_0000_0000 ==> float_gap(n) == 1,
        n >= 0x20_0000_0000_0000 ==> float_gap(n) * 0x10_0000_0000_0000 <= n,
    decreases n,
{
    if n >= 0x20_0000_0000_0000 {
        lemma_gaps(n / 2);
    }
}

proof fn lemma_floats_are_near(n: nat)
    requires
        n <= u64::MAX,
    ensures
        n < 0x20_0000_0000_0000 ==> as_float(n) == n,
        -4_095 <= 2 * as_float(n) - 2 * n <= 4_095,
{
    lemma_gaps(n);
    lemma_nearest(n, float_gap(n));
    if n < 0x20_0000_0000_0000 {
        assert(n / 1 == n && n % 1 == 0);
        assert(nearest(n, 1) == n);
    }
}

proof fn lemma_units_are_powers(steps: nat)
    ensures
        unit_size(steps) == vstd::arithmetic::power::pow(1024, steps),
        unit_size(steps) >= 1,
    decreases steps,
{
    reveal(vstd::arithmetic::power::pow);
    if steps > 0 {
        lemma_units_are_powers((steps - 1) as nat);
    }
}

proof fn lemma_unit_steps(value: nat, from: nat, left: nat)
    ensures
        ({
            let k = unit_steps(value, unit_size(from), left);
            &&& k <= left
            &&& k > 0 ==> value >= unit_size(from + k)
            &&& k < left ==> value < 1024 * unit_size(from + k)
        }),
    decreases left,
{
    if !(left == 0 || value < 1024 * unit_size(from)) {
        lemma_unit_steps(value, from + 1, (left - 1) as nat);
        let k = unit_steps(value, unit_size(from + 1), (left - 1) as nat);
        assert(from + 1 + k == from + (k + 1));
    }
}

/// Whether a year has a day more.
pub open spec fn is_leap(year: int) -> bool {
    year % 4 == 0 && (year % 100 != 0 || year % 400 == 0)
}

/// How many days a month has.
pub open spec fn month_length(year: int, month: int) -> int {
    if month == 2 {
        if is_leap(year) {
            29
        } else {
            28
        }
    } else if month == 4 || month == 6 || month == 9 || month == 11 {
        30
    } else {
        31
    }
}

/// How many days of a year come before a month.
pub open spec fn days_before_month(year: int, month: int) -> int
    decreases month,
{
    if month <= 1 {
        0
    } else {
        days_before_month(year, month - 1) + month_length(year, month - 1)
    }
}

/// How many days come before a year, counted from the first day of the year one.
pub open spec fn days_before_year(year: int) -> int {
    365 * (year - 1) + (year - 1) / 4 - (year - 1) / 100 + (year - 1) / 400
}

/// How many days a date is from the first day of 1970.
pub open spec fn day_number(year: int, month: int, day: int) -> int {
    days_before_year(year) + days_before_month(year, month) + (day - 1) - 719_162
}

/// Whether there is such a date.
pub open spec fn is_date(year: int, month: int, day: int) -> bool {
    &&& 1 <= month <= 12
    &&& 1 <= day <= month_length(year, month)
}

proof fn lemma_months(year: int)
    ensures
        days_before_month(year, 1) == 0,
        days_before_month(year, 2) == 31,
        days_before_month(year, 3) == 31 + month_length(year, 2),
        days_before_month(year, 4) == 62 + month_length(year, 2),
        days_before_month(year, 5) == 92 + month_length(year, 2),
        days_before_month(year, 6) == 123 + month_length(year, 2),
        days_before_month(year, 7) == 153 + month_length(year, 2),
        days_before_month(year, 8) == 184 + month_length(year, 2),
        days_before_month(year, 9) == 215 + month_length(year, 2),
        days_before_month(year, 10) == 245 + month_length(year, 2),
        days_before_month(year, 11) == 276 + month_length(year, 2),
        days_before_month(year, 12) == 306 + month_length(year, 2),
        days_before_month(year, 13) == 337 + month_length(year, 2),
{
    reveal_with_fuel(days_before_month, 14);
}

proof fn lemma_next_year(year: int)
    ensures
        days_before_year(year + 1) == days_before_year(year) + 337 + month_length(year, 2),
{
    lemma_step(year, 4);
    lemma_step(year, 100);
    lemma_step(year, 400);
}

proof fn lemma_step(n: int, d: int)
    requires
        d > 1,
    ensures
        n / d == (n - 1) / d + if n % d == 0 {
            1int
        } else {
            0
        },
{
    let q = (n - 1) / d;
    let r = (n - 1) % d;
    vstd::arithmetic::div_mod::lemma_fundamental_div_mod(n - 1, d);
    vstd::arithmetic::div_mod::lemma_mod_bound(n - 1, d);
    if r == d - 1 {
        assert(d * q + d == d * (q + 1)) by (nonlinear_arith);
        vstd::arithmetic::div_mod::lemma_fundamental_div_mod_converse(n, d, q + 1, 0);
    } else {
        vstd::arithmetic::div_mod::lemma_fundamental_div_mod_converse(n, d, q, r + 1);
    }
}

/// The era that a day belongs to, and which day of it. Years that begin in March end with their
/// leap day, and 400 of them make an era.
fn era_of(z: i64) -> (result: (i64, i64))
    requires
        z >= i64::MIN + 719_468,
    ensures
        z == result.0 * 146_097 + result.1,
        0 <= result.1 < 146_097,
        -0x4000_0000_0000 <= result.0 <= 0x4000_0000_0000,
{
    let era: i64 = if z >= 0 {
        z / 146_097
    } else {
        -((-z + 146_096) / 146_097)
    };
    (era, z - era * 146_097)
}

/// The century, the four years and the year of an era that a day of it belongs to, and which day
/// of the year.
fn year_of(doe: i64) -> (result: (i64, i64, i64, i64))
    requires
        0 <= doe < 146_097,
    ensures
        ({
            let (century, four, one, doy) = result;
            &&& doe == century * 36_524 + four * 1_461 + one * 365 + doy
            &&& 0 <= century <= 3
            &&& 0 <= four <= 24
            &&& 0 <= one <= 3
            &&& 0 <= doy <= 365
            &&& doy == 365 ==> one == 3 && (four < 24 || century == 3)
        }),
{
    let century: i64 = if doe >= 3 * 36_524 {
        3
    } else {
        doe / 36_524
    };
    let in_century: i64 = doe - century * 36_524;
    let four: i64 = in_century / 1_461;
    let in_four: i64 = in_century % 1_461;
    let one: i64 = if in_four >= 3 * 365 {
        3
    } else {
        in_four / 365
    };
    (century, four, one, in_four - one * 365)
}

/// How many days from the first of March to the first of a month.
spec fn since_march(month: int) -> int {
    if month == 1 {
        306
    } else if month == 2 {
        337
    } else if month == 3 {
        0
    } else if month == 4 {
        31
    } else if month == 5 {
        61
    } else if month == 6 {
        92
    } else if month == 7 {
        122
    } else if month == 8 {
        153
    } else if month == 9 {
        184
    } else if month == 10 {
        214
    } else if month == 11 {
        245
    } else {
        275
    }
}

/// The month and the day of a year that begins in March.
fn month_of(doy: i64) -> (result: (u32, u32))
    requires
        0 <= doy <= 365,
    ensures
        1 <= result.0 <= 12,
        doy == since_march(result.0 as int) + result.1 - 1,
        1 <= result.1,
        result.0 != 2 ==> result.1 <= month_length(1, result.0 as int),
        result.0 == 2 ==> result.1 <= 29,
        result.0 == 2 && result.1 == 29 ==> doy == 365,
{
    let mp: i64 = (5 * doy + 2) / 153;
    assert(0 <= mp <= 11);
    let day: i64 = doy - (153 * mp + 2) / 5 + 1;
    let month: i64 = if mp < 10 {
        mp + 3
    } else {
        mp - 9
    };
    assert(doy == since_march(month as int) + day - 1) by {
        assert(mp == 0 || mp == 1 || mp == 2 || mp == 3 || mp == 4 || mp == 5 || mp == 6 || mp == 7
            || mp == 8 || mp == 9 || mp == 10 || mp == 11);
    }
    (month as u32, day as u32)
}

/// The date that is `days` days from the first day of 1970, in the Gregorian calendar extended
/// both ways. Days are counted from the start of an era, which is 719,468 of them earlier, and
/// that count has to fit.
pub fn civil_from_days(days: i64) -> (result: (i64, u32, u32))
    requires
        days <= i64::MAX - 719_468,
    ensures
        is_date(result.0 as int, result.1 as int, result.2 as int),
        day_number(result.0 as int, result.1 as int, result.2 as int) == days,
        -0x4000_0000_0000_0000 <= result.0 <= 0x4000_0000_0000_0000,
{
    let (era, doe): (i64, i64) = era_of(days + 719_468);
    let (century, four, one, doy): (i64, i64, i64, i64) = year_of(doe);
    let march_year: i64 = era * 400 + century * 100 + four * 4 + one;
    let (month, day): (u32, u32) = month_of(doy);
    let year: i64 = if month <= 2 {
        march_year + 1
    } else {
        march_year
    };
    proof {
        lemma_civil(era as int, century as int, four as int, one as int, doy as int);
        lemma_from_march(march_year as int, month as int, day as int, doy as int);
    }
    (year, month, day)
}

proof fn lemma_from_march(march_year: int, month: int, day: int, doy: int)
    requires
        1 <= month <= 12,
        doy == since_march(month) + day - 1,
        1 <= day,
        month != 2 ==> day <= month_length(1, month),
        month == 2 ==> day <= 29,
        month == 2 && day == 29 ==> is_leap(march_year + 1),
    ensures
        ({
            let year = if month <= 2 {
                march_year + 1
            } else {
                march_year
            };
            &&& is_date(year, month, day)
            &&& day_number(year, month, day) == days_before_year(march_year + 1) + doy - 719_468
        }),
{
    lemma_months(march_year);
    lemma_months(march_year + 1);
    lemma_next_year(march_year);
}

proof fn lemma_civil(era: int, century: int, four: int, one: int, doy: int)
    requires
        0 <= century <= 3,
        0 <= four <= 24,
        0 <= one <= 3,
        0 <= doy <= 365,
        doy == 365 ==> one == 3 && (four < 24 || century == 3),
    ensures
        ({
            let y = era * 400 + century * 100 + four * 4 + one;
            &&& days_before_year(y + 1) == era * 146_097 + century * 36_524 + four * 1_461 + one
                * 365
            &&& doy == 365 ==> is_leap(y + 1)
        }),
{
    let y = era * 400 + century * 100 + four * 4 + one;
    vstd::arithmetic::div_mod::lemma_fundamental_div_mod_converse(
        y,
        4,
        era * 100 + century * 25 + four,
        one,
    );
    vstd::arithmetic::div_mod::lemma_fundamental_div_mod_converse(
        y,
        100,
        era * 4 + century,
        four * 4 + one,
    );
    vstd::arithmetic::div_mod::lemma_fundamental_div_mod_converse(
        y,
        400,
        era,
        century * 100 + four * 4 + one,
    );
    if doy == 365 {
        vstd::arithmetic::div_mod::lemma_fundamental_div_mod_converse(
            y + 1,
            4,
            era * 100 + century * 25 + four + 1,
            0,
        );
        if four < 24 {
            vstd::arithmetic::div_mod::lemma_fundamental_div_mod_converse(
                y + 1,
                100,
                era * 4 + century,
                four * 4 + 4,
            );
        } else {
            vstd::arithmetic::div_mod::lemma_fundamental_div_mod_converse(
                y + 1,
                400,
                era + 1,
                0,
            );
        }
    }
}

/// A date and a time of day, in fixed width.
pub open spec fn stamp(year: int, month: int, day: int, hour: int, minute: int) -> Seq<char> {
    let years = if year < 0 {
        "-"@ + padded((-year) as nat, 3)
    } else {
        padded(year as nat, 4)
    };
    years + "-"@ + padded(month as nat, 2) + "-"@ + padded(day as nat, 2) + " "@ + padded(
        hour as nat,
        2,
    ) + ":"@ + padded(minute as nat, 2)
}

/// Whether `written` is the time `seconds` after the start of 1970.
pub open spec fn is_stamp(seconds: int, written: Seq<char>) -> bool {
    exists|year: int, month: int, day: int| #[trigger]
        is_date(year, month, day) && day_number(year, month, day) == seconds / 86_400 && written
            == stamp(year, month, day, seconds % 86_400 / 3600, seconds % 3600 / 60)
}

/// The time `seconds` after the start of 1970, as it is written.
pub open spec fn time_text(seconds: int) -> Seq<char> {
    choose|written: Seq<char>| is_stamp(seconds, written)
}

/// A time is written in one way.
pub proof fn a_time_is_written_one_way(seconds: int, a: Seq<char>, b: Seq<char>)
    requires
        is_stamp(seconds, a),
        is_stamp(seconds, b),
    ensures
        a == b,
{
    let (y1, m1, d1) = choose|year: int, month: int, day: int| #[trigger]
        is_date(year, month, day) && day_number(year, month, day) == seconds / 86_400 && a
            == stamp(year, month, day, seconds % 86_400 / 3600, seconds % 3600 / 60);
    let (y2, m2, d2) = choose|year: int, month: int, day: int| #[trigger]
        is_date(year, month, day) && day_number(year, month, day) == seconds / 86_400 && b
            == stamp(year, month, day, seconds % 86_400 / 3600, seconds % 3600 / 60);
    a_day_has_one_date(y1, m1, d1, y2, m2, d2);
}

/// Write a date and a time of day.
fn write_stamp(year: i64, month: u32, day: u32, hour: i64, minute: i64) -> (result: String)
    requires
        year > i64::MIN,
        0 <= hour,
        0 <= minute,
    ensures
        result@ == stamp(year as int, month as int, day as int, hour as int, minute as int),
{
    let mut out: String = String::new();
    if year < 0 {
        out.append("-");
        out.append(text::write_padded((-year) as u64, 3).as_str());
    } else {
        out.append(text::write_padded(year as u64, 4).as_str());
    }
    out.append("-");
    out.append(text::write_padded(month as u64, 2).as_str());
    out.append("-");
    out.append(text::write_padded(day as u64, 2).as_str());
    out.append(" ");
    out.append(text::write_padded(hour as u64, 2).as_str());
    out.append(":");
    out.append(text::write_padded(minute as u64, 2).as_str());
    assert(out@ =~= stamp(year as int, month as int, day as int, hour as int, minute as int));
    out
}

/// The day that a second belongs to, and which second of the day.
fn day_of(seconds: i64) -> (result: (i64, i64))
    ensures
        result.0 == seconds as int / 86_400,
        result.1 == seconds as int % 86_400,
{
    if seconds >= 0 {
        (seconds / 86_400, seconds % 86_400)
    } else {
        let back: i64 = -(seconds + 1);
        (-(back / 86_400) - 1, 86_399 - back % 86_400)
    }
}

/// Unix seconds as a date and a time of day, in fixed width and in no particular locale.
pub fn format_mtime(unix_seconds: i64) -> (result: String)
    ensures
        is_stamp(unix_seconds as int, result@),
        result@ == time_text(unix_seconds as int),
{
    let (days, time_of_day): (i64, i64) = day_of(unix_seconds);
    let (year, month, day): (i64, u32, u32) = civil_from_days(days);
    let hour: i64 = time_of_day / 3600;
    let minute: i64 = (time_of_day % 3600) / 60;
    let out: String = write_stamp(year, month, day, hour, minute);
    proof {
        let s = unix_seconds as int;
        lemma_clock(s);
        assert(is_date(year as int, month as int, day as int));
        assert(is_stamp(s, out@));
        a_time_is_written_one_way(s, out@, time_text(s));
    }
    out
}

/// No two dates are the same day.
pub proof fn a_day_has_one_date(y1: int, m1: int, d1: int, y2: int, m2: int, d2: int)
    requires
        is_date(y1, m1, d1),
        is_date(y2, m2, d2),
        day_number(y1, m1, d1) == day_number(y2, m2, d2),
    ensures
        y1 == y2 && m1 == m2 && d1 == d2,
{
    lemma_months(y1);
    lemma_months(y2);
    if y1 < y2 {
        lemma_next_year(y1);
        lemma_years_are_ordered(y1 + 1, y2);
    }
    if y2 < y1 {
        lemma_next_year(y2);
        lemma_years_are_ordered(y2 + 1, y1);
    }
}

proof fn lemma_years_are_ordered(a: int, b: int)
    requires
        a <= b,
    ensures
        days_before_year(a) <= days_before_year(b),
    decreases b - a,
{
    if a < b {
        lemma_years_are_ordered(a, b - 1);
        lemma_next_year(b - 1);
    }
}

/// Whether `a` sorts before `b`: where they first differ, it has the smaller character.
pub open spec fn sorts_before(a: Seq<char>, b: Seq<char>) -> bool {
    exists|k: int|
        {
            &&& 0 <= k < a.len()
            &&& k < b.len()
            &&& #[trigger] a[k] < b[k]
            &&& a.take(k) == b.take(k)
        }
}

/// The first second of the year 0.
pub const FIRST_FOUR_DIGIT_SECOND: i64 = -62_167_219_200;

/// The last second of the year 9999.
pub const LAST_FOUR_DIGIT_SECOND: i64 = 253_402_300_799;

/// Times sort as they are written: one of a later minute after one of an earlier. Those of a year of
/// four digits are all as wide as each other, and those of one minute are written alike.
#[verifier::spinoff_prover]
pub proof fn times_sort_as_they_are_written(s: int, t: int)
    requires
        FIRST_FOUR_DIGIT_SECOND <= s <= t <= LAST_FOUR_DIGIT_SECOND,
    ensures
        time_text(s).len() == 16,
        time_text(t).len() == 16,
        time_text(s) == time_text(t) || sorts_before(time_text(s), time_text(t)),
        s / 60 == t / 60 ==> time_text(s) == time_text(t),
        s / 60 < t / 60 ==> sorts_before(time_text(s), time_text(t)),
{
    if s / 60 < t / 60 {
        minutes_read_apart(s, t);
    }
    let (y1, m1, d1) = lemma_a_day_has_a_date(s / 86_400);
    let (y2, m2, d2) = lemma_a_day_has_a_date(t / 86_400);
    lemma_written(s, y1, m1, d1);
    lemma_written(t, y2, m2, d2);
    lemma_later_on_the_clock(s, t);
    lemma_dates_are_ordered(y1, m1, d1, y2, m2, d2);
    lemma_four_digits(y1, m1, d1);
    lemma_four_digits(y2, m2, d2);
    let h1 = s % 86_400 / 3600;
    let h2 = t % 86_400 / 3600;
    let n1 = s % 3600 / 60;
    let n2 = t % 3600 / 60;
    lemma_stamps_are_ordered(y1, m1, d1, h1, n1, y2, m2, d2, h2, n2);
    if s / 60 == t / 60 {
        a_day_has_one_date(y1, m1, d1, y2, m2, d2);
    }
}

proof fn lemma_clock(s: int)
    ensures
        s % 86_400 % 3600 == s % 3600,
{
    assert(s == 86_400 * (s / 86_400) + s % 86_400);
    vstd::arithmetic::div_mod::lemma_mod_multiples_vanish(24 * (s / 86_400), s % 86_400, 3600);
}

#[verifier::spinoff_prover]
proof fn lemma_later_on_the_clock(s: int, t: int)
    requires
        s <= t,
    ensures
        s / 86_400 <= t / 86_400,
        s / 86_400 == t / 86_400 ==> s % 86_400 / 3600 <= t % 86_400 / 3600,
        s / 86_400 == t / 86_400 && s % 86_400 / 3600 == t % 86_400 / 3600 ==> s % 3600 / 60
            <= t % 3600 / 60,
        s / 60 == t / 60 ==> s / 86_400 == t / 86_400 && s % 86_400 / 3600 == t % 86_400 / 3600
            && s % 3600 / 60 == t % 3600 / 60,
        0 <= s % 86_400 / 3600 < 24,
        0 <= s % 3600 / 60 < 60,
        0 <= t % 86_400 / 3600 < 24,
        0 <= t % 3600 / 60 < 60,
{
    lemma_clock(s);
    lemma_clock(t);
    let a = s % 86_400;
    let b = t % 86_400;
    assert(s % 3600 == a % 3600 && t % 3600 == b % 3600);
    if s / 60 == t / 60 {
        lemma_minutes(s);
        lemma_minutes(t);
    }
}

#[verifier::spinoff_prover]
proof fn lemma_minutes(s: int)
    ensures
        s / 86_400 == s / 60 / 1440,
        s % 86_400 / 3600 == s / 60 % 1440 / 60,
        s % 3600 / 60 == s / 60 % 60,
{
    let minutes = s / 60;
    let rest = s % 60;
    let of_day = minutes % 1440;
    let of_hour = minutes % 60;
    vstd::arithmetic::div_mod::lemma_fundamental_div_mod_converse(s, 86_400, minutes / 1440, 60 * of_day + rest);
    vstd::arithmetic::div_mod::lemma_fundamental_div_mod_converse(
        60 * of_day + rest,
        3600,
        of_day / 60,
        60 * (of_day % 60) + rest,
    );
    vstd::arithmetic::div_mod::lemma_fundamental_div_mod_converse(s, 3600, minutes / 60, 60 * of_hour + rest);
    vstd::arithmetic::div_mod::lemma_fundamental_div_mod_converse(60 * of_hour + rest, 60, of_hour, rest);
}

/// The date of a day.
proof fn lemma_a_day_has_a_date(days: int) -> (date: (int, int, int))
    ensures
        is_date(date.0, date.1, date.2),
        day_number(date.0, date.1, date.2) == days,
    decreases
            if days >= -719_528 {
                days + 719_528
            } else {
                -719_528 - days
            },
{
    if days == -719_528 {
        lemma_months(0);
        (0, 1, 1)
    } else if days < -719_528 {
        let (year, month, day) = lemma_a_day_has_a_date(days + 1);
        lemma_months(year);
        if day > 1 {
            (year, month, day - 1)
        } else if month > 1 {
            (year, month - 1, month_length(year, month - 1))
        } else {
            lemma_months(year - 1);
            lemma_next_year(year - 1);
            (year - 1, 12, 31)
        }
    } else {
        let (year, month, day) = lemma_a_day_has_a_date(days - 1);
        if day < month_length(year, month) {
            (year, month, day + 1)
        } else if month < 12 {
            lemma_months(year);
            (year, month + 1, 1)
        } else {
            lemma_months(year);
            lemma_months(year + 1);
            lemma_next_year(year);
            (year + 1, 1, 1)
        }
    }
}

proof fn lemma_written(seconds: int, year: int, month: int, day: int)
    requires
        is_date(year, month, day),
        day_number(year, month, day) == seconds / 86_400,
    ensures
        time_text(seconds) == stamp(
            year,
            month,
            day,
            seconds % 86_400 / 3600,
            seconds % 3600 / 60,
        ),
{
    let written = stamp(year, month, day, seconds % 86_400 / 3600, seconds % 3600 / 60);
    assert(is_stamp(seconds, written));
    a_time_is_written_one_way(seconds, written, time_text(seconds));
}

proof fn lemma_dates_are_ordered(y1: int, m1: int, d1: int, y2: int, m2: int, d2: int)
    requires
        is_date(y1, m1, d1),
        is_date(y2, m2, d2),
        day_number(y1, m1, d1) <= day_number(y2, m2, d2),
    ensures
        y1 <= y2,
        y1 == y2 ==> m1 <= m2,
        y1 == y2 && m1 == m2 ==> d1 <= d2,
{
    lemma_months(y1);
    lemma_months(y2);
    if y2 < y1 {
        lemma_next_year(y2);
        lemma_years_are_ordered(y2 + 1, y1);
    }
}

proof fn lemma_four_digits(year: int, month: int, day: int)
    requires
        is_date(year, month, day),
        -719_528 <= day_number(year, month, day) <= 2_932_896,
    ensures
        0 <= year <= 9999,
{
    lemma_months(year);
    if year < 0 {
        lemma_next_year(year);
        lemma_years_are_ordered(year + 1, 0);
    }
    if year > 9999 {
        lemma_years_are_ordered(10_000, year);
    }
}

/// Ten to the power of `width`.
spec fn tens(width: nat) -> nat
    decreases width,
{
    if width == 0 {
        1
    } else {
        10 * tens((width - 1) as nat)
    }
}

proof fn lemma_padding(n: nat, width: nat)
    requires
        width >= 1,
    ensures
        padded(n, width + 1) == padded(n / 10, width).push(digit(n % 10)),
{
    if n < 10 {
        assert(decimal(n) == seq![digit(n)]);
        assert(decimal(0) == seq![digit(0)]);
        assert(digit(0) == '0');
        assert(padded(n, width + 1) =~= padded(0, width).push(digit(n)));
    } else {
        assert(decimal(n) == decimal(n / 10).push(digit(n % 10)));
        assert(padded(n, width + 1) =~= padded(n / 10, width).push(digit(n % 10)));
    }
}

proof fn lemma_width(n: nat, width: nat)
    requires
        1 <= width,
        n < tens(width),
    ensures
        padded(n, width).len() == width,
    decreases width,
{
    if width == 1 {
        assert(tens(1) == 10) by {
            reveal_with_fuel(tens, 2);
        }
    } else {
        lemma_padding(n, (width - 1) as nat);
        lemma_width(n / 10, (width - 1) as nat);
    }
}

proof fn lemma_numbers_sort(n: nat, m: nat, width: nat)
    requires
        1 <= width,
        n <= m < tens(width),
    ensures
        n < m ==> sorts_before(padded(n, width), padded(m, width)),
    decreases width,
{
    if n < m {
        let a = padded(n, width);
        let b = padded(m, width);
        if width == 1 {
            assert(tens(1) == 10) by {
                reveal_with_fuel(tens, 2);
            }
            assert(a =~= seq![digit(n)] && b =~= seq![digit(m)]);
            assert(a[0] < b[0]);
            assert(a.take(0) =~= b.take(0));
        } else {
            let less = (width - 1) as nat;
            lemma_padding(n, less);
            lemma_padding(m, less);
            lemma_width(n / 10, less);
            lemma_width(m / 10, less);
            if n / 10 < m / 10 {
                lemma_numbers_sort(n / 10, m / 10, less);
                lemma_sorts_on(
                    padded(n / 10, less),
                    padded(m / 10, less),
                    seq![digit(n % 10)],
                    seq![digit(m % 10)],
                );
                assert(a =~= padded(n / 10, less) + seq![digit(n % 10)]);
                assert(b =~= padded(m / 10, less) + seq![digit(m % 10)]);
            } else {
                assert(a[less as int] < b[less as int]);
                assert(a.take(less as int) =~= b.take(less as int));
            }
        }
    }
}

/// What comes after the place where two texts differ makes no difference, and before it only what
/// is alike.
proof fn lemma_sorts_on(a: Seq<char>, b: Seq<char>, x: Seq<char>, y: Seq<char>)
    requires
        a.len() == b.len(),
        sorts_before(a, b) || a == b && (x == y || sorts_before(x, y)),
    ensures
        a + x == b + y || sorts_before(a + x, b + y),
        sorts_before(a, b) || sorts_before(x, y) ==> sorts_before(a + x, b + y),
{
    let p = a + x;
    let q = b + y;
    if sorts_before(a, b) {
        let k = choose|k: int|
            {
                &&& 0 <= k < a.len()
                &&& k < b.len()
                &&& #[trigger] a[k] < b[k]
                &&& a.take(k) == b.take(k)
            };
        assert(p[k] < q[k]);
        assert(p.take(k) =~= a.take(k));
        assert(q.take(k) =~= b.take(k));
    } else if sorts_before(x, y) {
        let k = choose|k: int|
            {
                &&& 0 <= k < x.len()
                &&& k < y.len()
                &&& #[trigger] x[k] < y[k]
                &&& x.take(k) == y.take(k)
            };
        let at = a.len() + k;
        assert(p[at] < q[at]);
        assert(p.take(at) =~= a + x.take(k));
        assert(q.take(at) =~= b + y.take(k));
    }
}

proof fn lemma_stamps_are_ordered(
    y1: int,
    m1: int,
    d1: int,
    h1: int,
    n1: int,
    y2: int,
    m2: int,
    d2: int,
    h2: int,
    n2: int,
)
    requires
        0 <= y1 <= y2 <= 9999,
        1 <= m1 <= 12,
        1 <= m2 <= 12,
        1 <= d1 <= 31,
        1 <= d2 <= 31,
        0 <= h1 < 24,
        0 <= h2 < 24,
        0 <= n1 < 60,
        0 <= n2 < 60,
        y1 == y2 ==> m1 <= m2,
        y1 == y2 && m1 == m2 ==> d1 <= d2,
        y1 == y2 && m1 == m2 && d1 == d2 ==> h1 <= h2,
        y1 == y2 && m1 == m2 && d1 == d2 && h1 == h2 ==> n1 <= n2,
    ensures
        ({
            let a = stamp(y1, m1, d1, h1, n1);
            let b = stamp(y2, m2, d2, h2, n2);
            &&& a.len() == 16
            &&& b.len() == 16
            &&& a == b || sorts_before(a, b)
        }),
{
    reveal_with_fuel(tens, 5);
    reveal_strlit("-");
    reveal_strlit(" ");
    reveal_strlit(":");
    lemma_width(y1 as nat, 4);
    lemma_width(y2 as nat, 4);
    lemma_width(m1 as nat, 2);
    lemma_width(m2 as nat, 2);
    lemma_width(d1 as nat, 2);
    lemma_width(d2 as nat, 2);
    lemma_width(h1 as nat, 2);
    lemma_width(h2 as nat, 2);
    lemma_width(n1 as nat, 2);
    lemma_width(n2 as nat, 2);
    lemma_numbers_sort(y1 as nat, y2 as nat, 4);
    if y1 == y2 {
        lemma_numbers_sort(m1 as nat, m2 as nat, 2);
        if m1 == m2 {
            lemma_numbers_sort(d1 as nat, d2 as nat, 2);
            if d1 == d2 {
                lemma_numbers_sort(h1 as nat, h2 as nat, 2);
                if h1 == h2 {
                    lemma_numbers_sort(n1 as nat, n2 as nat, 2);
                }
            }
        }
    }
    let a0 = padded(y1 as nat, 4);
    let b0 = padded(y2 as nat, 4);
    lemma_sorts_on(a0, b0, "-"@, "-"@);
    let a1 = a0 + "-"@;
    let b1 = b0 + "-"@;
    lemma_sorts_on(a1, b1, padded(m1 as nat, 2), padded(m2 as nat, 2));
    let a2 = a1 + padded(m1 as nat, 2);
    let b2 = b1 + padded(m2 as nat, 2);
    lemma_sorts_on(a2, b2, "-"@, "-"@);
    let a3 = a2 + "-"@;
    let b3 = b2 + "-"@;
    lemma_sorts_on(a3, b3, padded(d1 as nat, 2), padded(d2 as nat, 2));
    let a4 = a3 + padded(d1 as nat, 2);
    let b4 = b3 + padded(d2 as nat, 2);
    lemma_sorts_on(a4, b4, " "@, " "@);
    let a5 = a4 + " "@;
    let b5 = b4 + " "@;
    lemma_sorts_on(a5, b5, padded(h1 as nat, 2), padded(h2 as nat, 2));
    let a6 = a5 + padded(h1 as nat, 2);
    let b6 = b5 + padded(h2 as nat, 2);
    lemma_sorts_on(a6, b6, ":"@, ":"@);
    lemma_sorts_on(a6 + ":"@, b6 + ":"@, padded(n1 as nat, 2), padded(n2 as nat, 2));
}

/// The days of the calendar follow each other: each is one after the one before, in its month, over
/// the end of a month and over the end of a year, and they are counted from the first day of 1970.
/// The calendar comes round every 400 years, and by then as many days have passed as before.
pub proof fn days_follow_each_other(year: int, month: int, day: int)
    requires
        is_date(year, month, day),
    ensures
        day_number(1970, 1, 1) == 0,
        day < month_length(year, month) ==> is_date(year, month, day + 1) && day_number(
            year,
            month,
            day + 1,
        ) == day_number(year, month, day) + 1,
        day == month_length(year, month) && month < 12 ==> is_date(year, month + 1, 1)
            && day_number(year, month + 1, 1) == day_number(year, month, day) + 1,
        day == month_length(year, month) && month == 12 ==> is_date(year + 1, 1, 1) && day_number(
            year + 1,
            1,
            1,
        ) == day_number(year, month, day) + 1,
        is_date(year + 400, month, day),
        day_number(year + 400, month, day) == day_number(year, month, day) + 146_097,
        28 <= month_length(year, month) <= 31,
        days_before_year(year + 1) - days_before_year(year) == if year % 400 == 0 || (year % 4 == 0
            && year % 100 != 0) {
            366int
        } else {
            365int
        },
{
    lemma_months(1970);
    lemma_months(year);
    lemma_months(year + 1);
    lemma_months(year + 400);
    lemma_next_year(year);
    vstd::arithmetic::div_mod::lemma_mod_multiples_vanish(100, year, 4);
    vstd::arithmetic::div_mod::lemma_mod_multiples_vanish(4, year, 100);
    vstd::arithmetic::div_mod::lemma_mod_multiples_vanish(1, year, 400);
    assert(is_leap(year + 400) == is_leap(year));
    assert((year + 399) / 4 == (year - 1) / 4 + 100);
    assert((year + 399) / 100 == (year - 1) / 100 + 4);
    assert((year + 399) / 400 == (year - 1) / 400 + 1);
}

/// Every time is written.
pub proof fn a_time_is_written(seconds: int)
    ensures
        is_stamp(seconds, time_text(seconds)),
{
    let (year, month, day) = lemma_a_day_has_a_date(seconds / 86_400);
    let written = stamp(year, month, day, seconds % 86_400 / 3600, seconds % 3600 / 60);
    assert(is_stamp(seconds, written));
}

/// What is written of a time reads back: its first four characters are the year, and then come the
/// month, the day, the hour and the minute, of two each, of the minute that the time is in.
#[verifier::spinoff_prover]
pub proof fn a_time_reads_back(seconds: int)
    requires
        FIRST_FOUR_DIGIT_SECOND <= seconds <= LAST_FOUR_DIGIT_SECOND,
    ensures
        ({
            let written = time_text(seconds);
            let year = value_of(written.subrange(0, 4));
            let month = value_of(written.subrange(5, 7));
            let day = value_of(written.subrange(8, 10));
            let hour = value_of(written.subrange(11, 13));
            let minute = value_of(written.subrange(14, 16));
            let start = day_number(year, month, day) * 86_400 + hour * 3600 + minute * 60;
            &&& written.len() == 16
            &&& written[4] == '-'
            &&& written[7] == '-'
            &&& written[10] == ' '
            &&& written[13] == ':'
            &&& is_date(year, month, day)
            &&& 0 <= hour < 24
            &&& 0 <= minute < 60
            &&& start <= seconds < start + 60
        }),
{
    let (y, m, d) = lemma_a_day_has_a_date(seconds / 86_400);
    lemma_written(seconds, y, m, d);
    lemma_four_digits(y, m, d);
    lemma_clock(seconds);
    let h = seconds % 86_400 / 3600;
    let n = seconds % 3600 / 60;
    lemma_stamp_parts(y, m, d, h, n);
    let written = time_text(seconds);
    let front = padded(y as nat, 4);
    reveal_with_fuel(tens, 5);
    lemma_width(y as nat, 4);
    a_padded_number_reads_back(y as nat, 4);
    assert(written.subrange(0, 4) =~= front);
    let back = written.skip(4);
    assert(written.subrange(5, 7) =~= back.subrange(1, 3));
    assert(written.subrange(8, 10) =~= back.subrange(4, 6));
    assert(written.subrange(11, 13) =~= back.subrange(7, 9));
    assert(written.subrange(14, 16) =~= back.subrange(10, 12));
    assert(seconds == 86_400 * (seconds / 86_400) + 3600 * h + 60 * n + seconds % 60) by {
        lemma_minutes(seconds);
    }
}

/// The part of a stamp after the year.
spec fn after_year(month: int, day: int, hour: int, minute: int) -> Seq<char> {
    "-"@ + padded(month as nat, 2) + "-"@ + padded(day as nat, 2) + " "@ + padded(hour as nat, 2)
        + ":"@ + padded(minute as nat, 2)
}

/// The year of a stamp.
spec fn year_text(year: int) -> Seq<char> {
    if year < 0 {
        "-"@ + padded((-year) as nat, 3)
    } else {
        padded(year as nat, 4)
    }
}

proof fn lemma_stamp_parts(year: int, month: int, day: int, hour: int, minute: int)
    requires
        1 <= month <= 12,
        1 <= day <= 31,
        0 <= hour < 24,
        0 <= minute < 60,
    ensures
        ({
            let all = stamp(year, month, day, hour, minute);
            let back = after_year(month, day, hour, minute);
            let front = year_text(year);
            &&& all == front + back
            &&& all.len() == front.len() + 12
            &&& all.take(front.len() as int) == front
            &&& all.skip(front.len() as int) == back
            &&& back.len() == 12
            &&& back[0] == '-'
            &&& back[3] == '-'
            &&& back[6] == ' '
            &&& back[9] == ':'
            &&& value_of(back.subrange(1, 3)) == month
            &&& value_of(back.subrange(4, 6)) == day
            &&& value_of(back.subrange(7, 9)) == hour
            &&& value_of(back.subrange(10, 12)) == minute
        }),
{
    reveal_strlit("-");
    reveal_strlit(" ");
    reveal_strlit(":");
    reveal_with_fuel(tens, 5);
    lemma_width(month as nat, 2);
    lemma_width(day as nat, 2);
    lemma_width(hour as nat, 2);
    lemma_width(minute as nat, 2);
    a_padded_number_reads_back(month as nat, 2);
    a_padded_number_reads_back(day as nat, 2);
    a_padded_number_reads_back(hour as nat, 2);
    a_padded_number_reads_back(minute as nat, 2);
    let all = stamp(year, month, day, hour, minute);
    let back = after_year(month, day, hour, minute);
    let front = year_text(year);
    assert(all =~= front + back);
    assert(all.take(front.len() as int) =~= front);
    assert(all.skip(front.len() as int) =~= back);
    assert(back.subrange(1, 3) =~= padded(month as nat, 2));
    assert(back.subrange(4, 6) =~= padded(day as nat, 2));
    assert(back.subrange(7, 9) =~= padded(hour as nat, 2));
    assert(back.subrange(10, 12) =~= padded(minute as nat, 2));
}

proof fn lemma_years_read_apart(a: int, b: int)
    requires
        year_text(a) == year_text(b),
    ensures
        a == b,
{
    reveal_strlit("-");
    let x = year_text(a);
    let y = year_text(b);
    if a < 0 {
        a_padded_number_reads_back((-a) as nat, 3);
        assert(x.skip(1) =~= padded((-a) as nat, 3));
    } else {
        a_padded_number_reads_back(a as nat, 4);
    }
    if b < 0 {
        a_padded_number_reads_back((-b) as nat, 3);
        assert(y.skip(1) =~= padded((-b) as nat, 3));
    } else {
        a_padded_number_reads_back(b as nat, 4);
    }
    if a < 0 && b >= 0 {
        assert(x[0] == '-');
        assert('0' <= y[0] <= '9');
    }
    if b < 0 && a >= 0 {
        assert(y[0] == '-');
        assert('0' <= x[0] <= '9');
    }
}

/// Times of different minutes read differently, in whatever year.
#[verifier::spinoff_prover]
pub proof fn minutes_read_apart(s: int, t: int)
    requires
        s / 60 != t / 60,
    ensures
        time_text(s) != time_text(t),
{
    let (y1, m1, d1) = lemma_a_day_has_a_date(s / 86_400);
    let (y2, m2, d2) = lemma_a_day_has_a_date(t / 86_400);
    lemma_written(s, y1, m1, d1);
    lemma_written(t, y2, m2, d2);
    lemma_later_on_the_clock(s, s);
    lemma_later_on_the_clock(t, t);
    let h1 = s % 86_400 / 3600;
    let h2 = t % 86_400 / 3600;
    let n1 = s % 3600 / 60;
    let n2 = t % 3600 / 60;
    lemma_stamp_parts(y1, m1, d1, h1, n1);
    lemma_stamp_parts(y2, m2, d2, h2, n2);
    let a = time_text(s);
    let b = time_text(t);
    if a == b {
        let w = a.len() - 12;
        assert(a.take(w) == b.take(w) && a.skip(w) == b.skip(w));
        lemma_years_read_apart(y1, y2);
        assert(s / 86_400 == t / 86_400);
        lemma_same_minute(s, t);
    }
}

proof fn lemma_same_minute(s: int, t: int)
    requires
        s / 86_400 == t / 86_400,
        s % 86_400 / 3600 == t % 86_400 / 3600,
        s % 3600 / 60 == t % 3600 / 60,
    ensures
        s / 60 == t / 60,
{
    lemma_minutes(s);
    lemma_minutes(t);
    let a = s / 60;
    let b = t / 60;
    assert(a == 1440 * (a / 1440) + 60 * (a % 1440 / 60) + a % 60) by {
        lemma_clock_of_minutes(a);
    }
    assert(b == 1440 * (b / 1440) + 60 * (b % 1440 / 60) + b % 60) by {
        lemma_clock_of_minutes(b);
    }
}

proof fn lemma_clock_of_minutes(a: int)
    ensures
        a == 1440 * (a / 1440) + 60 * (a % 1440 / 60) + a % 60,
{
    let of_day = a % 1440;
    vstd::arithmetic::div_mod::lemma_mod_multiples_vanish(24 * (a / 1440), of_day, 60);
}

/// Times of one minute read alike, in whatever year.
pub proof fn a_minute_reads_alike(s: int, t: int)
    requires
        s / 60 == t / 60,
    ensures
        time_text(s) == time_text(t),
{
    let (y1, m1, d1) = lemma_a_day_has_a_date(s / 86_400);
    lemma_minutes(s);
    lemma_minutes(t);
    lemma_written(s, y1, m1, d1);
    lemma_written(t, y1, m1, d1);
}

} // verus!
