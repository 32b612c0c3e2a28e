//! Sizes in bytes as people read and write them.
use crate::number::{
    decimal_text, divide_rounding, signed_decimal_text, to_nearest_double,
};
#[allow(unused_imports)]
use crate::number::{decimal, nearest_double, rounded_quotient, signed_decimal};
use crate::text;
use vstd::prelude::*;

verus! {

/// 1024 bytes.
pub const KIB: u64 = 1024;

/// 1024 times 1024 bytes.
pub const MIB: u64 = 1_048_576;

/// 1024 times 1024 times 1024 bytes.
pub const GIB: u64 = 1_073_741_824;

/// `bytes`, held as a double, in units of `unit` with one decimal, rounded to the
/// nearest and to the even one where two are equally near.
pub open spec fn in_units(bytes: nat, unit: nat) -> Seq<char> {
    let tenths = rounded_quotient(nearest_double(bytes) * 10, unit);
    decimal(tenths / 10) + "."@ + decimal(tenths % 10)
}

/// A size as people read it.
pub open spec fn human_size(bytes: int) -> Seq<char> {
    if bytes >= GIB {
        in_units(bytes as nat, GIB as nat) + " GB"@
    } else if bytes >= MIB {
        in_units(bytes as nat, MIB as nat) + " MB"@
    } else if bytes >= KIB {
        in_units(bytes as nat, KIB as nat) + " KB"@
    } else {
        signed_decimal(bytes) + " B"@
    }
}

fn units_text(bytes: u64, unit: u64) -> (res: String)
    requires
        unit == KIB || unit == MIB || unit == GIB,
    ensures
        res@ == in_units(bytes as nat, unit as nat),
{
    let double: u128 = to_nearest_double(bytes as u128);
    let tenths: u128 = divide_rounding(double * 10, unit as u128);
    proof {
        let n = (double * 10) as int;
        vstd::arithmetic::div_mod::lemma_div_is_ordered(
            n,
            368934881474191032320int,
            unit as int,
        );
    }
    let mut res = decimal_text((tenths / 10) as u64);
    res.append(".");
    res.append(decimal_text((tenths % 10) as u64).as_str());
    res
}

/// A size in bytes for the dashboard: in gigabytes, megabytes or kilobytes with one
/// decimal from the unit's own size on, and in bytes below that.
pub fn format_bytes(bytes: u64) -> (res: String)
    ensures
        res@ == human_size(bytes as int),
{
    if bytes >= GIB {
        let mut res = units_text(bytes, GIB);
        res.append(" GB");
        res
    } else if bytes >= MIB {
        let mut res = units_text(bytes, MIB);
        res.append(" MB");
        res
    } else if bytes >= KIB {
        let mut res = units_text(bytes, KIB);
        res.append(" KB");
        res
    } else {
        let mut res = decimal_text(bytes);
        res.append(" B");
        res
    }
}

/// A size in bytes for the command line; negative numbers are written in bytes.
pub fn format_size(bytes: i64) -> (res: String)
    ensures
        res@ == human_size(bytes as int),
{
    if bytes >= 1024 {
        format_bytes(bytes as u64)
    } else {
        let mut res = signed_decimal_text(bytes);
        res.append(" B");
        res
    }
}

/// The number part of a size and the bytes that its unit stands for.
pub open spec fn size_parts(s: Seq<char>) -> (Seq<char>, u64) {
    let t = text::trimmed(s);
    if t.len() > 0 && (t.last() == 'G' || t.last() == 'g') {
        (text::trimmed(t.drop_last()), GIB)
    } else if text::has_suffix(t, "GB"@) {
        (text::trimmed(t.subrange(0, t.len() - 2)), GIB)
    } else if t.len() > 0 && (t.last() == 'M' || t.last() == 'm') {
        (text::trimmed(t.drop_last()), MIB)
    } else if text::has_suffix(t, "MB"@) {
        (text::trimmed(t.subrange(0, t.len() - 2)), MIB)
    } else if t.len() > 0 && (t.last() == 'K' || t.last() == 'k') {
        (text::trimmed(t.drop_last()), KIB)
    } else if text::has_suffix(t, "KB"@) {
        (text::trimmed(t.subrange(0, t.len() - 2)), KIB)
    } else {
        (t, 1)
    }
}

/// Splits a size such as `1G`, `500 MB` or `64k` into the text of its number and
/// the bytes that its unit stands for. What has no unit counts bytes.
pub fn split_size(s: &str) -> (res: (String, u64))
    ensures
        (res.0@, res.1) == size_parts(s@),
{
    let t = text::trim(s);
    let tv = text::chars_of(t.as_str());
    let n: usize = tv.len();
    proof {
        reveal_strlit("GB");
        reveal_strlit("MB");
        reveal_strlit("KB");
        assert(n > 0 ==> tv@.subrange(0, n - 1) =~= t@.drop_last());
    }
    if n > 0 && (tv[n - 1] == 'G' || tv[n - 1] == 'g') {
        (text::trim(text::string_of(&tv, 0, n - 1).as_str()), GIB)
    } else if let Some(num) = text::strip_suffix(t.as_str(), "GB") {
        (text::trim(num.as_str()), GIB)
    } else if n > 0 && (tv[n - 1] == 'M' || tv[n - 1] == 'm') {
        (text::trim(text::string_of(&tv, 0, n - 1).as_str()), MIB)
    } else if let Some(num) = text::strip_suffix(t.as_str(), "MB") {
        (text::trim(num.as_str()), MIB)
    } else if n > 0 && (tv[n - 1] == 'K' || tv[n - 1] == 'k') {
        (text::trim(text::string_of(&tv, 0, n - 1).as_str()), KIB)
    } else if let Some(num) = text::strip_suffix(t.as_str(), "KB") {
        (text::trim(num.as_str()), KIB)
    } else {
        (t, 1)
    }
}

} // verus!
