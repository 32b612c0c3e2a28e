//! What holds of sizes as people read and write them.
#[allow(unused_imports)]
use crate::number::{decimal, lemma_nearest_double, nearest_double, signed_decimal_text};
#[allow(unused_imports)]
use crate::size::{format_bytes, format_size, split_size};
#[allow(unused_imports)]
use crate::text::{has_suffix, trim};
use vstd::prelude::*;

verus! {

/// A number of tenths with one decimal.
pub open spec fn tenths_text(tenths: nat) -> Seq<char> {
    decimal(tenths / 10) + "."@ + decimal(tenths % 10)
}

/// Whether a text says a size in a unit, to the nearest tenth and to the even one of two that
/// are equally near; beyond two to the power of 53 bytes, but for a part in as many.
pub open spec fn says_size(text: Seq<char>, bytes: int, unit: int, name: Seq<char>) -> bool {
    exists|t: nat|
        text == #[trigger] tenths_text(t) + name && ({
            let off = t * unit - bytes * 10;
            &&& bytes < 9007199254740992 ==> -unit <= 2 * off <= unit
            &&& bytes < 9007199254740992 && (2 * off == unit || 2 * off == -unit) ==> t % 2 == 0
            &&& 2 * off * 9007199254740992 <= unit * 9007199254740992 + 20 * bytes
            &&& 2 * off * 9007199254740992 >= -unit * 9007199254740992 - 20 * bytes
        })
}

/// What is rounded is nearest.
proof fn lemma_rounded(bytes: nat, unit: nat)
    requires
        unit == 1024 || unit == 1048576 || unit == 1073741824,
    ensures
        forall|name: Seq<char>|
            says_size(
                #[trigger] (crate::size::in_units(bytes, unit) + name),
                bytes as int,
                unit as int,
                name,
            ),
{
    let d = nearest_double(bytes);
    lemma_nearest_double(bytes);
    let n = d * 10;
    let t = crate::number::rounded_quotient(n, unit);
    assert(crate::size::in_units(bytes, unit) =~= tenths_text(t));
    let q = n / unit;
    let r = n % unit;
    vstd::arithmetic::div_mod::lemma_fundamental_div_mod(n as int, unit as int);
    assert(unit * q == q * unit) by (nonlinear_arith);
    assert((q + 1) * unit == q * unit + unit) by (nonlinear_arith);
    assert(t * unit == n - r || t * unit == n - r + unit);
    let off = t * unit - bytes * 10;
    if bytes < 9007199254740992 {
        assert(d == bytes);
        assert(-unit <= 2 * off <= unit);
    }
    assert(-unit <= 2 * (t * unit - n) <= unit);
    assert forall|name: Seq<char>|
        says_size(
            #[trigger] (crate::size::in_units(bytes, unit) + name),
            bytes as int,
            unit as int,
            name,
        ) by {
        assert(crate::size::in_units(bytes, unit) + name == tenths_text(t) + name);
    }
}

/// Sizes are written in the largest unit that is not larger than they are, with one decimal,
/// and those below a kilobyte in bytes.
pub proof fn law_format_bytes(bytes: u64, res: String)
    requires
        call_ensures(format_bytes, (bytes,), res),
    ensures
        bytes < 1024 ==> res@ == decimal(bytes as nat) + " B"@,
        1024 <= bytes < 1048576 ==> says_size(res@, bytes as int, 1024, " KB"@),
        1048576 <= bytes < 1073741824 ==> says_size(res@, bytes as int, 1048576, " MB"@),
        1073741824 <= bytes ==> says_size(res@, bytes as int, 1073741824, " GB"@),
{
    lemma_rounded(bytes as nat, 1024);
    lemma_rounded(bytes as nat, 1048576);
    lemma_rounded(bytes as nat, 1073741824);
}

/// Sizes on the command line are written as on the dashboard; negative ones in bytes.
pub proof fn law_format_size(
    bytes: i64,
    res: String,
    size: u64,
    shown: String,
    number: String,
)
    requires
        call_ensures(format_size, (bytes,), res),
        call_ensures(format_bytes, (size,), shown),
        call_ensures(signed_decimal_text, (bytes,), number),
    ensures
        size == bytes ==> res@ == shown@,
        bytes < 0 ==> res@ == number@ + " B"@,
{
}

/// A size that is given is a number before its unit: `G` or `GB`, `M` or `MB`, `K` or `KB`;
/// the single letters also in lower case. What has none of them counts bytes.
pub proof fn law_split_size(
    s: &str,
    res: (String, u64),
    bare: String,
    front: &str,
    number: String,
)
    requires
        call_ensures(split_size, (s,), res),
        call_ensures(trim, (s,), bare),
        call_ensures(trim, (front,), number),
    ensures
        ({
            let t = bare@;
            let ends = |c: char, d: char| t.len() > 0 && (t.last() == c || t.last() == d);
            let (giga, mega, kilo) = (
                ends('G', 'g') || has_suffix(t, "GB"@),
                ends('M', 'm') || has_suffix(t, "MB"@),
                ends('K', 'k') || has_suffix(t, "KB"@),
            );
            &&& res.1 == 1073741824 <==> giga
            &&& res.1 == 1048576 <==> mega
            &&& res.1 == 1024 <==> kilo
            &&& res.1 == 1 <==> !giga && !mega && !kilo
            &&& !giga && !mega && !kilo ==> res.0@ == t
            &&& t.len() > 0 && t.last() != 'B' && (giga || mega || kilo) && front@ == t.drop_last()
                ==> res.0@ == number@
            &&& t.len() > 1 && t.last() == 'B' && (giga || mega || kilo) && front@ == t.subrange(
                0,
                t.len() - 2,
            ) ==> res.0@ == number@
        }),
{
    reveal_strlit("GB");
    reveal_strlit("MB");
    reveal_strlit("KB");
    let t = bare@;
    let n = t.len() as int;
    if has_suffix(t, "GB"@) {
        assert(t.subrange(n - 2, n)[0] == 'G' && t.subrange(n - 2, n)[1] == 'B');
    }
    if has_suffix(t, "MB"@) {
        assert(t.subrange(n - 2, n)[0] == 'M' && t.subrange(n - 2, n)[1] == 'B');
    }
    if has_suffix(t, "KB"@) {
        assert(t.subrange(n - 2, n)[0] == 'K' && t.subrange(n - 2, n)[1] == 'B');
    }
}

} // verus!
