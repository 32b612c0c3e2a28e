//! What holds of cache keys.
#[allow(unused_imports)]
use crate::cache::key::{
    by_name, compute_fingerprint, extract_vary_values, fingerprint, fingerprint_bytes, lemma_by_name,
    lower_names, pair_bytes, str_pairs, Pair,
};
#[allow(unused_imports)]
use crate::order::{in_order, lemma_in_order, put_in_order};
#[allow(unused_imports)]
use crate::outside::digest::{hex_text, sha256};
#[allow(unused_imports)]
use crate::text::{lower, pair_views, pieces, trimmed};
use vstd::prelude::*;
#[allow(unused_imports)]
use vstd::utf8::{encode_scalar, encode_utf8};

verus! {

/// Texts one after the other are encoded one after the other.
pub proof fn lemma_encode_both(a: Seq<char>, b: Seq<char>)
    ensures
        encode_utf8(a + b) == encode_utf8(a) + encode_utf8(b),
    decreases a.len(),
{
    if a.len() == 0 {
        assert(a + b =~= b);
        assert(encode_utf8(a) + encode_utf8(b) =~= encode_utf8(b));
    } else {
        assert((a + b).drop_first() =~= a.drop_first() + b);
        lemma_encode_both(a.drop_first(), b);
        assert(encode_scalar(a[0] as u32) + (encode_utf8(a.drop_first()) + encode_utf8(b))
            =~= encode_scalar(a[0] as u32) + encode_utf8(a.drop_first()) + encode_utf8(b));
    }
}

/// Different texts are encoded differently.
pub proof fn lemma_encode_injective(a: Seq<char>, b: Seq<char>)
    requires
        encode_utf8(a) == encode_utf8(b),
    ensures
        a == b,
{
    vstd::utf8::encode_utf8_decode_utf8(a);
    vstd::utf8::encode_utf8_decode_utf8(b);
}

/// An ASCII character is encoded as one byte.
pub proof fn lemma_encode_one(c: char)
    requires
        '\0' <= c <= '\u{7f}',
    ensures
        encode_utf8(seq![c]) == seq![c as u8],
{
    let s = seq![c];
    assert(vstd::utf8::is_ascii_chars(s));
    vstd::utf8::is_ascii_chars_encode_utf8(s);
    assert(encode_utf8(s) =~= seq![c as u8]);
}

/// The text whose encoding the pairs add.
pub open spec fn pair_chars(pairs: Seq<Pair>) -> Seq<char>
    decreases pairs.len(),
{
    if pairs.len() == 0 {
        seq![]
    } else {
        pair_chars(pairs.drop_last()) + seq!['\0'] + (pairs.last().0 + seq!['='] + pairs.last().1)
    }
}

/// What the pairs add is that text.
proof fn lemma_pair_chars(pairs: Seq<Pair>)
    ensures
        encode_utf8(pair_chars(pairs)) == pair_bytes(pairs),
    decreases pairs.len(),
{
    if pairs.len() == 0 {
        assert(encode_utf8(pair_chars(pairs)) =~= pair_bytes(pairs));
    } else {
        let init = pair_chars(pairs.drop_last());
        let (name, value) = pairs.last();
        lemma_pair_chars(pairs.drop_last());
        lemma_encode_one('\0');
        lemma_encode_one('=');
        lemma_encode_both(init, seq!['\0']);
        lemma_encode_both(name, seq!['=']);
        lemma_encode_both(name + seq!['='], value);
        lemma_encode_both(init + seq!['\0'], name + seq!['='] + value);
        assert(encode_utf8(pair_chars(pairs)) =~= pair_bytes(pairs));
    }
}

/// What is hashed is the method, a zero character, the address, and for each header that
/// the response varies on, in the order of the lower-case names, a zero character, the name,
/// an equals sign and the value.
proof fn lemma_hashed_text(method: Seq<char>, url: Seq<char>, vary: Seq<Pair>)
    ensures
        fingerprint_bytes(method, url, vary) == encode_utf8(
            method + seq!['\0'] + url + pair_chars(in_order(lower_names(vary), by_name())),
        ),
{
    let tail = pair_chars(in_order(lower_names(vary), by_name()));
    lemma_pair_chars(in_order(lower_names(vary), by_name()));
    lemma_encode_one('\0');
    lemma_encode_both(method, seq!['\0']);
    lemma_encode_both(method + seq!['\0'], url);
    lemma_encode_both(method + seq!['\0'] + url, tail);
}

/// The fingerprint of a request without headers that the response varies on is the SHA-256
/// digest, in hexadecimal, of the whole method, a zero byte and the whole address; with one
/// such header, of these and a zero byte, the name in lower case, an equals sign and the
/// value.
pub proof fn law_fingerprint_is_digest(
    method: &str,
    url: &str,
    vary: &[(&str, &str)],
    res: String,
)
    requires
        call_ensures(compute_fingerprint, (method, url, vary), res),
    ensures
        vary@.len() == 0 ==> res@ == hex_text(
            sha256(encode_utf8(method@) + seq![0u8] + encode_utf8(url@)),
        ),
        vary@.len() == 1 ==> res@ == hex_text(
            sha256(
                encode_utf8(method@) + seq![0u8] + encode_utf8(url@) + seq![0u8] + encode_utf8(
                    lower(vary@[0].0@),
                ) + seq![61u8] + encode_utf8(vary@[0].1@),
            ),
        ),
{
    let pairs = lower_names(str_pairs(vary@));
    let front = encode_utf8(method@) + seq![0u8] + encode_utf8(url@);
    if vary@.len() == 0 {
        assert(pairs =~= seq![]);
        assert(front + pair_bytes(in_order(pairs, by_name())) =~= front);
    }
    if vary@.len() == 1 {
        let x = (lower(vary@[0].0@), vary@[0].1@);
        assert(pairs =~= seq![x]);
        assert(pairs.drop_last() =~= seq![]);
        assert(in_order(pairs.drop_last(), by_name()) =~= seq![]);
        assert(in_order(pairs, by_name()) =~= seq![x]);
        let sorted = seq![x];
        assert(sorted.drop_last() =~= seq![]);
        reveal_with_fuel(pair_bytes, 2);
        assert(front + pair_bytes(sorted) =~= front + seq![0u8] + encode_utf8(x.0) + seq![61u8]
            + encode_utf8(x.1));
    }
}

/// Where the first zero character stands.
proof fn lemma_first_zero(a: Seq<char>, x: Seq<char>, b: Seq<char>, y: Seq<char>)
    requires
        !a.contains('\0'),
        !b.contains('\0'),
        a + seq!['\0'] + x == b + seq!['\0'] + y,
    ensures
        a == b,
        x == y,
{
    let s = a + seq!['\0'] + x;
    let t = b + seq!['\0'] + y;
    assert(s[a.len() as int] == '\0' && t[b.len() as int] == '\0');
    if a.len() < b.len() {
        assert(b[a.len() as int] == t[a.len() as int]);
        assert(b.contains(b[a.len() as int]));
    }
    if b.len() < a.len() {
        assert(a[b.len() as int] == s[b.len() as int]);
        assert(a.contains(a[b.len() as int]));
    }
    assert(a =~= s.subrange(0, a.len() as int));
    assert(b =~= t.subrange(0, b.len() as int));
    assert(x =~= s.subrange(a.len() as int + 1, s.len() as int));
    assert(y =~= t.subrange(b.len() as int + 1, t.len() as int));
}

/// Where the last zero character stands.
proof fn lemma_last_zero(a: Seq<char>, x: Seq<char>, b: Seq<char>, y: Seq<char>)
    requires
        !x.contains('\0'),
        !y.contains('\0'),
        a + seq!['\0'] + x == b + seq!['\0'] + y,
    ensures
        a == b,
        x == y,
{
    let s = a + seq!['\0'] + x;
    let t = b + seq!['\0'] + y;
    assert(s[a.len() as int] == '\0' && t[b.len() as int] == '\0');
    assert(s.len() == a.len() + 1 + x.len() && t.len() == b.len() + 1 + y.len());
    assert(s == t);
    if a.len() < b.len() {
        let k = b.len() - a.len() - 1;
        assert(x[k] == s[b.len() as int]);
        assert(x.contains(x[k]));
    }
    if b.len() < a.len() {
        let k = a.len() - b.len() - 1;
        assert(y[k] == t[a.len() as int]);
        assert(y.contains(y[k]));
    }
    assert(a =~= s.subrange(0, a.len() as int));
    assert(b =~= t.subrange(0, b.len() as int));
    assert(x =~= s.subrange(a.len() as int + 1, s.len() as int));
    assert(y =~= t.subrange(b.len() as int + 1, t.len() as int));
}

/// What is hashed of a request tells it from all others: the same bytes come from the same
/// method and the same address alone. A method has no zero character in it.
pub proof fn law_requests_are_told_apart(
    method: Seq<char>,
    url: Seq<char>,
    other_method: Seq<char>,
    other_url: Seq<char>,
)
    requires
        !method.contains('\0'),
        !other_method.contains('\0'),
        fingerprint_bytes(method, url, seq![]) == fingerprint_bytes(other_method, other_url, seq![]),
    ensures
        method == other_method,
        url == other_url,
{
    lemma_hashed_text(method, url, seq![]);
    lemma_hashed_text(other_method, other_url, seq![]);
    assert(lower_names(seq![]) =~= seq![]);
    let none = pair_chars(in_order(lower_names(seq![]), by_name()));
    assert(none =~= seq![]);
    assert(method + seq!['\0'] + url + none =~= method + seq!['\0'] + url);
    assert(other_method + seq!['\0'] + other_url + none =~= other_method + seq!['\0'] + other_url);
    lemma_encode_injective(
        method + seq!['\0'] + url,
        other_method + seq!['\0'] + other_url,
    );
    lemma_first_zero(method, url, other_method, other_url);
}

/// Where a pair is put depends on its name alone.
proof fn lemma_put_by_name(a: Seq<Pair>, x: Pair, b: Seq<Pair>, y: Pair)
    requires
        a.len() == b.len(),
        x.0 == y.0,
        forall|i: int| 0 <= i < a.len() ==> (#[trigger] a[i]).0 == b[i].0,
    ensures
        put_in_order(a, x, by_name()).len() == put_in_order(b, y, by_name()).len(),
        forall|i: int|
            0 <= i < put_in_order(a, x, by_name()).len() ==> (#[trigger] put_in_order(
                a,
                x,
                by_name(),
            )[i]).0 == put_in_order(b, y, by_name())[i].0,
    decreases a.len(),
{
    if a.len() > 0 {
        assert(a[a.len() - 1].0 == b[a.len() - 1].0);
        assert(by_name()(a.last(), x) == by_name()(b.last(), y));
        if !by_name()(a.last(), x) {
            let c = a.drop_last();
            let d = b.drop_last();
            assert forall|i: int| 0 <= i < c.len() implies (#[trigger] c[i]).0 == d[i].0 by {
                assert(a[i].0 == b[i].0);
            }
            lemma_put_by_name(c, x, d, y);
        }
    }
}

/// How pairs are sorted depends on their names alone.
proof fn lemma_order_by_name(a: Seq<Pair>, b: Seq<Pair>)
    requires
        a.len() == b.len(),
        forall|i: int| 0 <= i < a.len() ==> (#[trigger] a[i]).0 == b[i].0,
    ensures
        in_order(a, by_name()).len() == in_order(b, by_name()).len(),
        forall|i: int|
            0 <= i < in_order(a, by_name()).len() ==> (#[trigger] in_order(a, by_name())[i]).0
                == in_order(b, by_name())[i].0,
    decreases a.len(),
{
    if a.len() > 0 {
        let c = a.drop_last();
        let d = b.drop_last();
        assert(a[a.len() - 1].0 == b[a.len() - 1].0);
        assert forall|i: int| 0 <= i < c.len() implies (#[trigger] c[i]).0 == d[i].0 by {
            assert(a[i].0 == b[i].0);
        }
        lemma_order_by_name(c, d);
        lemma_put_by_name(in_order(c, by_name()), a.last(), in_order(d, by_name()), b.last());
    }
}

/// Pairs with the same names that add the same text have the same values.
proof fn lemma_same_values(a: Seq<Pair>, b: Seq<Pair>)
    requires
        a.len() == b.len(),
        forall|i: int| 0 <= i < a.len() ==> (#[trigger] a[i]).0 == b[i].0,
        forall|i: int|
            0 <= i < a.len() ==> !(#[trigger] a[i]).0.contains('\0') && !a[i].1.contains('\0')
                && !b[i].1.contains('\0'),
        pair_chars(a) == pair_chars(b),
    ensures
        a == b,
    decreases a.len(),
{
    if a.len() > 0 {
        let c = a.drop_last();
        let d = b.drop_last();
        let n = a.len() - 1;
        assert(a[n].0 == b[n].0);
        let x = a[n].0 + seq!['='] + a[n].1;
        let y = b[n].0 + seq!['='] + b[n].1;
        assert(!x.contains('\0')) by {
            if x.contains('\0') {
                let i = choose|i: int| 0 <= i < x.len() && x[i] == '\0';
                if i < a[n].0.len() {
                    assert(a[n].0.contains(a[n].0[i]));
                } else if i > a[n].0.len() {
                    assert(a[n].1.contains(a[n].1[i - a[n].0.len() - 1]));
                }
            }
        }
        assert(!y.contains('\0')) by {
            if y.contains('\0') {
                let i = choose|i: int| 0 <= i < y.len() && y[i] == '\0';
                if i < b[n].0.len() {
                    assert(a[n].0.contains(a[n].0[i]));
                } else if i > b[n].0.len() {
                    assert(b[n].1.contains(b[n].1[i - b[n].0.len() - 1]));
                }
            }
        }
        lemma_last_zero(pair_chars(c), x, pair_chars(d), y);
        assert(a[n].1 =~= x.subrange(a[n].0.len() as int + 1, x.len() as int));
        assert(b[n].1 =~= y.subrange(b[n].0.len() as int + 1, y.len() as int));
        assert forall|i: int| 0 <= i < c.len() implies (#[trigger] c[i]).0 == d[i].0 && !c[i].0.contains(
            '\0',
        ) && !c[i].1.contains('\0') && !d[i].1.contains('\0') by {
            assert(a[i].0 == b[i].0);
        }
        lemma_same_values(c, d);
        assert(a =~= c.push(a[n]));
        assert(b =~= d.push(b[n]));
    } else {
        assert(a =~= b);
    }
}

/// What is hashed tells requests apart by the values of the headers that a response varies
/// on: with the same names, no two of which are the same in lower case, the same bytes come
/// from the same values alone. Names and values have no zero character in them.
pub proof fn law_values_are_told_apart(
    method: Seq<char>,
    url: Seq<char>,
    one: Seq<Pair>,
    other: Seq<Pair>,
)
    requires
        one.len() == other.len(),
        forall|i: int|
            0 <= i < one.len() ==> (#[trigger] one[i]).0 == other[i].0 && !lower(
                one[i].0,
            ).contains('\0') && !one[i].1.contains('\0') && !other[i].1.contains('\0'),
        forall|i: int, j: int|
            0 <= i < j < one.len() ==> lower((#[trigger] one[i]).0) != lower(
                (#[trigger] one[j]).0,
            ),
        fingerprint_bytes(method, url, one) == fingerprint_bytes(method, url, other),
    ensures
        one == other,
{
    let a = lower_names(one);
    let b = lower_names(other);
    let x = in_order(a, by_name());
    let y = in_order(b, by_name());
    let front = method + seq!['\0'] + url;
    lemma_hashed_text(method, url, one);
    lemma_hashed_text(method, url, other);
    lemma_encode_injective(front + pair_chars(x), front + pair_chars(y));
    let s = front + pair_chars(x);
    let t = front + pair_chars(y);
    assert(pair_chars(x) =~= s.subrange(front.len() as int, s.len() as int));
    assert(pair_chars(y) =~= t.subrange(front.len() as int, t.len() as int));
    assert forall|i: int| 0 <= i < a.len() implies (#[trigger] a[i]).0 == b[i].0 by {
        assert(one[i].0 == other[i].0);
    }
    lemma_order_by_name(a, b);
    lemma_by_name();
    lemma_in_order(a, by_name());
    lemma_in_order(b, by_name());
    crate::order::lemma_in_order_members(a, by_name());
    crate::order::lemma_in_order_members(b, by_name());
    assert forall|i: int| 0 <= i < x.len() implies !(#[trigger] x[i]).0.contains('\0')
        && !x[i].1.contains('\0') && !y[i].1.contains('\0') by {
        assert(x.contains(x[i]));
        assert(y.contains(y[i]));
        let k = choose|k: int| 0 <= k < a.len() && a[k] == x[i];
        let m = choose|m: int| 0 <= m < b.len() && b[m] == y[i];
        assert(one[k].0 == other[k].0);
        assert(one[m].0 == other[m].0);
    }
    lemma_same_values(x, y);
    assert forall|i: int| 0 <= i < one.len() implies one[i] == other[i] by {
        assert(one[i].0 == other[i].0);
        assert(a.contains(a[i]));
        assert(x.contains(a[i]));
        assert(y.contains(a[i]));
        assert(b.contains(a[i]));
        let k = choose|k: int| 0 <= k < b.len() && b[k] == a[i];
        assert(b[k].0 == a[i].0 && b[i].0 == a[i].0);
        if k != i {
            assert(one[k].0 == other[k].0);
            if k < i {
                assert(lower(one[k].0) != lower(one[i].0));
            } else {
                assert(lower(one[i].0) != lower(one[k].0));
            }
        }
    }
    assert(one =~= other);
}

/// The names in a `Vary` header are taken in their order, in lower case and without white
/// space around them, and each has the value of the first request header with its name in
/// any case, or none. For `*` and without the header there are none.
pub proof fn law_vary_values(
    vary: Option<&str>,
    headers: &[(String, String)],
    res: Vec<(String, String)>,
    i: int,
)
    requires
        call_ensures(extract_vary_values, (vary, headers), res),
    ensures
        vary is None ==> res@.len() == 0,
        vary matches Some(v) ==> v@ == seq!['*'] ==> res@.len() == 0,
        vary matches Some(v) ==> v@ != seq!['*'] ==> res@.len() == pieces(v@, ',').len(),
        vary matches Some(v) ==> v@ != seq!['*'] && 0 <= i < res@.len() ==> res@[i].0@ == lower(
            trimmed(pieces(v@, ',')[i]),
        ),
        0 <= i < res@.len() ==> forall|k: int|
            0 <= k < headers@.len() && lower((#[trigger] headers@[k]).0@) == res@[i].0@ && (forall|
                j: int,
            |
                0 <= j < k ==> lower((#[trigger] headers@[j]).0@) != res@[i].0@) ==> res@[i].1@
                == headers@[k].1@,
        0 <= i < res@.len() && (forall|k: int|
            0 <= k < headers@.len() ==> lower((#[trigger] headers@[k]).0@) != res@[i].0@)
            ==> res@[i].1@.len() == 0,
{
    let all = pair_views(res@);
    assert(all.len() == res@.len());
    if 0 <= i < res@.len() {
        assert(all[i] == (res@[i].0@, res@[i].1@));
        let heads = pair_views(headers@);
        let name = res@[i].0@;
        assert(heads.subrange(0, heads.len() as int) =~= heads);
        lemma_value_found(headers@, name, 0);
    }
}

/// The first header with a lower-case name has its value.
proof fn lemma_value_found(headers: Seq<(String, String)>, name: Seq<char>, from: int)
    requires
        0 <= from <= headers.len(),
    ensures
        ({
            let heads = pair_views(headers);
            let value = crate::cache::key::header_value(
                heads.subrange(from, heads.len() as int),
                name,
            );
            &&& forall|k: int|
                from <= k < headers.len() && lower((#[trigger] headers[k]).0@) == name && (forall|
                    j: int,
                |
                    from <= j < k ==> lower((#[trigger] headers[j]).0@) != name) ==> value
                    == headers[k].1@
            &&& (forall|k: int|
                from <= k < headers.len() ==> lower((#[trigger] headers[k]).0@) != name)
                ==> value.len() == 0
        }),
    decreases headers.len() - from,
{
    let heads = pair_views(headers);
    let s = heads.subrange(from, heads.len() as int);
    if from < headers.len() {
        lemma_value_found(headers, name, from + 1);
        assert(s[0] == (headers[from].0@, headers[from].1@));
        assert(s.subrange(1, s.len() as int) =~= heads.subrange(from + 1, heads.len() as int));
        assert forall|k: int|
            from <= k < headers.len() && lower((#[trigger] headers[k]).0@) == name && (forall|
                j: int,
            |
                from <= j < k ==> lower((#[trigger] headers[j]).0@) != name) implies crate::cache::key::header_value(
            s,
            name,
        ) == headers[k].1@ by {
            if k > from {
                assert(lower(headers[from].0@) != name);
            }
        }
    }
}

} // verus!
