//! The `Range` and `Content-Range` headers.
use crate::number::{decimal_text, parse_u64};
#[allow(unused_imports)]
use crate::number::{all_digits, decimal, is_digit, lemma_decimal_unsigned, unsigned};
use crate::text::{same, split_once, strip_prefix, trim};
#[allow(unused_imports)]
use crate::text::{after_prefix, cut, is_white, lemma_first, trimmed, trimmed_end, trimmed_start};
use vstd::prelude::*;

verus! {

/// The range of bytes in a response, and the size of the whole, if it is known.
#[derive(Debug, Clone, Copy, PartialEq, Eq, Structural)]
pub struct ContentRange {
    pub start: u64,
    pub end: u64,
    pub total: Option<u64>,
}

/// The number that a text writes, white space around it aside.
pub open spec fn number_in(s: Seq<char>) -> Option<u64> {
    match unsigned(trimmed(s), u64::MAX as nat) {
        Some(n) => Some(n as u64),
        None => None,
    }
}

/// The range that a text like `0-1023` writes, with no end for `1024-`.
pub open spec fn open_range(s: Seq<char>) -> Option<(u64, Option<u64>)> {
    match cut(s, '-') {
        None => None,
        Some((a, b)) => match number_in(a) {
            None => None,
            Some(start) => if trimmed(b).len() == 0 {
                Some((start, None))
            } else {
                match number_in(b) {
                    None => None,
                    Some(end) => Some((start, Some(end))),
                }
            },
        },
    }
}

/// What a `Content-Range` header says: `bytes 0-1023/4096` or `bytes 0-1023/*`.
pub open spec fn content_range(header: Seq<char>) -> Option<ContentRange> {
    match after_prefix(header, "bytes "@) {
        None => None,
        Some(s) => match cut(s, '/') {
            None => None,
            Some((range, total)) => match cut(range, '-') {
                None => None,
                Some((a, b)) => if number_in(a) is None || number_in(b) is None {
                    None
                } else if trimmed(total) == seq!['*'] {
                    Some(
                        ContentRange { start: number_in(a)->0, end: number_in(b)->0, total: None },
                    )
                } else if number_in(total) is None {
                    None
                } else {
                    Some(
                        ContentRange {
                            start: number_in(a)->0,
                            end: number_in(b)->0,
                            total: number_in(total),
                        },
                    )
                },
            },
        },
    }
}

/// What a `Range` header says: `bytes=0-1023` or `bytes=1024-`.
pub open spec fn requested_range(header: Seq<char>) -> Option<(u64, Option<u64>)> {
    match after_prefix(header, "bytes="@) {
        None => None,
        Some(s) => open_range(s),
    }
}

/// The number that a text writes, white space around it aside.
fn parse_number(s: &str) -> (res: Option<u64>)
    ensures
        res == number_in(s@),
{
    parse_u64(trim(s).as_str())
}

impl ContentRange {
    /// What a `Content-Range` header says.
    pub fn parse(header: &str) -> (res: Option<ContentRange>)
        ensures
            res == content_range(header@),
    {
        let s = strip_prefix(header, "bytes ")?;
        let (range, total) = split_once(s.as_str(), '/')?;
        let (a, b) = split_once(range.as_str(), '-')?;
        let start = parse_number(a.as_str())?;
        let end = parse_number(b.as_str())?;
        proof {
            reveal_strlit("*");
            assert("*"@ =~= seq!['*']);
        }
        if same(trim(total.as_str()).as_str(), "*") {
            Some(ContentRange { start, end, total: None })
        } else {
            let n = parse_number(total.as_str())?;
            Some(ContentRange { start, end, total: Some(n) })
        }
    }
}

/// What a `Range` header says: the first byte that is asked for and the last one, if
/// there is one.
pub fn parse_range_header(header: &str) -> (res: Option<(u64, Option<u64>)>)
    ensures
        res == requested_range(header@),
{
    let s = strip_prefix(header, "bytes=")?;
    let (a, b) = split_once(s.as_str(), '-')?;
    let start = parse_number(a.as_str())?;
    if trim(b.as_str()).as_str().is_empty() {
        Some((start, None))
    } else {
        let end = parse_number(b.as_str())?;
        Some((start, Some(end)))
    }
}

/// The `Content-Range` header for a range.
pub open spec fn range_text(range: ContentRange) -> Seq<char> {
    "bytes "@ + decimal(range.start as nat) + "-"@ + decimal(range.end as nat) + "/"@ + match range.total {
        Some(t) => decimal(t as nat),
        None => "*"@,
    }
}

/// The `Content-Range` header for a range.
pub fn content_range_text(range: &ContentRange) -> (res: String)
    ensures
        res@ == range_text(*range),
{
    let mut res: String = "bytes ".to_owned();
    res.append(decimal_text(range.start).as_str());
    res.append("-");
    res.append(decimal_text(range.end).as_str());
    res.append("/");
    match range.total {
        Some(t) => res.append(decimal_text(t).as_str()),
        None => res.append("*"),
    }
    res
}

/// Digits have no white space around them.
proof fn lemma_digits_trimmed(d: Seq<char>)
    requires
        d.len() > 0,
        all_digits(d),
    ensures
        trimmed(d) == d,
{
    assert(is_digit(d[0]));
    assert(is_digit(d[d.len() - 1]));
    assert(!is_white(d[0]) && !is_white(d.last()));
    assert(trimmed_start(d) == d);
    assert(trimmed_end(d) == d);
}

/// The decimal digits of a number write it.
proof fn lemma_number_in_decimal(n: u64)
    ensures
        number_in(decimal(n as nat)) == Some(n),
        decimal(n as nat).len() > 0,
        forall|i: int|
            0 <= i < decimal(n as nat).len() ==> is_digit(#[trigger] decimal(n as nat)[i]),
{
    crate::number::lemma_decimal_reads_back(n as nat);
    lemma_decimal_unsigned(n as nat, u64::MAX as nat);
    lemma_digits_trimmed(decimal(n as nat));
}

/// A text that is cut at the only place where a character stands.
pub proof fn lemma_cut_between(a: Seq<char>, c: char, b: Seq<char>)
    requires
        !a.contains(c),
    ensures
        cut(a + seq![c] + b, c) == Some((a, b)),
{
    let s = a + seq![c] + b;
    assert forall|j: int| 0 <= j < a.len() implies s[j] != c by {
        assert(s[j] == a[j]);
        assert(a.contains(a[j]));
    }
    lemma_first(s, c, a.len() as int);
    assert(s.subrange(0, a.len() as int) =~= a);
    assert(s.subrange(a.len() as int + 1, s.len() as int) =~= b);
}

/// Reading the `Content-Range` header of a range gives the range back.
pub proof fn law_range_reads_back(range: ContentRange)
    ensures
        content_range(range_text(range)) == Some(range),
{
    reveal_strlit("bytes ");
    reveal_strlit("-");
    reveal_strlit("/");
    reveal_strlit("*");
    let a = decimal(range.start as nat);
    let b = decimal(range.end as nat);
    let t = match range.total {
        Some(t) => decimal(t as nat),
        None => "*"@,
    };
    lemma_number_in_decimal(range.start);
    lemma_number_in_decimal(range.end);
    let rest = a + seq!['-'] + b + seq!['/'] + t;
    assert(range_text(range) =~= "bytes "@ + rest);
    assert(range_text(range).subrange(0, 6) =~= "bytes "@);
    assert(range_text(range).subrange(6, range_text(range).len() as int) =~= rest);
    assert(after_prefix(range_text(range), "bytes "@) == Some(rest));
    let ab = a + seq!['-'] + b;
    assert(!ab.contains('/')) by {
        if ab.contains('/') {
            let i = choose|i: int| 0 <= i < ab.len() && ab[i] == '/';
            if i < a.len() {
                assert(is_digit(a[i]));
            } else if i > a.len() {
                assert(is_digit(b[i - a.len() - 1]));
            }
        }
    }
    assert(!a.contains('-')) by {
        if a.contains('-') {
            let i = choose|i: int| 0 <= i < a.len() && a[i] == '-';
            assert(is_digit(a[i]));
        }
    }
    lemma_cut_between(ab, '/', t);
    assert(rest =~= ab + seq!['/'] + t);
    lemma_cut_between(a, '-', b);
    match range.total {
        Some(n) => {
            lemma_number_in_decimal(n);
            crate::number::lemma_decimal_reads_back(n as nat);
            lemma_digits_trimmed(t);
            assert(is_digit(t[0]));
            assert(trimmed(t) != seq!['*']) by {
                assert(t[0] != '*');
                assert(seq!['*'][0] == '*');
            }
        },
        None => {
            assert(t =~= seq!['*']);
            assert(trimmed_start(t) == t);
            assert(trimmed_end(t) == t);
        },
    }
}

/// `bytes=` and two numbers with a hyphen between them asks for the bytes from the first to
/// the last; without the last number, for all from the first on; and nothing that does not
/// begin with `bytes=` asks for a range.
pub proof fn law_asked_range(
    start: u64,
    end: u64,
    first: String,
    last: String,
    header: &str,
    res: Option<(u64, Option<u64>)>,
)
    requires
        call_ensures(decimal_text, (start,), first),
        call_ensures(decimal_text, (end,), last),
        call_ensures(parse_range_header, (header,), res),
    ensures
        header@ == "bytes="@ + first@ + "-"@ + last@ ==> res == Some((start, Some(end))),
        header@ == "bytes="@ + first@ + "-"@ ==> res == Some((start, None::<u64>)),
        header@.len() < 6 || header@.subrange(0, 6) != "bytes="@ ==> res is None,
{
    reveal_strlit("bytes=");
    reveal_strlit("-");
    let a = decimal(start as nat);
    let b = decimal(end as nat);
    lemma_number_in_decimal(start);
    lemma_number_in_decimal(end);
    assert("-"@ =~= seq!['-']);
    assert(!a.contains('-')) by {
        if a.contains('-') {
            let i = choose|i: int| 0 <= i < a.len() && a[i] == '-';
            assert(is_digit(a[i]));
        }
    }
    lemma_cut_between(a, '-', b);
    lemma_cut_between(a, '-', seq![]);
    let one = a + seq!['-'] + b;
    let two = a + seq!['-'] + seq![];
    if header@ == "bytes="@ + a + "-"@ + b {
        assert(header@.subrange(0, 6) =~= "bytes="@);
        assert(header@.subrange(6, header@.len() as int) =~= one);
        crate::number::lemma_decimal_reads_back(end as nat);
        lemma_digits_trimmed(b);
    }
    if header@ == "bytes="@ + a + "-"@ {
        assert(header@.subrange(0, 6) =~= "bytes="@);
        assert(header@.subrange(6, header@.len() as int) =~= two);
        assert(trimmed(Seq::<char>::empty()) =~= seq![]);
    }
}

/// `bytes `, two numbers with a hyphen between them, a slash and the size of the whole say
/// which bytes a response has; with an asterisk for the size, it is not known; and nothing
/// that does not begin with `bytes ` says so.
pub proof fn law_said_range(
    range: ContentRange,
    first: String,
    last: String,
    size: String,
    header: &str,
    res: Option<ContentRange>,
)
    requires
        call_ensures(decimal_text, (range.start,), first),
        call_ensures(decimal_text, (range.end,), last),
        range.total matches Some(t) ==> call_ensures(decimal_text, (t,), size),
        range.total is None ==> size@ == "*"@,
        call_ensures(ContentRange::parse, (header,), res),
    ensures
        header@ == "bytes "@ + first@ + "-"@ + last@ + "/"@ + size@ ==> res == Some(range),
        header@.len() < 6 || header@.subrange(0, 6) != "bytes "@ ==> res is None,
{
    reveal_strlit("bytes ");
    law_range_reads_back(range);
}

/// The header for a range is `bytes `, the two bounds with a hyphen between them, a slash
/// and the size, or an asterisk.
pub proof fn law_range_header(
    range: &ContentRange,
    first: String,
    last: String,
    size: String,
    res: String,
)
    requires
        call_ensures(decimal_text, (range.start,), first),
        call_ensures(decimal_text, (range.end,), last),
        range.total matches Some(t) ==> call_ensures(decimal_text, (t,), size),
        range.total is None ==> size@ == "*"@,
        call_ensures(content_range_text, (range,), res),
    ensures
        res@ == "bytes "@ + first@ + "-"@ + last@ + "/"@ + size@,
{
}

} // verus!
