//! What holds of searching, splitting and joining text.
#[allow(unused_imports)]
use crate::order::text_leq;
#[allow(unused_imports)]
use crate::text::{
    byte_len, chars_of, contains, cut, ends_with, first_word_of, is_white, is_white_space, join,
    joined, lines, occurs_at, pieces, same, split, split_last, split_once, starts_with, string_of,
    strip_prefix, strip_suffix, to_lower, trim, trimmed_end, trimmed_start, views, word_start,
};
use vstd::prelude::*;

verus! {

/// A text stands in another exactly if the other is something before it, it, and something
/// behind it; at the start with nothing before it, at the end with nothing behind it.
pub proof fn law_search(
    s: &str,
    p: &str,
    before: Seq<char>,
    behind: Seq<char>,
    inside: bool,
    first: bool,
    last: bool,
)
    requires
        call_ensures(contains, (s, p), inside),
        call_ensures(starts_with, (s, p), first),
        call_ensures(ends_with, (s, p), last),
    ensures
        s@ == before + p@ + behind ==> inside,
        s@ == p@ + behind ==> first,
        s@ == before + p@ ==> last,
        inside ==> exists|i: int|
            0 <= i && i + p@.len() <= s@.len() && #[trigger] s@.subrange(i, i + p@.len()) == p@,
        first ==> p@.len() <= s@.len() && s@.subrange(0, p@.len() as int) == p@,
        last ==> p@.len() <= s@.len() && s@.subrange(s@.len() - p@.len(), s@.len() as int) == p@,
{
    if s@ == before + p@ + behind {
        assert(s@.subrange(before.len() as int, (before.len() + p@.len()) as int) =~= p@);
        assert(occurs_at(s@, p@, before.len() as int));
    }
    if s@ == p@ + behind {
        assert(s@.subrange(0, p@.len() as int) =~= p@);
    }
    if s@ == before + p@ {
        assert(s@.subrange(s@.len() - p@.len(), s@.len() as int) =~= p@);
    }
    if inside {
        let i = choose|i: int| #[trigger] occurs_at(s@, p@, i);
        assert(s@.subrange(i, i + p@.len()) == p@);
    }
}

/// Taking a text off the start or the end of another leaves the rest, if it stands there.
pub proof fn law_strip(s: &str, p: &str, front: Option<String>, back: Option<String>)
    requires
        call_ensures(strip_prefix, (s, p), front),
        call_ensures(strip_suffix, (s, p), back),
    ensures
        front matches Some(rest) ==> s@ == p@ + rest@,
        back matches Some(rest) ==> s@ == rest@ + p@,
        front is None ==> p@.len() > s@.len() || s@.subrange(0, p@.len() as int) != p@,
        back is None ==> p@.len() > s@.len() || s@.subrange(
            s@.len() - p@.len(),
            s@.len() as int,
        ) != p@,
{
    if let Some(rest) = front {
        assert(s@ =~= p@ + rest@);
    }
    if let Some(rest) = back {
        assert(s@ =~= rest@ + p@);
    }
}

/// A text is cut at the first place, or before the last, where a character stands.
pub proof fn law_cut(
    s: &str,
    c: char,
    one: Option<(String, String)>,
    last: Option<(String, String)>,
)
    requires
        call_ensures(split_once, (s, c), one),
        call_ensures(split_last, (s, c), last),
    ensures
        one matches Some((a, b)) ==> s@ == a@ + seq![c] + b@ && !a@.contains(c),
        last matches Some((a, b)) ==> s@ == a@ + b@ && b@.len() > 0 && b@[0] == c && !b@.subrange(
            1,
            b@.len() as int,
        ).contains(c),
        one is None <==> !s@.contains(c),
        last is None <==> !s@.contains(c),
{
    s@.index_of_first_ensures(c);
    s@.index_of_last_ensures(c);
    if let Some((a, b)) = one {
        assert(s@ =~= a@ + seq![c] + b@);
        if a@.contains(c) {
            let i = choose|i: int| 0 <= i < a@.len() && a@[i] == c;
            assert(s@[i] == c);
        }
    }
    if let Some((a, b)) = last {
        let tail = b@.subrange(1, b@.len() as int);
        assert(s@ =~= a@ + b@);
        if tail.contains(c) {
            let i = choose|i: int| 0 <= i < tail.len() && tail[i] == c;
            assert(s@[a@.len() + 1 + i] == c);
        }
    }
}

/// The pieces of a text between the places where a character stands do not have the
/// character, and with it between them they are the text again.
pub proof fn law_split(s: &str, c: char, res: Vec<String>, sep: &str, again: String)
    requires
        call_ensures(split, (s, c), res),
        call_ensures(join, (&res, sep), again),
        sep@ == seq![c],
    ensures
        again@ == s@,
        forall|i: int| 0 <= i < res@.len() ==> !(#[trigger] res@[i])@.contains(c),
{
    lemma_pieces(s@, c);
    let all = views(res@);
    assert forall|i: int| 0 <= i < res@.len() implies !(#[trigger] res@[i])@.contains(c) by {
        assert(all[i] == res@[i]@);
        assert(!all[i].contains(c));
    }
}

/// The pieces of a text make it up, with what they were cut at between them.
pub proof fn lemma_pieces(s: Seq<char>, c: char)
    ensures
        joined(pieces(s, c), seq![c]) == s,
        forall|i: int| 0 <= i < pieces(s, c).len() ==> !(#[trigger] pieces(s, c)[i]).contains(c),
        pieces(s, c).len() >= 1,
    decreases s.len(),
{
    s.index_of_first_ensures(c);
    match cut(s, c) {
        Some((head, rest)) => {
            lemma_pieces(rest, c);
            let p = pieces(rest, c);
            assert forall|i: int| 0 <= i < pieces(s, c).len() implies !(
            #[trigger] pieces(s, c)[i]).contains(c) by {
                if i == 0 {
                    if head.contains(c) {
                        let k = choose|k: int| 0 <= k < head.len() && head[k] == c;
                        assert(s[k] == c);
                    }
                } else {
                    assert(pieces(s, c)[i] == p[i - 1]);
                }
            }
            lemma_joined_front(head, p, seq![c]);
            assert(s =~= head + seq![c] + rest);
        },
        None => {
            assert(pieces(s, c)[0] == s);
        },
    }
}

/// Joining with one more part in front.
proof fn lemma_joined_front(x: Seq<char>, p: Seq<Seq<char>>, sep: Seq<char>)
    requires
        p.len() >= 1,
    ensures
        joined(seq![x] + p, sep) == x + sep + joined(p, sep),
    decreases p.len(),
{
    let t = seq![x] + p;
    if p.len() == 1 {
        assert(t.drop_last() =~= seq![x]);
        assert(t.last() == p[0]);
        reveal_with_fuel(joined, 2);
    } else {
        assert(t.drop_last() =~= seq![x] + p.drop_last());
        lemma_joined_front(x, p.drop_last(), sep);
        assert(x + sep + joined(p.drop_last(), sep) + sep + p.last() =~= x + sep + (joined(
            p.drop_last(),
            sep,
        ) + sep + p.last()));
    }
}

/// Parts are joined in their order, with the separator between them and nowhere else.
pub proof fn law_join(
    front: &Vec<String>,
    parts: &Vec<String>,
    sep: &str,
    init: String,
    res: String,
)
    requires
        call_ensures(join, (front, sep), init),
        call_ensures(join, (parts, sep), res),
        parts@.len() > 0,
        front@ == parts@.drop_last(),
    ensures
        parts@.len() == 1 ==> res@ == parts@[0]@,
        parts@.len() > 1 ==> res@ == init@ + sep@ + parts@.last()@,
{
    assert(views(parts@).drop_last() =~= views(front@));
}

/// Trimming takes white space off both ends and nothing else: what is left is in the
/// middle, with white space alone around it, and none at its ends.
pub proof fn law_trim(s: &str, res: String)
    requires
        call_ensures(trim, (s,), res),
    ensures
        exists|i: int|
            0 <= i && i + res@.len() <= s@.len() && #[trigger] s@.subrange(i, i + res@.len()) == res@
                && (forall|k: int| 0 <= k < i ==> is_white(#[trigger] s@[k])) && (forall|k: int|
                i + res@.len() <= k < s@.len() ==> is_white(#[trigger] s@[k])),
        res@.len() > 0 ==> !is_white(res@[0]) && !is_white(res@.last()),
        is_white(' ') && is_white('\t') && is_white('\n') && is_white('\r'),
        forall|c: char| '!' <= c <= '~' ==> !#[trigger] is_white(c),
{
    let a = lemma_trimmed_start(s@);
    let t = trimmed_start(s@);
    lemma_trimmed_end(t);
    let r = trimmed_end(t);
    assert(s@.subrange(a, a + r.len()) =~= r) by {
        assert(t =~= s@.subrange(a, s@.len() as int));
    }
    assert forall|k: int| a + r.len() <= k < s@.len() implies is_white(#[trigger] s@[k]) by {
        assert(t[k - a] == s@[k]);
    }
    if r.len() > 0 {
        assert(r[0] == t[0]);
    }
}

/// Where the white space at the start ends.
proof fn lemma_trimmed_start(s: Seq<char>) -> (i: int)
    ensures
        0 <= i <= s.len(),
        trimmed_start(s) == s.subrange(i, s.len() as int),
        forall|k: int| 0 <= k < i ==> is_white(#[trigger] s[k]),
        i < s.len() ==> !is_white(s[i]),
    decreases s.len(),
{
    if s.len() > 0 && is_white(s[0]) {
        let t = s.subrange(1, s.len() as int);
        let j = lemma_trimmed_start(t);
        assert(t.subrange(j, t.len() as int) =~= s.subrange(j + 1, s.len() as int));
        assert forall|k: int| 0 <= k < j + 1 implies is_white(#[trigger] s[k]) by {
            if k > 0 {
                assert(t[k - 1] == s[k]);
            }
        }
        j + 1
    } else {
        assert(s.subrange(0, s.len() as int) =~= s);
        0
    }
}

/// What is left without the white space at the end.
proof fn lemma_trimmed_end(s: Seq<char>)
    ensures
        trimmed_end(s).len() <= s.len(),
        trimmed_end(s) == s.subrange(0, trimmed_end(s).len() as int),
        forall|k: int| trimmed_end(s).len() <= k < s.len() ==> is_white(#[trigger] s[k]),
        trimmed_end(s).len() > 0 ==> !is_white(trimmed_end(s).last()),
    decreases s.len(),
{
    if s.len() > 0 && is_white(s.last()) {
        lemma_trimmed_end(s.drop_last());
        assert(trimmed_end(s) =~= s.subrange(0, trimmed_end(s).len() as int));
        assert forall|k: int| trimmed_end(s).len() <= k < s.len() implies is_white(
            #[trigger] s[k],
        ) by {
            if k < s.len() - 1 {
                assert(s.drop_last()[k] == s[k]);
            }
        }
    } else {
        assert(s.subrange(0, s.len() as int) =~= s);
    }
}

/// Of ASCII text the capital letters become small ones, and all else stays.
pub proof fn law_lower(s: &str, res: String)
    requires
        call_ensures(to_lower, (s,), res),
        vstd::utf8::is_ascii_chars(s@),
    ensures
        res@.len() == s@.len(),
        forall|i: int|
            0 <= i < s@.len() ==> #[trigger] res@[i] == (if 'A' <= s@[i] <= 'Z' {
                (s@[i] as u32 + 32) as char
            } else {
                s@[i]
            }),
{
}

/// White space are the tab and the control characters up to the carriage return, the space,
/// the next line, and the spaces and separators beyond Latin letters.
pub proof fn law_white_space(c: char, res: bool)
    requires
        call_ensures(is_white_space, (c,), res),
    ensures
        ({
            let n = c as int;
            res <==> 9 <= n <= 13 || n == 32 || n == 0x85 || n == 0xa0 || n == 0x1680 || 0x2000 <= n
                <= 0x200a || n == 0x2028 || n == 0x2029 || n == 0x202f || n == 0x205f || n == 0x3000
        }),
{
}

/// The first word of a text is what stands between white space or its ends, with white space
/// alone before it; without one the text is white space.
pub proof fn law_first_word(s: &str, res: Option<String>)
    requires
        call_ensures(first_word_of, (s,), res),
    ensures
        res is None ==> forall|k: int| 0 <= k < s@.len() ==> is_white(#[trigger] s@[k]),
        res is Some ==> exists|i: int|
            0 <= i && i + res->0@.len() <= s@.len() && #[trigger] s@.subrange(
                i,
                i + res->0@.len(),
            ) == res->0@ && (forall|k: int| 0 <= k < i ==> is_white(#[trigger] s@[k])) && (i
                + res->0@.len() < s@.len() ==> is_white(s@[i + res->0@.len()])),
        res is Some ==> res->0@.len() > 0 && forall|k: int|
            0 <= k < res->0@.len() ==> !is_white(#[trigger] res->0@[k]),
{
    let i = lemma_trimmed_start(s@);
    let t = trimmed_start(s@);
    if t.len() > 0 {
        lemma_word_start(t);
        let w = word_start(t);
        assert(t[0] == s@[i]);
        assert(s@.subrange(i, i + w.len()) =~= w) by {
            assert(t.subrange(0, w.len() as int) =~= s@.subrange(i, i + w.len()));
        }
        if w.len() < t.len() {
            assert(t[w.len() as int] == s@[i + w.len()]);
        }
    }
}

/// A word goes up to white space.
proof fn lemma_word_start(s: Seq<char>)
    ensures
        word_start(s).len() <= s.len(),
        word_start(s) == s.subrange(0, word_start(s).len() as int),
        forall|k: int| 0 <= k < word_start(s).len() ==> !is_white(#[trigger] word_start(s)[k]),
        word_start(s).len() < s.len() ==> is_white(s[word_start(s).len() as int]),
        s.len() > 0 && !is_white(s[0]) ==> word_start(s).len() > 0,
    decreases s.len(),
{
    if s.len() > 0 && !is_white(s[0]) {
        let t = s.subrange(1, s.len() as int);
        lemma_word_start(t);
        let w = word_start(t);
        assert(word_start(s) =~= seq![s[0]] + w);
        assert(word_start(s) =~= s.subrange(0, word_start(s).len() as int)) by {
            assert(w =~= t.subrange(0, w.len() as int));
            assert forall|k: int| 0 <= k < w.len() implies w[k] == s[k + 1] by {
                assert(t.subrange(0, w.len() as int)[k] == t[k]);
            }
        }
        assert forall|k: int| 0 <= k < word_start(s).len() implies !is_white(
            #[trigger] word_start(s)[k],
        ) by {
            if k > 0 {
                assert(word_start(s)[k] == w[k - 1]);
            }
        }
    } else {
        assert(s.subrange(0, 0) =~= word_start(s));
    }
}

/// A text has the line before its first line feed, without a carriage return there, and then
/// the lines of the rest; without a line feed it is one line, and an empty text has none.
pub proof fn law_lines(
    s: &str,
    res: Vec<String>,
    line: Seq<char>,
    rest: &str,
    others: Vec<String>,
)
    requires
        call_ensures(lines, (s,), res),
        call_ensures(lines, (rest,), others),
    ensures
        s@.len() == 0 ==> res@.len() == 0,
        s@.len() > 0 && !s@.contains('\n') ==> views(res@) == seq![s@],
        !line.contains('\n') && (line.len() == 0 || line.last() != '\r') && (s@ == line + seq![
            '\n',
        ] + rest@ || s@ == (line + seq!['\r']) + seq!['\n'] + rest@) ==> views(res@) == seq![line]
            + views(others@),
{
    assert(views(res@).len() == res@.len());
    if !s@.contains('\n') {
        s@.index_of_first_ensures('\n');
    }
    if !line.contains('\n') && (line.len() == 0 || line.last() != '\r') {
        if s@ == line + seq!['\n'] + rest@ {
            crate::cache::content_range::lemma_cut_between(line, '\n', rest@);
        } else if s@ == (line + seq!['\r']) + seq!['\n'] + rest@ {
            let l = line + seq!['\r'];
            assert(!l.contains('\n')) by {
                if l.contains('\n') {
                    let k = choose|k: int| 0 <= k < l.len() && l[k] == '\n';
                    assert(line[k] == '\n');
                }
            }
            crate::cache::content_range::lemma_cut_between(l, '\n', rest@);
            assert(l.drop_last() =~= line);
        }
    }
}

/// Texts are equal if they have the same characters; a text has as many bytes as it is
/// written with, and its characters make it again.
pub proof fn law_characters(
    a: &str,
    b: &str,
    equal: bool,
    bytes: usize,
    chars: Vec<char>,
    again: String,
)
    requires
        call_ensures(same, (a, b), equal),
        call_ensures(byte_len, (a,), bytes),
        call_ensures(chars_of, (a,), chars),
        chars@.len() <= usize::MAX,
        call_ensures(string_of, (&chars, 0usize, chars@.len() as usize), again),
    ensures
        equal <==> a@ == b@,
        bytes == vstd::utf8::encode_utf8(a@).len(),
        chars@ == a@,
        again@ == a@,
{
    assert(chars@.subrange(0, chars@.len() as int) =~= chars@);
}

/// Texts are in order by the first character in which they differ, and a text comes after
/// its own beginnings.
pub proof fn law_text_before(a: &str, b: &str, res: bool, k: int)
    requires
        call_ensures(crate::order::text_before, (a, b), res),
        0 <= k <= a@.len(),
        k <= b@.len(),
        forall|i: int| 0 <= i < k ==> #[trigger] a@[i] == b@[i],
    ensures
        k == a@.len() ==> res,
        k == b@.len() && k < a@.len() ==> !res,
        k < a@.len() && k < b@.len() && a@[k] < b@[k] ==> res,
        k < a@.len() && k < b@.len() && a@[k] > b@[k] ==> !res,
{
    lemma_text_leq_at(a@, b@, k);
}

/// The order of texts by the character in which they differ.
proof fn lemma_text_leq_at(a: Seq<char>, b: Seq<char>, k: int)
    requires
        0 <= k <= a.len(),
        k <= b.len(),
        forall|i: int| 0 <= i < k ==> #[trigger] a[i] == b[i],
    ensures
        k == a.len() ==> text_leq(a, b),
        k == b.len() && k < a.len() ==> !text_leq(a, b),
        k < a.len() && k < b.len() && a[k] < b[k] ==> text_leq(a, b),
        k < a.len() && k < b.len() && a[k] > b[k] ==> !text_leq(a, b),
    decreases k,
{
    if k > 0 {
        let s = a.subrange(1, a.len() as int);
        let t = b.subrange(1, b.len() as int);
        assert(a[0] == b[0]);
        assert forall|i: int| 0 <= i < k - 1 implies #[trigger] s[i] == t[i] by {
            assert(a[i + 1] == b[i + 1]);
        }
        lemma_text_leq_at(s, t, k - 1);
    }
}

} // verus!
