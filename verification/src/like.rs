//! Matching text against patterns with wildcards.
use crate::text::{chars_of, split_once};
#[allow(unused_imports)]
use crate::text::{ascii_lower, cut};
use vstd::prelude::*;

verus! {

/// The longest pattern, in bytes.
pub const LONGEST_PATTERN: usize = 50_000;

/// Whether `s` matches the pattern: a percent sign stands for any text, an underscore
/// for any character, and all else for itself, ASCII letters in either case.
pub open spec fn like(pattern: Seq<char>, s: Seq<char>) -> bool
    decreases pattern.len() + s.len(),
{
    if pattern.len() == 0 {
        s.len() == 0
    } else if pattern[0] == '%' {
        like(pattern.skip(1), s) || s.len() > 0 && like(pattern, s.skip(1))
    } else {
        s.len() > 0 && (pattern[0] == '_' || ascii_lower(pattern[0]) == ascii_lower(s[0])) && like(
            pattern.skip(1),
            s.skip(1),
        )
    }
}

/// A text up to its first zero character.
pub open spec fn before_zero(s: Seq<char>) -> Seq<char> {
    match cut(s, '\0') {
        Some((head, _)) => head,
        None => s,
    }
}

/// The pattern for a text anywhere in another.
pub open spec fn anywhere(query: Seq<char>) -> Seq<char> {
    seq!['%'] + query + seq!['%']
}

/// Whether `query`, taken as a pattern, matches some part of `s`.
pub open spec fn matches_part(query: Seq<char>, s: Seq<char>) -> bool {
    like(before_zero(anywhere(query)), before_zero(s))
}

/// A letter in lower case, if it is an ASCII letter.
fn lower(c: char) -> (res: char)
    ensures
        res == ascii_lower(c),
{
    if 'A' <= c && c <= 'Z' {
        ((c as u8) + 32) as char
    } else {
        c
    }
}

/// Whether `s` matches the pattern.
pub fn is_like(pattern: &str, s: &str) -> (res: bool)
    ensures
        res == like(pattern@, s@),
{
    let p = chars_of(pattern);
    let v = chars_of(s);
    let n: usize = p.len();
    let m: usize = v.len();
    let mut row: Vec<bool> = Vec::new();
    let mut j: usize = 0;
    while j < m
        invariant
            j <= m == v@.len(),
            row@.len() == j,
            forall|k: int| 0 <= k < j ==> !#[trigger] row@[k],
        decreases m - j,
    {
        row.push(false);
        j += 1;
    }
    row.push(true);
    let mut i: usize = n;
    assert forall|k: int| 0 <= k <= m implies #[trigger] row@[k] == like(
        p@.skip(n as int),
        v@.skip(k),
    ) by {}
    while i > 0
        invariant
            i <= n == p@.len(),
            m == v@.len(),
            row@.len() == m + 1,
            p@ == pattern@,
            v@ == s@,
            forall|k: int|
                0 <= k <= m ==> #[trigger] row@[k] == like(p@.skip(i as int), v@.skip(k)),
        decreases i,
    {
        i -= 1;
        let c = p[i];
        let ghost here = p@.skip(i as int);
        let ghost next = p@.skip(i + 1);
        assert(here.skip(1) =~= next);
        if c == '%' {
            let mut j: usize = m;
            while j > 0
                invariant
                    j <= m == v@.len(),
                    row@.len() == m + 1,
                    here.len() > 0,
                    here[0] == '%',
                    here.skip(1) == next,
                    forall|k: int| 0 <= k < j ==> #[trigger] row@[k] == like(next, v@.skip(k)),
                    forall|k: int| j <= k <= m ==> #[trigger] row@[k] == like(here, v@.skip(k)),
                decreases j,
            {
                j -= 1;
                assert(v@.skip(j as int).skip(1) =~= v@.skip(j + 1));
                if !row[j] && row[j + 1] {
                    row.set(j, true);
                }
            }
        } else {
            let d = lower(c);
            let mut j: usize = 0;
            while j < m
                invariant
                    j <= m == v@.len(),
                    row@.len() == m + 1,
                    here.len() > 0,
                    here[0] == c,
                    c != '%',
                    d == ascii_lower(c),
                    here.skip(1) == next,
                    forall|k: int| 0 <= k < j ==> #[trigger] row@[k] == like(here, v@.skip(k)),
                    forall|k: int| j <= k <= m ==> #[trigger] row@[k] == like(next, v@.skip(k)),
                decreases m - j,
            {
                assert(v@.skip(j as int).skip(1) =~= v@.skip(j + 1));
                assert(v@.skip(j as int)[0] == v@[j as int]);
                let hit: bool = row[j + 1] && (c == '_' || d == lower(v[j]));
                row.set(j, hit);
                j += 1;
            }
            row.set(m, false);
        }
    }
    assert(p@.skip(0) =~= pattern@);
    assert(v@.skip(0) =~= s@);
    row[0]
}

/// Whether `query`, taken as a pattern, matches some part of `s`.
pub fn part_is_like(query: &str, s: &str) -> (res: bool)
    ensures
        res == matches_part(query@, s@),
{
    let mut pattern: String = String::new();
    pattern.push('%');
    pattern.append(query);
    pattern.push('%');
    assert(pattern@ =~= anywhere(query@));
    let p = match split_once(pattern.as_str(), '\0') {
        Some((head, _)) => head,
        None => pattern,
    };
    match split_once(s, '\0') {
        Some((head, _)) => is_like(p.as_str(), head.as_str()),
        None => is_like(p.as_str(), s),
    }
}

/// Whether `query` stands in `s` at `i`, ASCII letters in either case.
pub open spec fn stands_at(query: Seq<char>, s: Seq<char>, i: int) -> bool {
    0 <= i && i + query.len() <= s.len() && forall|k: int|
        0 <= k < query.len() ==> ascii_lower(#[trigger] query[k]) == ascii_lower(s[i + k])
}

/// A pattern that ends in a percent sign and has no other wildcard matches the texts
/// that begin with it.
proof fn lemma_at_start(query: Seq<char>, s: Seq<char>)
    requires
        !query.contains('%') && !query.contains('_'),
    ensures
        like(query + seq!['%'], s) == stands_at(query, s, 0),
    decreases query.len() + s.len(),
{
    let q = query + seq!['%'];
    if query.len() == 0 {
        reveal_with_fuel(like, 2);
        assert(q.skip(1) =~= seq![]);
        if s.len() > 0 {
            lemma_at_start(query, s.skip(1));
        }
    } else {
        assert(query.contains(query[0]));
        assert(q[0] == query[0]);
        assert(q.skip(1) =~= query.skip(1) + seq!['%']);
        assert forall|c: char| query.skip(1).contains(c) implies query.contains(c) by {
            let k = choose|k: int| 0 <= k < query.skip(1).len() && query.skip(1)[k] == c;
            assert(query[k + 1] == c);
        }
        if s.len() > 0 {
            lemma_at_start(query.skip(1), s.skip(1));
            if stands_at(query, s, 0) {
                assert forall|k: int| 0 <= k < query.skip(1).len() implies ascii_lower(
                    #[trigger] query.skip(1)[k],
                ) == ascii_lower(s.skip(1)[0 + k]) by {
                    assert(query.skip(1)[k] == query[k + 1]);
                }
            }
            if stands_at(query.skip(1), s.skip(1), 0) && ascii_lower(query[0]) == ascii_lower(
                s[0],
            ) {
                assert forall|k: int| 0 <= k < query.len() implies ascii_lower(#[trigger] query[k])
                    == ascii_lower(s[0 + k]) by {
                    if k > 0 {
                        assert(query.skip(1)[k - 1] == query[k]);
                    }
                }
            }
        }
    }
}

/// A query without wildcards matches the texts that contain it, ASCII letters in
/// either case.
pub proof fn law_plain_query(query: Seq<char>, s: Seq<char>)
    requires
        !query.contains('%') && !query.contains('_'),
    ensures
        like(anywhere(query), s) == exists|i: int| #[trigger] stands_at(query, s, i),
    decreases s.len(),
{
    let q = query + seq!['%'];
    assert(anywhere(query).skip(1) =~= q);
    lemma_at_start(query, s);
    if s.len() > 0 {
        let t = s.skip(1);
        law_plain_query(query, t);
        assert forall|i: int| #[trigger] stands_at(query, t, i) implies stands_at(
            query,
            s,
            i + 1,
        ) by {
            assert forall|k: int| 0 <= k < query.len() implies ascii_lower(#[trigger] query[k])
                == ascii_lower(s[i + 1 + k]) by {
                assert(t[i + k] == s[i + k + 1]);
            }
        }
        assert forall|i: int| i > 0 && #[trigger] stands_at(query, s, i) implies stands_at(
            query,
            t,
            i - 1,
        ) by {
            assert forall|k: int| 0 <= k < query.len() implies ascii_lower(#[trigger] query[k])
                == ascii_lower(t[i - 1 + k]) by {
                assert(t[i - 1 + k] == s[i + k]);
            }
        }
        if like(anywhere(query), s) {
            if like(q, s) {
                assert(stands_at(query, s, 0));
            } else {
                let i = choose|i: int| #[trigger] stands_at(query, t, i);
                assert(stands_at(query, s, i + 1));
            }
        }
        if exists|i: int| #[trigger] stands_at(query, s, i) {
            let i = choose|i: int| #[trigger] stands_at(query, s, i);
            if i > 0 {
                assert(stands_at(query, t, i - 1));
            }
        }
    } else {
        if exists|i: int| #[trigger] stands_at(query, s, i) {
            let i = choose|i: int| #[trigger] stands_at(query, s, i);
            assert(i == 0);
        }
    }
}

/// Whether two characters are the same, ASCII letters in either case.
pub open spec fn same_letter(a: char, b: char) -> bool {
    ||| a == b
    ||| 'A' <= a <= 'Z' && b as int == a as int + 32
    ||| 'A' <= b <= 'Z' && a as int == b as int + 32
}

/// Letters are the same if they are in lower case.
proof fn lemma_same_letter(a: char, b: char)
    ensures
        same_letter(a, b) <==> ascii_lower(a) == ascii_lower(b),
{
}

/// A pattern matches a text character by character: the empty one only the empty text; a
/// percent sign whatever what follows it matches, from there or from further on; an
/// underscore any one character; and all else itself, ASCII letters in either case.
pub proof fn law_like(
    pattern: &str,
    s: &str,
    res: bool,
    next: &str,
    rest: &str,
    next_here: bool,
    here_on: bool,
    next_on: bool,
)
    requires
        call_ensures(is_like, (pattern, s), res),
        next@ == pattern@.skip(1),
        rest@ == s@.skip(1),
        call_ensures(is_like, (next, s), next_here),
        call_ensures(is_like, (pattern, rest), here_on),
        call_ensures(is_like, (next, rest), next_on),
    ensures
        pattern@.len() == 0 ==> (res <==> s@.len() == 0),
        pattern@.len() > 0 && pattern@[0] == '%' ==> (res <==> next_here || (s@.len() > 0
            && here_on)),
        pattern@.len() > 0 && pattern@[0] == '_' ==> (res <==> s@.len() > 0 && next_on),
        pattern@.len() > 0 && pattern@[0] != '%' && pattern@[0] != '_' ==> (res <==> s@.len() > 0
            && same_letter(pattern@[0], s@[0]) && next_on),
{
    if pattern@.len() > 0 && s@.len() > 0 {
        lemma_same_letter(pattern@[0], s@[0]);
    }
}

/// A search looks for the query as a pattern anywhere in a text, up to a zero character in
/// either.
pub proof fn law_part(
    query: &str,
    s: &str,
    res: bool,
    pattern: &str,
    text: &str,
    found: bool,
    behind: Seq<char>,
    tail: Seq<char>,
)
    requires
        call_ensures(part_is_like, (query, s), res),
        call_ensures(is_like, (pattern, text), found),
        !query@.contains('\0') ==> pattern@ == seq!['%'] + query@ + seq!['%'],
        query@.contains('\0') ==> !pattern@.contains('\0') && seq!['%'] + query@ == pattern@ + seq![
            '\0',
        ] + behind,
        !s@.contains('\0') ==> text@ == s@,
        s@.contains('\0') ==> !text@.contains('\0') && s@ == text@ + seq!['\0'] + tail,
    ensures
        res == found,
{
    let q = anywhere(query@);
    if query@.contains('\0') {
        assert(q =~= pattern@ + seq!['\0'] + (behind + seq!['%']));
        crate::cache::content_range::lemma_cut_between(pattern@, '\0', behind + seq!['%']);
    } else {
        assert(!q.contains('\0')) by {
            if q.contains('\0') {
                let k = choose|k: int| 0 <= k < q.len() && q[k] == '\0';
                assert(query@[k - 1] == '\0');
            }
        }
        lemma_no_cut(q);
    }
    if s@.contains('\0') {
        crate::cache::content_range::lemma_cut_between(text@, '\0', tail);
    } else {
        lemma_no_cut(s@);
    }
}

/// A text without a zero character is whole.
proof fn lemma_no_cut(s: Seq<char>)
    requires
        !s.contains('\0'),
    ensures
        before_zero(s) == s,
{
    s.index_of_first_ensures('\0');
}

/// A query without wildcards is found where it stands, ASCII letters in either case.
pub proof fn law_plain_part(query: &str, s: &str, res: bool)
    requires
        call_ensures(part_is_like, (query, s), res),
        !query@.contains('%') && !query@.contains('_') && !query@.contains('\0'),
        !s@.contains('\0'),
    ensures
        res <==> exists|i: int| #[trigger]
            has_length(s@, i, query@.len()) && forall|k: int|
                0 <= k < query@.len() ==> same_letter(#[trigger] query@[k], s@[i + k]),
{
    let q = anywhere(query@);
    assert(!q.contains('\0')) by {
        if q.contains('\0') {
            let k = choose|k: int| 0 <= k < q.len() && q[k] == '\0';
            assert(query@[k - 1] == '\0');
        }
    }
    lemma_no_cut(q);
    lemma_no_cut(s@);
    law_plain_query(query@, s@);
    assert forall|a: char, b: char|
        same_letter(a, b) <==> #[trigger] ascii_lower(a) == #[trigger] ascii_lower(b) by {
        lemma_same_letter(a, b);
    }
    if res {
        let i = choose|i: int| #[trigger] stands_at(query@, s@, i);
        assert(has_length(s@, i, query@.len()));
        assert forall|k: int| 0 <= k < query@.len() implies same_letter(
            #[trigger] query@[k],
            s@[i + k],
        ) by {
            assert(ascii_lower(query@[k]) == ascii_lower(s@[i + k]));
        }
    }
    if exists|i: int| #[trigger]
        has_length(s@, i, query@.len()) && forall|k: int|
            0 <= k < query@.len() ==> same_letter(#[trigger] query@[k], s@[i + k]) {
        let i = choose|i: int| #[trigger]
            has_length(s@, i, query@.len()) && forall|k: int|
                0 <= k < query@.len() ==> same_letter(#[trigger] query@[k], s@[i + k]);
        assert forall|k: int| 0 <= k < query@.len() implies ascii_lower(#[trigger] query@[k])
            == ascii_lower(s@[i + k]) by {
            lemma_same_letter(query@[k], s@[i + k]);
        }
        assert(stands_at(query@, s@, i));
    }
}

/// Whether a text has a number of characters from a place on.
pub open spec fn has_length(s: Seq<char>, from: int, len: nat) -> bool {
    0 <= from && from + len <= s.len()
}

} // verus!
