//! Strings as sequences of characters: searching, cutting and trimming.
//!
//! Every function is stated over the character sequence of its arguments. The
//! spec functions below are the vocabulary that the other modules use.
use vstd::prelude::*;

verus! {

broadcast use vstd::string::group_string_axioms;

/// `String::push` of the standard library: it appends one character.
pub assume_specification[ String::push ](s: &mut String, c: char)
    ensures
        final(s)@ == old(s)@.push(c),
;

/// What `str::to_lowercase` of the standard library makes of a text.
pub uninterp spec fn lowercase(s: Seq<char>) -> Seq<char>;

/// The characters of several strings.
pub open spec fn views(v: Seq<String>) -> Seq<Seq<char>> {
    v.map_values(|s: String| s@)
}

/// The characters of several pairs of strings.
pub open spec fn pair_views(v: Seq<(String, String)>) -> Seq<(Seq<char>, Seq<char>)> {
    v.map_values(|p: (String, String)| (p.0@, p.1@))
}

/// An optional text as characters.
pub open spec fn opt(s: Option<&str>) -> Option<Seq<char>> {
    match s {
        Some(t) => Some(t@),
        None => None,
    }
}

/// Whether `s` begins with `p`.
pub open spec fn has_prefix(s: Seq<char>, p: Seq<char>) -> bool {
    p.len() <= s.len() && s.subrange(0, p.len() as int) == p
}

/// Whether `s` ends with `p`.
pub open spec fn has_suffix(s: Seq<char>, p: Seq<char>) -> bool {
    p.len() <= s.len() && s.subrange(s.len() - p.len(), s.len() as int) == p
}

/// Whether `p` stands in `s` at position `i`.
pub open spec fn occurs_at(s: Seq<char>, p: Seq<char>, i: int) -> bool {
    0 <= i && i + p.len() <= s.len() && s.subrange(i, i + p.len()) == p
}

/// Whether `p` stands somewhere in `s`.
pub open spec fn has_text(s: Seq<char>, p: Seq<char>) -> bool {
    exists|i: int| #[trigger] occurs_at(s, p, i)
}

/// What follows `p` in `s`, if `s` begins with it.
pub open spec fn after_prefix(s: Seq<char>, p: Seq<char>) -> Option<Seq<char>> {
    if has_prefix(s, p) {
        Some(s.subrange(p.len() as int, s.len() as int))
    } else {
        None
    }
}

/// What comes before `p` in `s`, if `s` ends with it.
pub open spec fn before_suffix(s: Seq<char>, p: Seq<char>) -> Option<Seq<char>> {
    if has_suffix(s, p) {
        Some(s.subrange(0, s.len() - p.len()))
    } else {
        None
    }
}

/// `s` cut at the first `c`: what comes before it and what follows it.
pub open spec fn cut(s: Seq<char>, c: char) -> Option<(Seq<char>, Seq<char>)> {
    match s.index_of_first(c) {
        Some(i) => Some((s.subrange(0, i), s.subrange(i + 1, s.len() as int))),
        None => None,
    }
}

/// `s` cut before the last `c`: what comes before it, and the rest from it on.
pub open spec fn cut_last(s: Seq<char>, c: char) -> Option<(Seq<char>, Seq<char>)> {
    match s.index_of_last(c) {
        Some(i) => Some((s.subrange(0, i), s.subrange(i, s.len() as int))),
        None => None,
    }
}

/// The pieces of `s` between the occurrences of `c`, the empty ones too.
pub open spec fn pieces(s: Seq<char>, c: char) -> Seq<Seq<char>>
    decreases s.len(),
    via pieces_decreases
{
    match cut(s, c) {
        Some((head, rest)) => seq![head] + pieces(rest, c),
        None => seq![s],
    }
}

#[via_fn]
proof fn pieces_decreases(s: Seq<char>, c: char) {
    s.index_of_first_ensures(c);
}

/// There is always at least one piece.
pub proof fn lemma_pieces_nonempty(s: Seq<char>, c: char)
    ensures
        pieces(s, c).len() >= 1,
{
}

/// The characters with the Unicode property White_Space.
pub open spec fn is_white(c: char) -> bool {
    ||| '\u{9}' <= c <= '\u{d}'
    ||| c == ' '
    ||| c == '\u{85}'
    ||| c == '\u{a0}'
    ||| c == '\u{1680}'
    ||| '\u{2000}' <= c <= '\u{200a}'
    ||| c == '\u{2028}'
    ||| c == '\u{2029}'
    ||| c == '\u{202f}'
    ||| c == '\u{205f}'
    ||| c == '\u{3000}'
}

/// `s` without the white space at its start.
pub open spec fn trimmed_start(s: Seq<char>) -> Seq<char>
    decreases s.len(),
{
    if s.len() > 0 && is_white(s[0]) {
        trimmed_start(s.subrange(1, s.len() as int))
    } else {
        s
    }
}

/// `s` without the white space at its end.
pub open spec fn trimmed_end(s: Seq<char>) -> Seq<char>
    decreases s.len(),
{
    if s.len() > 0 && is_white(s.last()) {
        trimmed_end(s.drop_last())
    } else {
        s
    }
}

/// `s` without the white space at its two ends.
pub open spec fn trimmed(s: Seq<char>) -> Seq<char> {
    trimmed_end(trimmed_start(s))
}

/// The first run of characters of `s` that are not white space, if there is one.
pub open spec fn first_word(s: Seq<char>) -> Option<Seq<char>> {
    let t = trimmed_start(s);
    if t.len() == 0 {
        None
    } else {
        Some(word_start(t))
    }
}

/// The characters of `s` before the first white space.
pub open spec fn word_start(s: Seq<char>) -> Seq<char>
    decreases s.len(),
{
    if s.len() == 0 || is_white(s[0]) {
        Seq::empty()
    } else {
        seq![s[0]] + word_start(s.subrange(1, s.len() as int))
    }
}

/// A line without the carriage return that may stand before its line feed.
pub open spec fn without_return(s: Seq<char>) -> Seq<char> {
    if s.len() > 0 && s.last() == '\r' {
        s.drop_last()
    } else {
        s
    }
}

/// The lines of `s`: each ends at a line feed or at a carriage return and a line
/// feed, which do not belong to it; the ending of the last line is optional.
pub open spec fn line_seq(s: Seq<char>) -> Seq<Seq<char>>
    decreases s.len(),
    via line_seq_decreases
{
    if s.len() == 0 {
        Seq::empty()
    } else {
        match cut(s, '\n') {
            Some((head, rest)) => seq![without_return(head)] + line_seq(rest),
            None => seq![s],
        }
    }
}

#[via_fn]
proof fn line_seq_decreases(s: Seq<char>) {
    s.index_of_first_ensures('\n');
}

/// `parts` one after the other with `sep` between them.
pub open spec fn joined(parts: Seq<Seq<char>>, sep: Seq<char>) -> Seq<char>
    decreases parts.len(),
{
    if parts.len() == 0 {
        Seq::empty()
    } else if parts.len() == 1 {
        parts[0]
    } else {
        joined(parts.drop_last(), sep) + sep + parts.last()
    }
}

/// The characters of a string.
pub fn chars_of(s: &str) -> (res: Vec<char>)
    ensures
        res@ == s@,
{
    let mut res: Vec<char> = Vec::new();
    for c in it: s.chars()
        invariant
            it.seq() == s@,
            res@ == s@.subrange(0, it.index() as int),
    {
        res.push(c);
    }
    res
}

/// The characters from `from` up to `to` as a string.
pub fn string_of(v: &Vec<char>, from: usize, to: usize) -> (res: String)
    requires
        from <= to <= v@.len(),
    ensures
        res@ == v@.subrange(from as int, to as int),
{
    let mut res = String::new();
    let mut i: usize = from;
    while i < to
        invariant
            from <= i <= to <= v@.len(),
            res@ == v@.subrange(from as int, i as int),
        decreases to - i,
    {
        res.push(v[i]);
        i = i + 1;
    }
    res
}

/// The length of a text in UTF-8.
pub fn byte_len(s: &str) -> (res: usize)
    ensures
        res == vstd::utf8::encode_utf8(s@).len(),
{
    s.as_bytes().len()
}

/// Whether two strings are equal.
pub fn same(a: &str, b: &str) -> (res: bool)
    ensures
        res == (a@ == b@),
{
    a.to_owned() == b.to_owned()
}

/// Whether the characters of `p` stand in `s` at `at`.
fn matches_at(s: &Vec<char>, p: &Vec<char>, at: usize) -> (res: bool)
    requires
        at + p@.len() <= s@.len(),
    ensures
        res == occurs_at(s@, p@, at as int),
{
    let n: usize = s.len();
    let mut i: usize = 0;
    while i < p.len()
        invariant
            i <= p@.len(),
            at + p@.len() <= s@.len() == n,
            forall|j: int| 0 <= j < i ==> s@[at + j] == p@[j],
        decreases p@.len() - i,
    {
        if s[at + i] != p[i] {
            assert(s@.subrange(at as int, at + p@.len())[i as int] != p@[i as int]);
            return false;
        }
        i = i + 1;
    }
    assert(s@.subrange(at as int, at + p@.len()) =~= p@);
    true
}

/// Whether `s` begins with `p`.
pub fn starts_with(s: &str, p: &str) -> (res: bool)
    ensures
        res == has_prefix(s@, p@),
{
    let sv = chars_of(s);
    let pv = chars_of(p);
    pv.len() <= sv.len() && matches_at(&sv, &pv, 0)
}

/// Whether `s` ends with `p`.
pub fn ends_with(s: &str, p: &str) -> (res: bool)
    ensures
        res == has_suffix(s@, p@),
{
    let sv = chars_of(s);
    let pv = chars_of(p);
    pv.len() <= sv.len() && matches_at(&sv, &pv, sv.len() - pv.len())
}

/// Whether `p` stands somewhere in `s`.
pub fn contains(s: &str, p: &str) -> (res: bool)
    ensures
        res == has_text(s@, p@),
{
    let sv = chars_of(s);
    let pv = chars_of(p);
    if pv.len() > sv.len() {
        return false;
    }
    let last: usize = sv.len() - pv.len();
    let mut i: usize = 0;
    while i <= last
        invariant
            i <= last + 1,
            last == sv@.len() - pv@.len(),
            sv@ == s@,
            pv@ == p@,
            forall|j: int| 0 <= j < i ==> !#[trigger] occurs_at(s@, p@, j),
        decreases last + 1 - i,
    {
        if matches_at(&sv, &pv, i) {
            return true;
        }
        if i == last {
            return false;
        }
        i = i + 1;
    }
    false
}

/// What follows `p` in `s`, if `s` begins with it.
pub fn strip_prefix(s: &str, p: &str) -> (res: Option<String>)
    ensures
        res.deep_view() == after_prefix(s@, p@),
{
    let sv = chars_of(s);
    let pv = chars_of(p);
    if pv.len() <= sv.len() && matches_at(&sv, &pv, 0) {
        Some(string_of(&sv, pv.len(), sv.len()))
    } else {
        None
    }
}

/// What comes before `p` in `s`, if `s` ends with it.
pub fn strip_suffix(s: &str, p: &str) -> (res: Option<String>)
    ensures
        res.deep_view() == before_suffix(s@, p@),
{
    let sv = chars_of(s);
    let pv = chars_of(p);
    if pv.len() <= sv.len() && matches_at(&sv, &pv, sv.len() - pv.len()) {
        Some(string_of(&sv, 0, sv.len() - pv.len()))
    } else {
        None
    }
}

/// A position whose character is `c` and before which there is no `c` is the first
/// one.
pub proof fn lemma_first(s: Seq<char>, c: char, i: int)
    requires
        0 <= i < s.len(),
        s[i] == c,
        forall|j: int| 0 <= j < i ==> s[j] != c,
    ensures
        s.index_of_first(c) == Some(i),
{
    s.index_of_first_ensures(c);
    assert(s.contains(c));
}

/// A position whose character is `c` and behind which there is no `c` is the last
/// one.
pub proof fn lemma_last(s: Seq<char>, c: char, i: int)
    requires
        0 <= i < s.len(),
        s[i] == c,
        forall|j: int| i < j < s.len() ==> s[j] != c,
    ensures
        s.index_of_last(c) == Some(i),
{
    s.index_of_last_ensures(c);
    assert(s.contains(c));
}

/// `s` cut at the first `c`.
pub fn split_once(s: &str, c: char) -> (res: Option<(String, String)>)
    ensures
        match res {
            Some((a, b)) => cut(s@, c) == Some((a@, b@)),
            None => cut(s@, c) is None,
        },
{
    let sv = chars_of(s);
    let mut i: usize = 0;
    while i < sv.len()
        invariant
            i <= sv@.len(),
            sv@ == s@,
            forall|j: int| 0 <= j < i ==> s@[j] != c,
        decreases sv@.len() - i,
    {
        if sv[i] == c {
            proof {
                lemma_first(s@, c, i as int);
            }
            return Some((string_of(&sv, 0, i), string_of(&sv, i + 1, sv.len())));
        }
        i = i + 1;
    }
    proof {
        s@.index_of_first_ensures(c);
    }
    None
}

/// `s` cut before the last `c`.
pub fn split_last(s: &str, c: char) -> (res: Option<(String, String)>)
    ensures
        match res {
            Some((a, b)) => cut_last(s@, c) == Some((a@, b@)),
            None => cut_last(s@, c) is None,
        },
{
    let sv = chars_of(s);
    let mut i: usize = sv.len();
    while i > 0
        invariant
            i <= sv@.len(),
            sv@ == s@,
            forall|j: int| i <= j < s@.len() ==> s@[j] != c,
        decreases i,
    {
        i = i - 1;
        if sv[i] == c {
            proof {
                lemma_last(s@, c, i as int);
            }
            return Some((string_of(&sv, 0, i), string_of(&sv, i, sv.len())));
        }
    }
    proof {
        s@.index_of_last_ensures(c);
    }
    None
}

/// The pieces of `s` between the occurrences of `c`.
pub fn split(s: &str, c: char) -> (res: Vec<String>)
    ensures
        views(res@) == pieces(s@, c),
        res@.len() >= 1,
{
    let mut res: Vec<String> = Vec::new();
    let mut rest = s.to_owned();
    let mut going = true;
    while going
        invariant
            going ==> views(res@) + pieces(rest@, c) == pieces(s@, c),
            !going ==> views(res@) == pieces(s@, c) && res@.len() >= 1,
        decreases rest@.len(), going as int,
    {
        let ghost before = views(res@);
        match split_once(&rest, c) {
            Some((head, tail)) => {
                proof {
                    rest@.index_of_first_ensures(c);
                }
                let ghost tail_pieces = pieces(tail@, c);
                assert(pieces(rest@, c) == seq![head@] + tail_pieces);
                let ghost old_res = res@;
                let ghost head_view = head@;
                res.push(head);
                rest = tail;
                assert(views(res@) =~= before.push(head_view));
                assert(views(res@) + tail_pieces =~= before + (seq![head_view] + tail_pieces));
            },
            None => {
                let ghost rest_view = rest@;
                assert(pieces(rest@, c) == seq![rest@]);
                res.push(rest);
                assert(views(res@) =~= before + seq![rest_view]);
                going = false;
                rest = String::new();
            },
        }
    }
    res
}

/// Whether a character has the Unicode property White_Space.
pub fn is_white_space(c: char) -> (res: bool)
    ensures
        res == is_white(c),
{
    ('\u{9}' <= c && c <= '\u{d}') || c == ' ' || c == '\u{85}' || c == '\u{a0}' || c == '\u{1680}'
        || ('\u{2000}' <= c && c <= '\u{200a}') || c == '\u{2028}' || c == '\u{2029}' || c
        == '\u{202f}' || c == '\u{205f}' || c == '\u{3000}'
}

/// `s` without the white space at its two ends.
pub fn trim(s: &str) -> (res: String)
    ensures
        res@ == trimmed(s@),
{
    let sv = chars_of(s);
    let n: usize = sv.len();
    let mut from: usize = 0;
    assert(s@.subrange(0, n as int) =~= s@);
    while from < n && is_white_space(sv[from])
        invariant
            from <= n == sv@.len(),
            sv@ == s@,
            trimmed_start(s@) == trimmed_start(s@.subrange(from as int, n as int)),
        decreases n - from,
    {
        assert(s@.subrange(from as int, n as int).subrange(1, n - from) =~= s@.subrange(
            from + 1,
            n as int,
        ));
        from = from + 1;
    }
    let ghost t = s@.subrange(from as int, n as int);
    assert(trimmed_start(s@) == t);
    let mut to: usize = n;
    while to > from && is_white_space(sv[to - 1])
        invariant
            from <= to <= n == sv@.len(),
            sv@ == s@,
            trimmed_end(t) == trimmed_end(s@.subrange(from as int, to as int)),
        decreases to,
    {
        assert(s@.subrange(from as int, to as int).drop_last() =~= s@.subrange(
            from as int,
            to - 1,
        ));
        to = to - 1;
    }
    assert(trimmed_end(t) == s@.subrange(from as int, to as int));
    string_of(&sv, from, to)
}

/// The first run of characters of `s` that are not white space.
pub fn first_word_of(s: &str) -> (res: Option<String>)
    ensures
        res.deep_view() == first_word(s@),
{
    let sv = chars_of(s);
    let n: usize = sv.len();
    let mut from: usize = 0;
    assert(s@.subrange(0, n as int) =~= s@);
    while from < n && is_white_space(sv[from])
        invariant
            from <= n == sv@.len(),
            sv@ == s@,
            trimmed_start(s@) == trimmed_start(s@.subrange(from as int, n as int)),
        decreases n - from,
    {
        assert(s@.subrange(from as int, n as int).subrange(1, n - from) =~= s@.subrange(
            from + 1,
            n as int,
        ));
        from = from + 1;
    }
    let ghost t = s@.subrange(from as int, n as int);
    assert(trimmed_start(s@) == t);
    if from == n {
        return None;
    }
    let mut to: usize = from;
    assert(s@.subrange(from as int, from as int) + word_start(t) =~= word_start(t));
    while to < n && !is_white_space(sv[to])
        invariant
            from <= to <= n == sv@.len(),
            sv@ == s@,
            word_start(t) == s@.subrange(from as int, to as int) + word_start(
                s@.subrange(to as int, n as int),
            ),
        decreases n - to,
    {
        let ghost r = s@.subrange(to as int, n as int);
        assert(r.subrange(1, r.len() as int) =~= s@.subrange(to + 1, n as int));
        assert(s@.subrange(from as int, to as int) + (seq![r[0]] + word_start(
            s@.subrange(to + 1, n as int),
        )) =~= s@.subrange(from as int, to + 1) + word_start(s@.subrange(to + 1, n as int)));
        to = to + 1;
    }
    assert(word_start(s@.subrange(to as int, n as int)) == Seq::<char>::empty());
    assert(word_start(t) =~= s@.subrange(from as int, to as int));
    Some(string_of(&sv, from, to))
}

/// The lines of `s`.
pub fn lines(s: &str) -> (res: Vec<String>)
    ensures
        views(res@) == line_seq(s@),
{
    let mut res: Vec<String> = Vec::new();
    let mut rest = s.to_owned();
    assert(views(res@) + line_seq(rest@) =~= line_seq(s@));
    while !rest.as_str().is_empty()
        invariant
            views(res@) + line_seq(rest@) == line_seq(s@),
        decreases rest@.len(),
    {
        let ghost before = views(res@);
        match split_once(&rest, '\n') {
            Some((head, tail)) => {
                proof {
                    rest@.index_of_first_ensures('\n');
                }
                let line = match strip_suffix(&head, "\r") {
                    Some(l) => {
                        proof {
                            reveal_strlit("\r");
                            assert(head@.subrange(head@.len() - 1, head@.len() as int)[0] == "\r"@[0]);
                            assert(l@ =~= without_return(head@));
                        }
                        l
                    },
                    None => {
                        proof {
                            reveal_strlit("\r");
                            if head@.len() > 0 && head@.last() == '\r' {
                                assert(head@.subrange(head@.len() - 1, head@.len() as int)
                                    =~= "\r"@);
                            }
                        }
                        head
                    },
                };
                let ghost line_view = line@;
                let ghost tail_lines = line_seq(tail@);
                res.push(line);
                rest = tail;
                assert(views(res@) =~= before.push(line_view));
                assert(views(res@) + tail_lines =~= before + (seq![line_view] + tail_lines));
            },
            None => {
                let ghost rest_view = rest@;
                assert(line_seq(rest@) == seq![rest@]);
                res.push(rest);
                assert(views(res@) =~= before + seq![rest_view]);
                rest = String::new();
                assert(views(res@) + line_seq(rest@) =~= views(res@));
            },
        }
    }
    assert(views(res@) + line_seq(rest@) =~= views(res@));
    res
}

/// `parts` one after the other with `sep` between them.
pub fn join(parts: &Vec<String>, sep: &str) -> (res: String)
    ensures
        res@ == joined(views(parts@), sep@),
{
    let mut res = String::new();
    let mut i: usize = 0;
    let ghost all = views(parts@);
    assert(all.subrange(0, 0) =~= Seq::empty());
    while i < parts.len()
        invariant
            i <= parts@.len(),
            all == views(parts@),
            res@ == joined(all.subrange(0, i as int), sep@),
        decreases parts@.len() - i,
    {
        assert(all.subrange(0, i + 1).drop_last() =~= all.subrange(0, i as int));
        if i > 0 {
            res.append(sep);
        }
        res.append(parts[i].as_str());
        assert(res@ =~= joined(all.subrange(0, i + 1), sep@));
        i = i + 1;
    }
    assert(all.subrange(0, parts@.len() as int) =~= all);
    res
}

/// A character, in lower case if it is an ASCII letter.
pub open spec fn ascii_lower(c: char) -> char {
    if 'A' <= c <= 'Z' {
        ((c as u32) + 32) as char
    } else {
        c
    }
}

/// `str::to_lowercase` of the standard library: the text in lower case, by the
/// Unicode rules, which depend on the text alone. Of ASCII text it is stated that
/// the letters `A` to `Z` become `a` to `z` and that all else stays.
#[verifier::external_body]
fn to_lowercase(s: &str) -> (res: String)
    ensures
        res@ == lowercase(s@),
        vstd::utf8::is_ascii_chars(s@) ==> res@ == s@.map_values(|c: char| ascii_lower(c)),
{
    s.to_lowercase()
}

/// A text in lower case: of ASCII text the letters `A` to `Z` become `a` to `z` and all
/// else stays; other text goes by the rules of `str::to_lowercase`.
pub open spec fn lower(s: Seq<char>) -> Seq<char> {
    if vstd::utf8::is_ascii_chars(s) {
        s.map_values(|c: char| ascii_lower(c))
    } else {
        lowercase(s)
    }
}

/// Whether two texts differ at most in the case of ASCII letters.
pub open spec fn same_letters(a: Seq<char>, b: Seq<char>) -> bool {
    a.len() == b.len() && forall|i: int|
        0 <= i < a.len() ==> ascii_lower(#[trigger] a[i]) == ascii_lower(b[i])
}

/// ASCII texts that differ at most in case are the same in lower case.
pub proof fn lemma_same_letters(a: Seq<char>, b: Seq<char>)
    requires
        vstd::utf8::is_ascii_chars(a),
        same_letters(a, b),
    ensures
        lower(a) == lower(b),
{
    assert forall|i: int| 0 <= i < b.len() implies ascii_lower(a[i]) == ascii_lower(
        #[trigger] b[i],
    ) by {
        assert(ascii_lower(a[i]) == ascii_lower(b[i]));
    }
    assert(vstd::utf8::is_ascii_chars(b));
    assert(lower(a) =~= lower(b));
}

/// A text in lower case.
pub fn to_lower(s: &str) -> (res: String)
    ensures
        res@ == lower(s@),
        res@ == lowercase(s@),
{
    to_lowercase(s)
}

} // verus!
