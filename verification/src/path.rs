//! File system paths as text: components are separated by slashes.
use crate::text::{chars_of, string_of};
use vstd::prelude::*;

verus! {

/// `base` extended by `part`: an absolute part takes the place of the base, and a
/// slash goes between the two unless the base is empty or ends in one.
pub open spec fn pushed(base: Seq<char>, part: Seq<char>) -> Seq<char> {
    if part.len() > 0 && part[0] == '/' {
        part
    } else if base.len() == 0 || base.last() == '/' {
        base + part
    } else {
        base + seq!['/'] + part
    }
}

/// The length of what stands before the components: the root, or a leading dot.
pub open spec fn before_body(s: Seq<char>) -> int {
    if s.len() > 0 && s[0] == '/' {
        1
    } else if s.len() > 0 && s[0] == '.' && (s.len() == 1 || s[1] == '/') {
        1
    } else {
        0
    }
}

/// Where the last component of `s` starts, the components starting at `from`.
pub open spec fn component_start(s: Seq<char>, from: int) -> int
    decreases s.len(),
{
    if s.len() <= from || s.len() == 0 {
        from
    } else if s.last() == '/' {
        s.len() as int
    } else {
        component_start(s.drop_last(), from)
    }
}

/// The length of `s` without its last component and the slash before that.
pub open spec fn component_end(s: Seq<char>, from: int) -> int {
    if component_start(s, from) > from {
        component_start(s, from) - 1
    } else {
        from
    }
}

/// `s` without empty components and single dots at its end.
pub open spec fn without_dots(s: Seq<char>, from: int) -> Seq<char>
    decreases s.len(),
{
    let last = s.subrange(component_start(s, from), s.len() as int);
    if s.len() > from && 0 <= component_end(s, from) < s.len() && (last.len() == 0 || last
        == seq!['.']) {
        without_dots(s.subrange(0, component_end(s, from)), from)
    } else {
        s
    }
}

/// The directory of a path and its file name; none if it has no file name.
pub open spec fn file_split(s: Seq<char>) -> Option<(Seq<char>, Seq<char>)> {
    let from = before_body(s);
    let t = without_dots(s, from);
    let name = t.subrange(component_start(t, from), t.len() as int);
    if t.len() <= from || name == seq!['.', '.'] {
        None
    } else {
        Some((without_dots(t.subrange(0, component_end(t, from)), from), name))
    }
}

/// The path with its file name replaced; where it has none, with one added.
pub open spec fn renamed(s: Seq<char>, name: Seq<char>) -> Seq<char> {
    match file_split(s) {
        Some((dir, _)) => pushed(dir, name),
        None => pushed(s, name),
    }
}

/// `base` extended by `part`.
pub fn join_path(base: &str, part: &str) -> (res: String)
    ensures
        res@ == pushed(base@, part@),
{
    let b = chars_of(base);
    let p = chars_of(part);
    if p.len() > 0 && p[0] == '/' {
        return part.to_owned();
    }
    let mut res: String = base.to_owned();
    if b.len() > 0 && b[b.len() - 1] != '/' {
        res.push('/');
        assert(res@ =~= base@ + seq!['/']);
    }
    res.append(part);
    res
}

/// Where the last component of the first `len` characters starts.
fn find_component(v: &Vec<char>, from: usize, len: usize) -> (res: usize)
    requires
        from <= len <= v@.len(),
    ensures
        res == component_start(v@.subrange(0, len as int), from as int),
        from <= res <= len,
{
    let mut i: usize = len;
    while i > from && v[i - 1] != '/'
        invariant
            from <= i <= len <= v@.len(),
            component_start(v@.subrange(0, len as int), from as int) == component_start(
                v@.subrange(0, i as int),
                from as int,
            ),
        decreases i,
    {
        assert(v@.subrange(0, i as int).drop_last() =~= v@.subrange(0, i - 1));
        i -= 1;
    }
    i
}

/// The length of the first `len` characters without empty components and single
/// dots at the end.
fn length_without_dots(v: &Vec<char>, from: usize, len: usize) -> (res: usize)
    requires
        from <= len <= v@.len(),
    ensures
        from <= res <= len,
        v@.subrange(0, res as int) == without_dots(v@.subrange(0, len as int), from as int),
{
    let mut n: usize = len;
    while n > from
        invariant
            from <= n <= len <= v@.len(),
            without_dots(v@.subrange(0, len as int), from as int) == without_dots(
                v@.subrange(0, n as int),
                from as int,
            ),
        ensures
            from <= n <= len,
            v@.subrange(0, n as int) == without_dots(v@.subrange(0, len as int), from as int),
        decreases n,
    {
        let start: usize = find_component(v, from, n);
        let ghost s = v@.subrange(0, n as int);
        let ghost last = s.subrange(start as int, n as int);
        proof {
            if n - start == 1 && v@[start as int] == '.' {
                assert(last =~= seq!['.']);
            }
            if last == seq!['.'] {
                assert(last.len() == 1 && last[0] == '.');
            }
        }
        if n == start || n - start == 1 && v[start] == '.' {
            let end: usize = if start > from {
                start - 1
            } else {
                from
            };
            assert(s.subrange(0, end as int) =~= v@.subrange(0, end as int));
            n = end;
        } else {
            break;
        }
    }
    n
}

/// The directory of a path and its file name, if it has one.
pub fn split_file(path: &str) -> (res: Option<(String, String)>)
    ensures
        match res {
            Some((dir, name)) => file_split(path@) == Some((dir@, name@)),
            None => file_split(path@) is None,
        },
{
    let v = chars_of(path);
    let from: usize = if v.len() > 0 && v[0] == '/' {
        1
    } else if v.len() > 0 && v[0] == '.' && (v.len() == 1 || v[1] == '/') {
        1
    } else {
        0
    };
    assert(v@.subrange(0, v@.len() as int) =~= path@);
    let n: usize = length_without_dots(&v, from, v.len());
    if n <= from {
        return None;
    }
    let start: usize = find_component(&v, from, n);
    let ghost t = v@.subrange(0, n as int);
    let ghost name = t.subrange(start as int, n as int);
    proof {
        if n - start == 2 && v@[start as int] == '.' && v@[start + 1] == '.' {
            assert(name =~= seq!['.', '.']);
        }
        if name == seq!['.', '.'] {
            assert(name.len() == 2 && name[0] == '.' && name[1] == '.');
        }
    }
    if n - start == 2 && v[start] == '.' && v[start + 1] == '.' {
        return None;
    }
    let end: usize = if start > from {
        start - 1
    } else {
        from
    };
    assert(t.subrange(0, end as int) =~= v@.subrange(0, end as int));
    let d: usize = length_without_dots(&v, from, end);
    assert(v@.subrange(start as int, n as int) =~= name);
    Some((string_of(&v, 0, d), string_of(&v, start, n)))
}

/// The path with its file name replaced; where it has none, with one added.
pub fn with_file_name(path: &str, name: &str) -> (res: String)
    ensures
        res@ == renamed(path@, name@),
{
    match split_file(path) {
        Some((dir, _)) => join_path(dir.as_str(), name),
        None => join_path(path, name),
    }
}

/// The path without the extension of its file name. A name has none if its only dot
/// comes first.
pub open spec fn without_extension(s: Seq<char>) -> Seq<char> {
    match file_split(s) {
        None => s,
        Some((_, name)) => {
            let from = before_body(s);
            let t = without_dots(s, from);
            let stem = match crate::text::cut_last(name, '.') {
                Some((stem, _)) if stem.len() > 0 => stem,
                _ => name,
            };
            t.subrange(0, component_start(t, from)) + stem
        },
    }
}

/// The path without the extension of its file name.
pub fn strip_extension(path: &str) -> (res: String)
    ensures
        res@ == without_extension(path@),
{
    match split_file(path) {
        None => path.to_owned(),
        Some((_, name)) => {
            let v = chars_of(path);
            let from: usize = if v.len() > 0 && v[0] == '/' {
                1
            } else if v.len() > 0 && v[0] == '.' && (v.len() == 1 || v[1] == '/') {
                1
            } else {
                0
            };
            assert(v@.subrange(0, v@.len() as int) =~= path@);
            let n: usize = length_without_dots(&v, from, v.len());
            let start: usize = find_component(&v, from, n);
            assert(v@.subrange(0, n as int).subrange(0, start as int) =~= v@.subrange(
                0,
                start as int,
            ));
            let mut res = string_of(&v, 0, start);
            match crate::text::split_last(name.as_str(), '.') {
                Some((stem, _)) if !stem.as_str().is_empty() => {
                    res.append(stem.as_str());
                },
                _ => {
                    res.append(name.as_str());
                },
            }
            res
        },
    }
}

/// A part goes behind its base with one slash between them; an absolute part stands alone.
pub proof fn law_join_path(base: &str, part: &str, res: String)
    requires
        call_ensures(join_path, (base, part), res),
    ensures
        part@.len() > 0 && part@[0] == '/' ==> res@ == part@,
        part@.len() == 0 || part@[0] != '/' ==> {
            &&& base@.len() == 0 ==> res@ == part@
            &&& base@.len() > 0 && base@.last() == '/' ==> res@ == base@ + part@
            &&& base@.len() > 0 && base@.last() != '/' ==> res@ == base@ + seq!['/'] + part@
        },
{
    assert(Seq::<char>::empty() + part@ =~= part@);
}

/// The last component is what comes behind the last slash.
proof fn lemma_component(front: Seq<char>, name: Seq<char>, from: int)
    requires
        0 <= from <= front.len(),
        from < front.len() ==> front.last() == '/',
        !name.contains('/'),
    ensures
        component_start(front + name, from) == front.len(),
    decreases name.len(),
{
    let s = front + name;
    if name.len() == 0 {
        assert(s =~= front);
    } else {
        assert(s.last() == name.last());
        assert(name.contains(name.last()));
        assert(s.drop_last() =~= front + name.drop_last());
        assert(!name.drop_last().contains('/')) by {
            if name.drop_last().contains('/') {
                let k = choose|k: int|
                    0 <= k < name.drop_last().len() && name.drop_last()[k] == '/';
                assert(name[k] == '/');
            }
        }
        lemma_component(front, name.drop_last(), from);
    }
}

/// A component starts within the text.
proof fn lemma_component_within(s: Seq<char>, from: int)
    requires
        0 <= from <= s.len(),
    ensures
        from <= component_start(s, from) <= s.len(),
    decreases s.len(),
{
    if s.len() > from && s.last() != '/' {
        lemma_component_within(s.drop_last(), from);
    }
}

/// What does not end in a slash or a dot has nothing to leave out at its end.
proof fn lemma_no_dots(s: Seq<char>, from: int)
    requires
        0 <= from < s.len(),
        s.last() != '/',
        s.last() != '.',
    ensures
        without_dots(s, from) == s,
{
    lemma_component_within(s.drop_last(), from);
    let last = s.subrange(component_start(s, from), s.len() as int);
    assert(last.len() > 0);
    assert(last.last() == s.last());
}

/// A path is its directory, a slash and its file name.
pub open spec fn plain_path(dir: Seq<char>, name: Seq<char>) -> bool {
    &&& dir.len() > 0 && dir.last() != '/' && dir.last() != '.'
    &&& name.len() > 0 && !name.contains('/') && name != seq!['.'] && name != seq!['.', '.']
}

/// The parts of a plain path.
proof fn lemma_plain_path(dir: Seq<char>, name: Seq<char>)
    requires
        plain_path(dir, name),
    ensures
        ({
            let s = dir + seq!['/'] + name;
            let from = before_body(s);
            &&& 0 <= from < dir.len()
            &&& without_dots(s, from) == s
            &&& component_start(s, from) == dir.len() + 1
            &&& file_split(s) == Some((dir, name))
        }),
{
    let front = dir + seq!['/'];
    let s = front + name;
    assert(s =~= dir + seq!['/'] + name);
    let from = before_body(s);
    assert(s[0] == dir[0]);
    if dir.len() > 1 {
        assert(s[1] == dir[1]);
    }
    assert(0 <= from < dir.len());
    lemma_component(front, name, from);
    assert(s.subrange(component_start(s, from), s.len() as int) =~= name);
    assert(without_dots(s, from) == s);
    assert(s.subrange(0, component_end(s, from)) =~= dir);
    lemma_no_dots(dir, from);
}

/// A path with a directory and a file name falls into these, and with another name put in
/// the place of the first it has that one.
pub proof fn law_split_file(
    path: &str,
    dir: Seq<char>,
    name: Seq<char>,
    res: Option<(String, String)>,
    new_name: &str,
    renamed: String,
)
    requires
        call_ensures(split_file, (path,), res),
        plain_path(dir, name),
        path@ == dir + seq!['/'] + name,
        call_ensures(with_file_name, (path, new_name), renamed),
        new_name@.len() > 0,
        !new_name@.contains('/'),
    ensures
        res matches Some((d, n)) && d@ == dir && n@ == name,
        renamed@ == dir + seq!['/'] + new_name@,
{
    lemma_plain_path(dir, name);
    assert(new_name@.contains(new_name@[0]));
}

/// A slash or a single dot at the end of a path does not count; and a path that goes up at
/// its end has no file name.
pub proof fn law_path_ends(
    path: &str,
    dir: Seq<char>,
    name: Seq<char>,
    res: Option<(String, String)>,
)
    requires
        call_ensures(split_file, (path,), res),
    ensures
        plain_path(dir, name) && (path@ == dir + seq!['/'] + name + seq!['/'] || path@ == dir + seq![
            '/',
        ] + name + seq!['/', '.']) ==> (res matches Some((d, n)) && d@ == dir && n@ == name),
        dir.len() > 0 && dir.last() != '/' && dir.last() != '.' && path@ == dir + seq![
            '/',
            '.',
            '.',
        ] ==> res is None,
{
    let s = path@;
    if plain_path(dir, name) && (s == dir + seq!['/'] + name + seq!['/'] || s == dir + seq!['/']
        + name + seq!['/', '.']) {
        let t = dir + seq!['/'] + name;
        lemma_plain_path(dir, name);
        let from = before_body(t);
        assert(s[0] == t[0] && s[1] == t[1]);
        assert(before_body(s) == from);
        let front = t + seq!['/'];
        if s == dir + seq!['/'] + name + seq!['/'] {
            assert(s =~= front);
        } else {
            assert(s =~= front + seq!['.']);
            lemma_component(front, seq!['.'], from);
            assert(s.subrange(front.len() as int, s.len() as int) =~= seq!['.']);
        }
        assert(component_start(s, from) == front.len());
        assert(s.subrange(0, component_end(s, from)) =~= t);
        assert(without_dots(s, from) == without_dots(t, from));
    }
    if dir.len() > 0 && dir.last() != '/' && dir.last() != '.' && s == dir + seq!['/', '.', '.'] {
        let front = dir + seq!['/'];
        let up = seq!['.', '.'];
        assert(s =~= front + up);
        let from = before_body(s);
        assert(s[0] == dir[0]);
        if dir.len() > 1 {
            assert(s[1] == dir[1]);
        }
        lemma_component(front, up, from);
        assert(s.subrange(component_start(s, from), s.len() as int) =~= up);
        assert(without_dots(s, from) == s);
    }
}

/// A path of a single name has no directory.
pub proof fn law_bare_name(path: &str, res: Option<(String, String)>)
    requires
        call_ensures(split_file, (path,), res),
        path@.len() > 0,
        !path@.contains('/'),
        path@[0] != '.',
    ensures
        res matches Some((d, n)) && d@.len() == 0 && n@ == path@,
{
    let s = path@;
    assert(s.contains(s[0]));
    assert(before_body(s) == 0);
    assert(Seq::<char>::empty() + s =~= s);
    lemma_component(Seq::empty(), s, 0);
    assert(s.subrange(0, s.len() as int) =~= s);
    assert(s[0] != '.');
    assert(s != seq!['.']);
    assert(s != seq!['.', '.']);
    assert(without_dots(s, 0) == s);
    assert(s.subrange(0, 0) =~= Seq::empty());
}

/// The extension of a file name is what follows its last dot, if something stands before
/// that; the rest of the path stays.
pub proof fn law_strip_extension(
    path: &str,
    dir: Seq<char>,
    stem: Seq<char>,
    extension: Seq<char>,
    res: String,
)
    requires
        call_ensures(strip_extension, (path,), res),
        !extension.contains('.'),
        plain_path(dir, stem + seq!['.'] + extension) || plain_path(dir, extension),
    ensures
        plain_path(dir, stem + seq!['.'] + extension) && stem.len() > 0 && path@ == dir + seq!['/'] + (
        stem + seq!['.'] + extension) ==> res@ == dir + seq!['/'] + stem,
        plain_path(dir, extension) && path@ == dir + seq!['/'] + extension ==> res@ == path@,
{
    if plain_path(dir, stem + seq!['.'] + extension) && stem.len() > 0 && path@ == dir + seq!['/'] + (
    stem + seq!['.'] + extension) {
        let name = stem + seq!['.'] + extension;
        lemma_plain_path(dir, name);
        assert forall|j: int| stem.len() < j < name.len() implies name[j] != '.' by {
            assert(name[j] == extension[j - stem.len() - 1]);
            assert(extension.contains(extension[j - stem.len() - 1]));
        }
        crate::text::lemma_last(name, '.', stem.len() as int);
        assert(name.subrange(0, stem.len() as int) =~= stem);
        assert(path@.subrange(0, dir.len() as int + 1) =~= dir + seq!['/']);
    }
    if plain_path(dir, extension) && path@ == dir + seq!['/'] + extension {
        lemma_plain_path(dir, extension);
        extension.index_of_last_ensures('.');
        assert(path@.subrange(0, dir.len() as int + 1) + extension =~= path@);
    }
}

} // verus!
