//! Paths below the docs root, `/`-separated as on Unix: how many components
//! they have, and what is left when the file's extension is removed, as
//! `std::path::Path` on Unix has them.
use vstd::prelude::*;

use crate::md::join_vecs;
use crate::text::{chars_of, eq_str, join, slice_chars, split_char, split_raw, string_of};

verus! {

/// The pieces of a path between its `/` separators.
pub open spec fn pieces(p: Seq<char>) -> Seq<Seq<char>> {
    split_raw(p, '/')
}

/// Whether the path begins at the root.
pub open spec fn rooted(p: Seq<char>) -> bool {
    p.len() > 0 && p[0] == '/'
}

/// Whether the `i`th piece is a component: it is not empty, and it is not
/// `.` unless it begins a path that is not rooted (`Path` keeps a leading
/// `.` and drops every other one).
pub open spec fn is_component(ps: Seq<Seq<char>>, i: int, root: bool) -> bool {
    ps[i].len() > 0 && (ps[i] != "."@ || (i == 0 && !root))
}

/// The number of components among the first `n` pieces.
pub open spec fn components_in(ps: Seq<Seq<char>>, n: int, root: bool) -> nat
    decreases n,
{
    if n <= 0 {
        0
    } else {
        components_in(ps, n - 1, root) + if is_component(ps, n - 1, root) {
            1nat
        } else {
            0nat
        }
    }
}

/// The number of components of a path, as `Path::components` counts them: the
/// root, if the path is rooted, and its components.
pub open spec fn component_count(p: Seq<char>) -> nat {
    (if rooted(p) {
        1nat
    } else {
        0nat
    }) + components_in(pieces(p), pieces(p).len() as int, rooted(p))
}

/// The index of the last of the first `n` pieces that names a file or
/// directory: not empty and not `.`.
pub open spec fn last_name(ps: Seq<Seq<char>>, n: int) -> Option<int>
    decreases n,
{
    if n <= 0 {
        None
    } else if ps[n - 1].len() > 0 && ps[n - 1] != "."@ {
        Some(n - 1)
    } else {
        last_name(ps, n - 1)
    }
}

/// The index of the last `.` in `s`.
pub open spec fn last_dot(s: Seq<char>) -> Option<int>
    decreases s.len(),
{
    if s.len() == 0 {
        None
    } else if s.last() == '.' {
        Some(s.len() - 1)
    } else {
        last_dot(s.drop_last())
    }
}

/// A file name without its extension, as `Path::file_stem` has it: the part
/// before the last `.`, unless there is none or it is empty.
pub open spec fn stem(name: Seq<char>) -> Seq<char> {
    match last_dot(name) {
        Some(k) if k > 0 => name.take(k),
        _ => name,
    }
}

/// The path with its file's extension removed, as `Path::with_extension("")`
/// gives it: cut right after the stem of the last name; unchanged where the
/// path names no file (it ends in the root, `.` or `..`).
pub open spec fn without_extension(p: Seq<char>) -> Seq<char> {
    let ps = pieces(p);
    match last_name(ps, ps.len() as int) {
        Some(i) if ps[i] != ".."@ => join(ps.take(i).push(stem(ps[i])), "/"@),
        _ => p,
    }
}

/// The piece before the first separator of text that begins with one is
/// empty, and there is another piece after it.
proof fn lemma_split_leading_sep(s: Seq<char>, sep: char)
    requires
        s.len() > 0,
        s[0] == sep,
    ensures
        split_raw(s, sep).len() >= 2,
        split_raw(s, sep)[0].len() == 0,
    decreases s.len(),
{
    if s.len() == 1 {
        assert(s.drop_last() == Seq::<char>::empty());
        assert(split_raw(Seq::<char>::empty(), sep) == seq![Seq::<char>::empty()]);
    } else {
        lemma_split_leading_sep(s.drop_last(), sep);
    }
}

/// The number of components of a path; see `component_count`.
pub fn path_depth(path: &str) -> (n: usize)
    ensures
        n as nat == component_count(path@),
{
    let cs = chars_of(path);
    let ps = split_char(cs.as_slice(), '/');
    let ghost pv = ps@.map_values(|l: Vec<char>| l@);
    let root = cs.len() > 0 && cs[0] == '/';
    if root {
        proof {
            lemma_split_leading_sep(path@, '/');
        }
        assert(pv[0] == ps@[0]@);
    }
    let mut n: usize = 0;
    for i in 0..ps.len()
        invariant
            pv == ps@.map_values(|l: Vec<char>| l@),
            pv == pieces(path@),
            root == rooted(path@),
            root ==> pv[0].len() == 0,
            n as nat == components_in(pv, i as int, root),
            n <= i,
            root && i >= 1 ==> n < i,
    {
        assert(pv[i as int] == ps@[i as int]@);
        let piece = &ps[i];
        if piece.len() > 0 && (!eq_str(piece.as_slice(), ".") || (i == 0 && !root)) {
            n = n + 1;
        }
    }
    if root {
        n + 1
    } else {
        n
    }
}

proof fn lemma_last_dot_bound(s: Seq<char>)
    ensures
        last_dot(s) matches Some(k) ==> 0 <= k < s.len(),
    decreases s.len(),
{
    if s.len() > 0 {
        lemma_last_dot_bound(s.drop_last());
    }
}

/// The index of the last `.` in `s`; see `last_dot`.
fn find_last_dot(s: &[char]) -> (r: Option<usize>)
    ensures
        match r {
            Some(k) => last_dot(s@) == Some(k as int),
            None => last_dot(s@) is None,
        },
{
    let mut k = s.len();
    assert(s@.take(k as int) == s@);
    while k > 0
        invariant
            k <= s.len(),
            last_dot(s@) == last_dot(s@.take(k as int)),
        decreases k,
    {
        assert(s@.take(k as int).drop_last() == s@.take(k - 1));
        if s[k - 1] == '.' {
            return Some(k - 1);
        }
        k = k - 1;
    }
    None
}

/// The path with its file's extension removed; see `without_extension`.
pub fn strip_extension(path: &str) -> (r: String)
    ensures
        r@ == without_extension(path@),
{
    let cs = chars_of(path);
    let ps = split_char(cs.as_slice(), '/');
    let ghost pv = ps@.map_values(|l: Vec<char>| l@);
    assert(pv == pieces(path@));
    let mut k = ps.len();
    while k > 0 && !(ps[k - 1].len() > 0 && !eq_str(ps[k - 1].as_slice(), "."))
        invariant
            k <= ps.len(),
            pv == ps@.map_values(|l: Vec<char>| l@),
            last_name(pv, pv.len() as int) == last_name(pv, k as int),
        decreases k,
    {
        assert(pv[k - 1] == ps@[k - 1]@);
        k = k - 1;
    }
    if k > 0 {
        assert(pv[k - 1] == ps@[k - 1]@);
    }
    if k == 0 || eq_str(ps[k - 1].as_slice(), "..") {
        return string_of(cs.as_slice());
    }
    let i = k - 1;
    assert(pv[i as int] == ps@[i as int]@);
    assert(last_name(pv, pv.len() as int) == Some(i as int));
    let name = &ps[i];
    proof {
        lemma_last_dot_bound(name@);
    }
    let st: Vec<char> = match find_last_dot(name.as_slice()) {
        Some(d) if d > 0 => slice_chars(name.as_slice(), 0, d),
        _ => slice_chars(name.as_slice(), 0, name.len()),
    };
    assert(name@.subrange(0, name@.len() as int) == name@);
    assert(st@ == stem(pv[i as int]));
    let mut kept: Vec<Vec<char>> = Vec::new();
    for j in 0..i
        invariant
            i < ps.len(),
            pv == ps@.map_values(|l: Vec<char>| l@),
            kept@.map_values(|l: Vec<char>| l@) == pv.take(j as int),
    {
        let ghost before = kept@;
        let piece = slice_chars(ps[j].as_slice(), 0, ps[j].len());
        assert(pv[j as int] == ps@[j as int]@);
        assert(ps@[j as int]@.subrange(0, ps@[j as int]@.len() as int) == ps@[j as int]@);
        assert(piece@ == pv[j as int]);
        kept.push(piece);
        assert(kept@ == before.push(piece));
        assert(kept@.map_values(|l: Vec<char>| l@) =~= before.map_values(|l: Vec<char>| l@).push(
            piece@,
        ));
        assert(pv.take(j + 1) =~= pv.take(j as int).push(pv[j as int]));
    }
    let ghost before = kept@;
    kept.push(st);
    assert(kept@ == before.push(st));
    assert(kept@.map_values(|l: Vec<char>| l@) =~= before.map_values(|l: Vec<char>| l@).push(st@));
    assert(kept@.map_values(|l: Vec<char>| l@) == pv.take(i as int).push(stem(pv[i as int])));
    let joined = join_vecs(&kept, "/");
    string_of(joined.as_slice())
}

} // verus!
