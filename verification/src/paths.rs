//! Paths as `/`-separated text, with the component rules of `std::path` on
//! Unix: repeated separators and `.` pieces are not components (a leading
//! `.` is), `..` is a component but not a file name.
use vstd::prelude::*;

use crate::text::{concat_chars, slice_chars, starts_with};

verus! {

/// Start of the piece that ends at `e`: just after the last `/` before `e`.
pub open spec fn piece_start(s: Seq<char>, e: int) -> int
    decreases e,
{
    if e <= 0 {
        0
    } else if s[e - 1] == '/' {
        e
    } else {
        piece_start(s, e - 1)
    }
}

/// The span of the last component within `s[0..e]`: the last piece that is
/// not empty and not a `.` (unless it is a `.` at the very start).
pub open spec fn comp_span(s: Seq<char>, e: int) -> Option<(int, int)>
    decreases e,
{
    if e <= 0 || e > s.len() {
        None
    } else {
        let b = piece_start(s, e);
        let piece = s.subrange(b, e);
        if piece.len() > 0 && (piece != seq!['.'] || b == 0) {
            Some((b, e))
        } else if b == 0 {
            None
        } else {
            proof {
                lemma_piece_start(s, e);
            }
            comp_span(s, b - 1)
        }
    }
}

/// The span of the last component of `s`.
pub open spec fn last_comp(s: Seq<char>) -> Option<(int, int)> {
    comp_span(s, s.len() as int)
}

/// `Path::file_name`: the last component, unless it is `.` or `..`.
pub open spec fn file_name_spec(s: Seq<char>) -> Option<Seq<char>> {
    match last_comp(s) {
        None => None,
        Some(sp) => {
            let p = s.subrange(sp.0, sp.1);
            if p == seq!['.'] || p == seq!['.', '.'] {
                None
            } else {
                Some(p)
            }
        },
    }
}

/// The spans of the components of `s[0..e]` other than a root, in order.
pub open spec fn spans_upto(s: Seq<char>, e: int) -> Seq<(int, int)>
    decreases e,
{
    if e <= 0 {
        seq![]
    } else {
        match comp_span(s, e) {
            None => seq![],
            Some(sp) => if 0 < sp.0 < e {
                spans_upto(s, sp.0 - 1).push(sp)
            } else {
                seq![sp]
            },
        }
    }
}

/// The spans of all components of `s` (`Path::components`): a root `/`
/// first when the path starts with one.
pub open spec fn comp_spans(s: Seq<char>) -> Seq<(int, int)> {
    (if s.len() > 0 && s[0] == '/' {
        seq![(0int, 1int)]
    } else {
        seq![]
    }) + spans_upto(s, s.len() as int)
}

/// The text of component `i` of `s`.
pub open spec fn comp_text(s: Seq<char>, i: int) -> Seq<char> {
    s.subrange(comp_spans(s)[i].0, comp_spans(s)[i].1)
}

/// The components of `base` are the first ones of `s`.
pub open spec fn comps_prefix(s: Seq<char>, base: Seq<char>) -> bool {
    &&& comp_spans(base).len() <= comp_spans(s).len()
    &&& forall|i: int| 0 <= i < comp_spans(base).len() ==> #[trigger] comp_text(base, i) == comp_text(s, i)
}

/// `Path::strip_prefix`: when the components of `base` start those of `s`,
/// the part of `s` from its next component to the end of its last one
/// (empty when none is left).
pub open spec fn strip_prefix_spec(s: Seq<char>, base: Seq<char>) -> Option<Seq<char>> {
    if comps_prefix(s, base) {
        let k = comp_spans(base).len();
        let sp = comp_spans(s);
        if sp.len() > k {
            Some(s.subrange(sp[k as int].0, sp.last().1))
        } else {
            Some(seq![])
        }
    } else {
        None
    }
}

/// Position of the last `.` in `n`.
pub open spec fn last_dot(n: Seq<char>, e: int) -> Option<int>
    decreases e,
{
    if e <= 0 {
        None
    } else if n[e - 1] == '.' {
        Some(e - 1)
    } else {
        last_dot(n, e - 1)
    }
}

/// Length of the stem of a file name: up to its last `.`, unless that is
/// its first character.
pub open spec fn stem_len(n: Seq<char>) -> int {
    match last_dot(n, n.len() as int) {
        Some(i) => if i > 0 {
            i
        } else {
            n.len() as int
        },
        None => n.len() as int,
    }
}

/// `Path::extension`: what follows the last `.` of the file name, unless the
/// name has no `.` or its last `.` is its first character.
pub open spec fn extension_spec(s: Seq<char>) -> Option<Seq<char>> {
    match file_name_spec(s) {
        None => None,
        Some(n) => match last_dot(n, n.len() as int) {
            Some(i) => if i > 0 {
                Some(n.skip(i + 1))
            } else {
                None
            },
            None => None,
        },
    }
}

/// `Path::file_stem`.
pub open spec fn file_stem_spec(s: Seq<char>) -> Option<Seq<char>> {
    match file_name_spec(s) {
        None => None,
        Some(n) => Some(n.take(stem_len(n))),
    }
}

/// `Path::with_extension`: the path cut after the stem of its file name, then
/// `.ext` when `ext` is not empty; unchanged when it has no file name.
pub open spec fn with_extension_spec(s: Seq<char>, ext: Seq<char>) -> Seq<char> {
    match last_comp(s) {
        None => s,
        Some(sp) => {
            let n = s.subrange(sp.0, sp.1);
            if n == seq!['.'] || n == seq!['.', '.'] {
                s
            } else {
                s.take(sp.0 + stem_len(n)) + (if ext.len() == 0 {
                    seq![]
                } else {
                    seq!['.'] + ext
                })
            }
        },
    }
}

/// `Path::join`: an absolute `p` replaces the path; else `p` is appended,
/// after a `/` unless the path is empty or already ends with one.
pub open spec fn join_spec(s: Seq<char>, p: Seq<char>) -> Seq<char> {
    if starts_with(p, seq!['/']) {
        p
    } else if s.len() > 0 && s.last() != '/' {
        s + seq!['/'] + p
    } else {
        s + p
    }
}

/// Trailing separators and `.` pieces removed, keeping a root `/` and a
/// leading `.`.
pub open spec fn trim_right(p: Seq<char>) -> Seq<char>
    decreases p.len(),
{
    if p.len() >= 2 && p.last() == '/' {
        trim_right(p.drop_last())
    } else if p.len() >= 2 && p.last() == '.' && p[p.len() - 2] == '/' {
        trim_right(p.drop_last())
    } else {
        p
    }
}

/// `Path::parent`: the path without its last component; `None` for an empty
/// path or a root.
pub open spec fn parent_spec(s: Seq<char>) -> Option<Seq<char>> {
    match last_comp(s) {
        None => None,
        Some(sp) => Some(trim_right(s.take(sp.0))),
    }
}

/// `Path::with_file_name`: the file name replaced by `n` (or `n` joined
/// when there is none).
pub open spec fn with_file_name_spec(s: Seq<char>, n: Seq<char>) -> Seq<char> {
    match file_name_spec(s) {
        Some(_) => join_spec(parent_spec(s).unwrap(), n),
        None => join_spec(s, n),
    }
}

/// The piece that ends at `e` starts after a `/` (or at the start) and
/// holds no `/`.
pub proof fn lemma_piece_start(s: Seq<char>, e: int)
    requires
        0 <= e <= s.len(),
    ensures
        0 <= piece_start(s, e) <= e,
        piece_start(s, e) > 0 ==> s[piece_start(s, e) - 1] == '/',
        forall|i: int| piece_start(s, e) <= i < e ==> s[i] != '/',
    decreases e,
{
    if e > 0 && s[e - 1] != '/' {
        lemma_piece_start(s, e - 1);
    }
}

proof fn lemma_piece_start_at(s: Seq<char>, e: int, k: int)
    requires
        0 <= k <= e <= s.len(),
        k > 0 ==> s[k - 1] == '/',
        forall|i: int| k <= i < e ==> s[i] != '/',
    ensures
        piece_start(s, e) == k,
    decreases e,
{
    if e > k {
        lemma_piece_start_at(s, e - 1, k);
    }
}

/// The last component before `e` lies within it, after a leading root.
pub proof fn lemma_comp_span(s: Seq<char>, e: int)
    requires
        0 <= e <= s.len(),
    ensures
        comp_span(s, e) matches Some(sp) ==> 0 <= sp.0 < sp.1 <= e,
        comp_span(s, e) matches Some(sp) ==> (s.len() > 0 && s[0] == '/' ==> sp.0 >= 1),
    decreases e,
{
    if e > 0 {
        let b = piece_start(s, e);
        lemma_piece_start(s, e);
        let piece = s.subrange(b, e);
        if piece.len() > 0 && (piece != seq!['.'] || b == 0) {
        } else if b > 0 {
            lemma_comp_span(s, b - 1);
        }
    }
}

fn piece_start_exec(v: &[char], e: usize) -> (b: usize)
    requires
        e <= v.len(),
    ensures
        b == piece_start(v@, e as int),
{
    let mut k: usize = e;
    while k > 0 && v[k - 1] != '/'
        invariant
            k <= e <= v.len(),
            forall|i: int| k <= i < e ==> v@[i] != '/',
        decreases k,
    {
        k = k - 1;
    }
    proof {
        lemma_piece_start_at(v@, e as int, k as int);
    }
    k
}

fn is_single_dot(v: &[char], b: usize, e: usize) -> (r: bool)
    requires
        b <= e <= v.len(),
    ensures
        r == (v@.subrange(b as int, e as int) == seq!['.']),
{
    if e - b == 1 && v[b] == '.' {
        assert(v@.subrange(b as int, e as int) =~= seq!['.']);
        true
    } else {
        if e - b == 1 {
            assert(v@.subrange(b as int, e as int)[0] == v@[b as int]);
        } else {
            assert(seq!['.'].len() == 1);
            assert(v@.subrange(b as int, e as int).len() != seq!['.'].len());
        }
        false
    }
}

fn is_double_dot(v: &[char], b: usize, e: usize) -> (r: bool)
    requires
        b <= e <= v.len(),
    ensures
        r == (v@.subrange(b as int, e as int) == seq!['.', '.']),
{
    if e - b == 2 && v[b] == '.' && v[b + 1] == '.' {
        assert(v@.subrange(b as int, e as int) =~= seq!['.', '.']);
        true
    } else {
        if e - b == 2 {
            assert(v@.subrange(b as int, e as int)[0] == v@[b as int]);
            assert(v@.subrange(b as int, e as int)[1] == v@[b + 1]);
        } else {
            assert(seq!['.', '.'].len() == 2);
            assert(v@.subrange(b as int, e as int).len() != seq!['.', '.'].len());
        }
        false
    }
}

/// The span of the last component of `v`.
pub fn last_comp_exec(v: &[char]) -> (r: Option<(usize, usize)>)
    ensures
        r matches Some(sp) ==> last_comp(v@) == Some((sp.0 as int, sp.1 as int)),
        r is None ==> last_comp(v@) is None,
{
    let mut e: usize = v.len();
    while e > 0
        invariant
            e <= v.len(),
            last_comp(v@) == comp_span(v@, e as int),
        decreases e,
    {
        let b = piece_start_exec(v, e);
        proof {
            lemma_piece_start(v@, e as int);
        }
        if e > b && (!is_single_dot(v, b, e) || b == 0) {
            return Some((b, e));
        }
        if b == 0 {
            return None;
        }
        e = b - 1;
    }
    None
}

fn last_dot_exec(n: &[char]) -> (r: Option<usize>)
    ensures
        r matches Some(i) ==> last_dot(n@, n.len() as int) == Some(i as int),
        r is None ==> last_dot(n@, n.len() as int) is None,
{
    let mut e: usize = n.len();
    while e > 0
        invariant
            e <= n.len(),
            last_dot(n@, n.len() as int) == last_dot(n@, e as int),
        decreases e,
    {
        if n[e - 1] == '.' {
            return Some(e - 1);
        }
        e = e - 1;
    }
    None
}

/// The last `.` found lies before `e`.
pub proof fn lemma_last_dot(n: Seq<char>, e: int)
    requires
        0 <= e <= n.len(),
    ensures
        last_dot(n, e) matches Some(i) ==> 0 <= i < e,
    decreases e,
{
    if e > 0 && n[e - 1] != '.' {
        lemma_last_dot(n, e - 1);
    }
}

fn stem_len_exec(n: &[char]) -> (r: usize)
    ensures
        r == stem_len(n@),
        r <= n.len(),
{
    proof {
        lemma_last_dot(n@, n.len() as int);
    }
    match last_dot_exec(n) {
        Some(i) => if i > 0 {
            i
        } else {
            n.len()
        },
        None => n.len(),
    }
}

/// `Path::file_name`.
pub fn path_file_name(path: &[char]) -> (r: Option<Vec<char>>)
    ensures
        r matches Some(n) ==> file_name_spec(path@) == Some(n@),
        r is None ==> file_name_spec(path@) is None,
{
    proof {
        lemma_comp_span(path@, path.len() as int);
    }
    match last_comp_exec(path) {
        None => None,
        Some((b, e)) => {
            if is_single_dot(path, b, e) || is_double_dot(path, b, e) {
                None
            } else {
                Some(slice_chars(path, b, e))
            }
        },
    }
}

/// `Path::extension`.
pub fn path_extension(path: &[char]) -> (r: Option<Vec<char>>)
    ensures
        r matches Some(x) ==> extension_spec(path@) == Some(x@),
        r is None ==> extension_spec(path@) is None,
{
    match path_file_name(path) {
        None => None,
        Some(n) => {
            proof {
                lemma_last_dot(n@, n.len() as int);
            }
            match last_dot_exec(&n) {
                Some(i) => if i > 0 {
                    Some(slice_chars(&n, i + 1, n.len()))
                } else {
                    None
                },
                None => None,
            }
        },
    }
}

/// `Path::file_stem`.
pub fn path_file_stem(path: &[char]) -> (r: Option<Vec<char>>)
    ensures
        r matches Some(x) ==> file_stem_spec(path@) == Some(x@),
        r is None ==> file_stem_spec(path@) is None,
{
    match path_file_name(path) {
        None => None,
        Some(n) => {
            let k = stem_len_exec(&n);
            Some(slice_chars(&n, 0, k))
        },
    }
}

/// `Path::with_extension`; the extension holds no `/`.
pub fn path_with_extension(path: &[char], ext: &[char]) -> (r: Vec<char>)
    ensures
        r@ == with_extension_spec(path@, ext@),
{
    proof {
        lemma_comp_span(path@, path.len() as int);
    }
    match last_comp_exec(path) {
        None => slice_chars(path, 0, path.len()),
        Some((b, e)) => {
            if is_single_dot(path, b, e) || is_double_dot(path, b, e) {
                return slice_chars(path, 0, path.len());
            }
            let n = slice_chars(path, b, e);
            let k = stem_len_exec(&n);
            let mut r = slice_chars(path, 0, b + k);
            if ext.len() > 0 {
                r.push('.');
                crate::text::extend_chars(&mut r, ext);
            }
            assert(r@ =~= with_extension_spec(path@, ext@));
            r
        },
    }
}

/// `Path::join`.
pub fn path_join(path: &[char], p: &[char]) -> (r: Vec<char>)
    ensures
        r@ == join_spec(path@, p@),
{
    if p.len() > 0 && p[0] == '/' {
        assert(p@.take(1) =~= seq!['/']);
        return slice_chars(p, 0, p.len());
    }
    if p.len() > 0 {
        assert(p@.take(1)[0] == p@[0]);
    }
    if path.len() > 0 && path[path.len() - 1] != '/' {
        let mut r = slice_chars(path, 0, path.len());
        r.push('/');
        crate::text::extend_chars(&mut r, p);
        assert(r@ =~= path@ + seq!['/'] + p@);
        r
    } else {
        concat_chars(path, p)
    }
}

fn trim_right_exec(p: &[char], end: usize) -> (r: usize)
    requires
        end <= p.len(),
    ensures
        p@.take(r as int) == trim_right(p@.take(end as int)),
        r <= end,
{
    let mut k: usize = end;
    while k >= 2 && (p[k - 1] == '/' || (p[k - 1] == '.' && p[k - 2] == '/'))
        invariant
            k <= end <= p.len(),
            trim_right(p@.take(end as int)) == trim_right(p@.take(k as int)),
        decreases k,
    {
        assert(p@.take(k as int).drop_last() =~= p@.take(k - 1));
        k = k - 1;
    }
    k
}

/// `Path::parent`.
pub fn path_parent(path: &[char]) -> (r: Option<Vec<char>>)
    ensures
        r matches Some(x) ==> parent_spec(path@) == Some(x@),
        r is None ==> parent_spec(path@) is None,
{
    proof {
        lemma_comp_span(path@, path.len() as int);
    }
    match last_comp_exec(path) {
        None => None,
        Some((b, _)) => {
            let k = trim_right_exec(path, b);
            Some(slice_chars(path, 0, k))
        },
    }
}

/// `Path::with_file_name`.
pub fn path_with_file_name(path: &[char], n: &[char]) -> (r: Vec<char>)
    ensures
        r@ == with_file_name_spec(path@, n@),
{
    match path_file_name(path) {
        Some(_) => {
            let parent = path_parent(path);
            match parent {
                Some(pp) => path_join(&pp, n),
                None => {
                    assert(false);
                    Vec::new()
                },
            }
        },
        None => path_join(path, n),
    }
}

/// The span of the last component of `v[0..e]`.
fn comp_span_exec(v: &[char], end: usize) -> (r: Option<(usize, usize)>)
    requires
        end <= v.len(),
    ensures
        r matches Some(sp) ==> comp_span(v@, end as int) == Some((sp.0 as int, sp.1 as int)),
        r is None ==> comp_span(v@, end as int) is None,
{
    let ghost e0 = end as int;
    let mut e: usize = end;
    while e > 0
        invariant
            e <= v.len(),
            e0 == end as int,
            comp_span(v@, e0) == comp_span(v@, e as int),
        decreases e,
    {
        let b = piece_start_exec(v, e);
        proof {
            lemma_piece_start(v@, e as int);
        }
        if e > b && (!is_single_dot(v, b, e) || b == 0) {
            return Some((b, e));
        }
        if b == 0 {
            return None;
        }
        e = b - 1;
    }
    None
}

/// The component spans found up to `e` are within it and in order.
pub proof fn lemma_spans_upto(s: Seq<char>, e: int)
    requires
        e <= s.len(),
    ensures
        forall|i: int|
            0 <= i < spans_upto(s, e).len() ==> 0 <= (#[trigger] spans_upto(s, e)[i]).0 < spans_upto(s, e)[i].1
                <= e,
        forall|i: int, j: int|
            0 <= i < j < spans_upto(s, e).len() ==> (#[trigger] spans_upto(s, e)[i]).1 <= (
            #[trigger] spans_upto(s, e)[j]).0,
        s.len() > 0 && s[0] == '/' ==> forall|i: int|
            0 <= i < spans_upto(s, e).len() ==> (#[trigger] spans_upto(s, e)[i]).0 >= 1,
    decreases e,
{
    if e > 0 {
        lemma_comp_span(s, e);
        match comp_span(s, e) {
            None => {},
            Some(sp) => {
                assert(0 <= sp.0 < e);
                let r0 = if sp.0 > 0 {
                    lemma_spans_upto(s, sp.0 - 1);
                    spans_upto(s, sp.0 - 1)
                } else {
                    Seq::<(int, int)>::empty()
                };
                let r = r0.push(sp);
                assert(spans_upto(s, e) == r);
                assert forall|i: int, j: int| 0 <= i < j < r.len() implies (#[trigger] r[i]).1 <= (
                #[trigger] r[j]).0 by {
                    if j < r0.len() {
                        assert(r[i] == r0[i] && r[j] == r0[j]);
                    } else {
                        assert(r[i] == r0[i]);
                    }
                }
                assert forall|i: int| 0 <= i < r.len() implies 0 <= (#[trigger] r[i]).0 < r[i].1 <= e by {
                    if i < r0.len() {
                        assert(r[i] == r0[i]);
                    }
                }
                if s.len() > 0 && s[0] == '/' {
                    assert forall|i: int| 0 <= i < r.len() implies (#[trigger] r[i]).0 >= 1 by {
                        if i < r0.len() {
                            assert(r[i] == r0[i]);
                        }
                    }
                }
            },
        }
    }
}

/// The spans of the components are in order, within the path.
pub proof fn lemma_comp_spans(s: Seq<char>)
    ensures
        forall|i: int|
            0 <= i < comp_spans(s).len() ==> 0 <= (#[trigger] comp_spans(s)[i]).0 < comp_spans(s)[i].1
                <= s.len(),
        forall|i: int, j: int|
            0 <= i < j < comp_spans(s).len() ==> (#[trigger] comp_spans(s)[i]).1 <= (
            #[trigger] comp_spans(s)[j]).0,
{
    lemma_spans_upto(s, s.len() as int);
    let root: Seq<(int, int)> = if s.len() > 0 && s[0] == '/' {
        seq![(0int, 1int)]
    } else {
        seq![]
    };
    let u = spans_upto(s, s.len() as int);
    let c = comp_spans(s);
    assert(c == root + u);
    assert forall|i: int| 0 <= i < c.len() implies 0 <= (#[trigger] c[i]).0 < c[i].1 <= s.len() by {
        if i >= root.len() {
            assert(c[i] == u[i - root.len()]);
        }
    }
    assert forall|i: int, j: int| 0 <= i < j < c.len() implies (#[trigger] c[i]).1 <= (#[trigger] c[j]).0 by {
        if i >= root.len() {
            assert(c[i] == u[i - root.len()] && c[j] == u[j - root.len()]);
        } else {
            assert(c[j] == u[j - root.len()]);
        }
    }
}

/// The spans of the components of `v`.
pub fn comp_spans_exec(v: &[char]) -> (r: Vec<(usize, usize)>)
    ensures
        r@.len() == comp_spans(v@).len(),
        forall|i: int| 0 <= i < r@.len() ==> (r@[i].0 as int, r@[i].1 as int) == #[trigger] comp_spans(v@)[i],
{
    // the spans other than the root, last first
    let mut rev: Vec<(usize, usize)> = Vec::new();
    let mut e: usize = v.len();
    let mut done = false;
    let ghost all = spans_upto(v@, v.len() as int);
    while !done
        invariant
            e <= v.len(),
            all == spans_upto(v@, v.len() as int),
            all.len() == (if done { 0 } else { spans_upto(v@, e as int).len() }) + rev@.len(),
            forall|i: int| 0 <= i < rev@.len() ==> (rev@[i].0 as int, rev@[i].1 as int) == #[trigger] all[all.len() - 1 - i],
            !done ==> forall|i: int| 0 <= i < spans_upto(v@, e as int).len() ==> #[trigger] all[i] == spans_upto(v@, e as int)[i],
        decreases 2 * e + (if done {
            0int
        } else {
            1int
        }),
    {
        if e == 0 {
            done = true;
        } else {
            proof {
                lemma_comp_span(v@, e as int);
            }
            match comp_span_exec(v, e) {
                None => {
                    done = true;
                },
                Some(sp) => {
                    let ghost before = spans_upto(v@, e as int);
                    let ghost rest = spans_upto(v@, sp.0 - 1);
                    assert(before == rest.push((sp.0 as int, sp.1 as int)));
                    rev.push(sp);
                    if sp.0 == 0 {
                        assert(rest.len() == 0);
                        done = true;
                    } else {
                        assert forall|i: int| 0 <= i < rest.len() implies #[trigger] all[i] == rest[i] by {
                            assert(all[i] == before[i]);
                        }
                        e = sp.0 - 1;
                    }
                },
            }
        }
    }
    let mut r: Vec<(usize, usize)> = Vec::new();
    let has_root = v.len() > 0 && v[0] == '/';
    if has_root {
        r.push((0, 1));
    }
    let ghost root: Seq<(int, int)> = if has_root {
        seq![(0int, 1int)]
    } else {
        seq![]
    };
    assert(comp_spans(v@) == root + all);
    let mut k: usize = rev.len();
    while k > 0
        invariant
            k <= rev.len(),
            rev@.len() == all.len(),
            comp_spans(v@) == root + all,
            r@.len() == root.len() + (rev.len() - k),
            forall|i: int| 0 <= i < rev@.len() ==> (rev@[i].0 as int, rev@[i].1 as int) == #[trigger] all[all.len() - 1 - i],
            forall|i: int| 0 <= i < r@.len() ==> (r@[i].0 as int, r@[i].1 as int) == #[trigger] comp_spans(v@)[i],
        decreases k,
    {
        let ghost n = r@.len();
        r.push(rev[k - 1]);
        assert((r@[n as int].0 as int, r@[n as int].1 as int) == comp_spans(v@)[n as int]) by {
            assert(all[all.len() - 1 - (k - 1)] == comp_spans(v@)[n as int]);
        }
        k = k - 1;
    }
    r
}

/// Whether the components of `vb` are the first ones of `vs`, given the
/// spans of both.
fn spans_prefix(vs: &Vec<char>, vb: &Vec<char>, ss: &Vec<(usize, usize)>, sb: &Vec<(usize, usize)>) -> (b: bool)
    requires
        sb@.len() == comp_spans(vb@).len(),
        ss@.len() == comp_spans(vs@).len(),
        forall|j: int| 0 <= j < sb@.len() ==> (sb@[j].0 as int, sb@[j].1 as int) == #[trigger] comp_spans(vb@)[j],
        forall|j: int| 0 <= j < ss@.len() ==> (ss@[j].0 as int, ss@[j].1 as int) == #[trigger] comp_spans(vs@)[j],
        forall|j: int| 0 <= j < comp_spans(vb@).len() ==> 0 <= (#[trigger] comp_spans(vb@)[j]).0 < comp_spans(vb@)[j].1 <= vb@.len(),
        forall|j: int| 0 <= j < comp_spans(vs@).len() ==> 0 <= (#[trigger] comp_spans(vs@)[j]).0 < comp_spans(vs@)[j].1 <= vs@.len(),
    ensures
        b == comps_prefix(vs@, vb@),
{
    let mut prefix = sb.len() <= ss.len();
    let mut i: usize = 0;
    while prefix && i < sb.len()
        invariant
            i <= sb.len(),
            sb@.len() == comp_spans(vb@).len(),
            ss@.len() == comp_spans(vs@).len(),
            forall|j: int| 0 <= j < sb@.len() ==> (sb@[j].0 as int, sb@[j].1 as int) == #[trigger] comp_spans(vb@)[j],
            forall|j: int| 0 <= j < ss@.len() ==> (ss@[j].0 as int, ss@[j].1 as int) == #[trigger] comp_spans(vs@)[j],
            forall|j: int| 0 <= j < comp_spans(vb@).len() ==> 0 <= (#[trigger] comp_spans(vb@)[j]).0 < comp_spans(vb@)[j].1 <= vb@.len(),
            forall|j: int| 0 <= j < comp_spans(vs@).len() ==> 0 <= (#[trigger] comp_spans(vs@)[j]).0 < comp_spans(vs@)[j].1 <= vs@.len(),
            prefix == (sb.len() <= ss.len() && forall|j: int| 0 <= j < i ==> #[trigger] comp_text(vb@, j) == comp_text(vs@, j)),
        decreases sb.len() - i,
    {
        assert(comp_spans(vb@)[i as int] == (sb@[i as int].0 as int, sb@[i as int].1 as int));
        assert(comp_spans(vs@)[i as int] == (ss@[i as int].0 as int, ss@[i as int].1 as int));
        let tb = crate::text::slice_chars(vb, sb[i].0, sb[i].1);
        let ts = crate::text::slice_chars(vs, ss[i].0, ss[i].1);
        assert(tb@ == comp_text(vb@, i as int));
        assert(ts@ == comp_text(vs@, i as int));
        if !crate::text::chars_eq(&tb, &ts) {
            prefix = false;
        }
        i = i + 1;
    }
    prefix
}

/// `Path::starts_with`: the components of `base` are the first ones of `path`.
pub fn path_starts_with(path: &str, base: &str) -> (b: bool)
    ensures
        b == comps_prefix(path@, base@),
{
    let vs = crate::text::chars_of(path);
    let vb = crate::text::chars_of(base);
    let ss = comp_spans_exec(&vs);
    let sb = comp_spans_exec(&vb);
    proof {
        lemma_comp_spans(vs@);
        lemma_comp_spans(vb@);
    }
    spans_prefix(&vs, &vb, &ss, &sb)
}

/// Paths equal as `Path`s are: the same components.
pub open spec fn same_path(a: Seq<char>, b: Seq<char>) -> bool {
    comp_spans(a).len() == comp_spans(b).len() && comps_prefix(a, b)
}

/// `Path`'s `==`: the same components.
pub fn paths_equal(a: &str, b: &str) -> (r: bool)
    ensures
        r == same_path(a@, b@),
{
    let va = crate::text::chars_of(a);
    let vb = crate::text::chars_of(b);
    let sa = comp_spans_exec(&va);
    let sb = comp_spans_exec(&vb);
    proof {
        lemma_comp_spans(va@);
        lemma_comp_spans(vb@);
    }
    sa.len() == sb.len() && spans_prefix(&va, &vb, &sa, &sb)
}

/// The path of a file relative to the output root: what is left of it
/// after the root's components (`Path::strip_prefix`), or its file name
/// when it is not under the root (empty when it has none).
pub open spec fn output_relative_spec(output_root: Seq<char>, full_path: Seq<char>) -> Seq<char> {
    match strip_prefix_spec(full_path, output_root) {
        Some(r) => r,
        None => match file_name_spec(full_path) {
            Some(n) => n,
            None => seq![],
        },
    }
}

/// The path stored for a file under the output root.
pub fn to_output_relative_path(output_root: &str, full_path: &str) -> (r: String)
    ensures
        r@ == output_relative_spec(output_root@, full_path@),
{
    let vs = crate::text::chars_of(full_path);
    let vb = crate::text::chars_of(output_root);
    let ss = comp_spans_exec(&vs);
    let sb = comp_spans_exec(&vb);
    proof {
        lemma_comp_spans(vs@);
        lemma_comp_spans(vb@);
    }
    let prefix = spans_prefix(&vs, &vb, &ss, &sb);
    if prefix {
        assert(comps_prefix(vs@, vb@));
        if ss.len() > sb.len() {
            let start = ss[sb.len()].0;
            let end = ss[ss.len() - 1].1;
            assert(comp_spans(vs@)[sb@.len() as int] == (start as int, ss@[sb@.len() as int].1 as int));
            assert(comp_spans(vs@).last() == (ss@[ss@.len() - 1].0 as int, end as int));
            proof {
                if sb.len() < ss.len() - 1 {
                    assert(comp_spans(vs@)[sb@.len() as int].1 <= comp_spans(vs@)[ss@.len() - 1].0);
                }
            }
            crate::text::string_from_chars(&crate::text::slice_chars(&vs, start, end))
        } else {
            String::new()
        }
    } else {
        assert(!comps_prefix(vs@, vb@));
        match path_file_name(&vs) {
            Some(n) => crate::text::string_from_chars(&n),
            None => String::new(),
        }
    }
}

} // verus!
