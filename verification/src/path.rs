//! Unix path operations on text, with the meaning std's `Path` gives them:
//! components, equality and prefix by components, `parent`, `file_name`,
//! `extension`, `file_stem`, `join`, and lexical normalization.
//!
//! A path is split into an optional root (`/`), an optional leading `.`
//! (only for relative paths written `.` or `./…`), and a body whose
//! `/`-separated pieces give the remaining components: empty pieces and `.`
//! vanish, `..` is a parent step, anything else is a name.

use vstd::prelude::*;
use crate::text::{chars_eq, from_chars, to_chars};

verus! {

broadcast use vstd::string::group_string_axioms;

/// A path component.
pub enum Comp {
    Root,
    Cur,
    Parent,
    Normal(Seq<char>),
}

/// A path component, as executable data.
pub enum Component {
    RootDir,
    CurDir,
    ParentDir,
    Normal(Vec<char>),
}

impl View for Component {
    type V = Comp;

    open spec fn view(&self) -> Comp {
        match self {
            Component::RootDir => Comp::Root,
            Component::CurDir => Comp::Cur,
            Component::ParentDir => Comp::Parent,
            Component::Normal(v) => Comp::Normal(v@),
        }
    }
}

/// The views of a sequence of components.
pub open spec fn comps_view(v: Seq<Component>) -> Seq<Comp> {
    v.map_values(|c: Component| c@)
}

// ── Specification ──

pub open spec fn is_rooted(p: Seq<char>) -> bool {
    p.len() > 0 && p[0] == '/'
}

/// A relative path written `.` or `./…` keeps a leading current-dir component.
pub open spec fn has_cur_prefix(p: Seq<char>) -> bool {
    !is_rooted(p) && p.len() > 0 && p[0] == '.' && (p.len() == 1 || p[1] == '/')
}

pub open spec fn prefix_len(p: Seq<char>) -> int {
    if is_rooted(p) || has_cur_prefix(p) {
        1
    } else {
        0
    }
}

/// The part of the path after the root or the leading `.`.
pub open spec fn body(p: Seq<char>) -> Seq<char> {
    p.subrange(prefix_len(p), p.len() as int)
}

/// Index of the last `/` in `s`, or -1.
pub open spec fn last_sep(s: Seq<char>) -> int
    decreases s.len(),
{
    if s.len() == 0 {
        -1
    } else if s.last() == '/' {
        s.len() - 1
    } else {
        last_sep(s.drop_last())
    }
}

/// The text after the last `/` (all of `s` when there is none).
pub open spec fn last_piece(s: Seq<char>) -> Seq<char> {
    s.subrange(last_sep(s) + 1, s.len() as int)
}

/// The text before the last `/` (empty when there is none).
pub open spec fn before_last_piece(s: Seq<char>) -> Seq<char> {
    if last_sep(s) < 0 {
        Seq::empty()
    } else {
        s.subrange(0, last_sep(s))
    }
}

/// The component a body piece stands for; empty pieces and `.` stand for none.
pub open spec fn piece_comp(piece: Seq<char>) -> Seq<Comp> {
    if piece.len() == 0 || piece =~= seq!['.'] {
        Seq::empty()
    } else if piece =~= seq!['.', '.'] {
        seq![Comp::Parent]
    } else {
        seq![Comp::Normal(piece)]
    }
}

/// The components of a body.
pub open spec fn body_comps(b: Seq<char>) -> Seq<Comp>
    decreases b.len(),
{
    if last_sep(b) < 0 {
        piece_comp(b)
    } else {
        proof {
            lemma_last_sep(b);
        }
        body_comps(before_last_piece(b)) + piece_comp(last_piece(b))
    }
}

/// The components of a path, as `Path::components` yields them.
pub open spec fn comps(p: Seq<char>) -> Seq<Comp> {
    (if is_rooted(p) {
        seq![Comp::Root]
    } else {
        Seq::empty()
    }) + (if has_cur_prefix(p) {
        seq![Comp::Cur]
    } else {
        Seq::empty()
    }) + body_comps(body(p))
}

/// A body without its trailing empty and `.` pieces.
pub open spec fn trim_back(b: Seq<char>) -> Seq<char>
    decreases b.len(),
{
    if b.len() == 0 {
        b
    } else {
        let piece = last_piece(b);
        if piece.len() == 0 || piece =~= seq!['.'] {
            proof {
                lemma_last_sep(b);
            }
            trim_back(before_last_piece(b))
        } else {
            b
        }
    }
}

/// `Path::parent`: the path without its last component; `None` for the
/// root alone and for the empty path.
pub open spec fn parent_of(p: Seq<char>) -> Option<Seq<char>> {
    let t = trim_back(body(p));
    if t.len() == 0 {
        if has_cur_prefix(p) {
            Some(Seq::empty())
        } else {
            None
        }
    } else {
        Some(p.subrange(0, prefix_len(p)) + trim_back(before_last_piece(t)))
    }
}

/// `Path::file_name`: the last component when it is a name.
pub open spec fn file_name_of(p: Seq<char>) -> Option<Seq<char>> {
    let t = trim_back(body(p));
    if t.len() == 0 || last_piece(t) =~= seq!['.', '.'] {
        None
    } else {
        Some(last_piece(t))
    }
}

/// Index of the last `.` in `s`, or -1.
pub open spec fn last_dot(s: Seq<char>) -> int
    decreases s.len(),
{
    if s.len() == 0 {
        -1
    } else if s.last() == '.' {
        s.len() - 1
    } else {
        last_dot(s.drop_last())
    }
}

/// The extension of a file name: after its last `.`, unless that dot is
/// the first character or there is none.
pub open spec fn name_extension(name: Seq<char>) -> Option<Seq<char>> {
    if last_dot(name) <= 0 {
        None
    } else {
        Some(name.subrange(last_dot(name) + 1, name.len() as int))
    }
}

/// The stem of a file name: before its last `.` (see `name_extension`).
pub open spec fn name_stem(name: Seq<char>) -> Seq<char> {
    if last_dot(name) <= 0 {
        name
    } else {
        name.subrange(0, last_dot(name))
    }
}

/// `Path::extension`.
pub open spec fn extension_of(p: Seq<char>) -> Option<Seq<char>> {
    match file_name_of(p) {
        Some(n) => name_extension(n),
        None => None,
    }
}

/// `Path::file_stem`.
pub open spec fn file_stem_of(p: Seq<char>) -> Option<Seq<char>> {
    match file_name_of(p) {
        Some(n) => Some(name_stem(n)),
        None => None,
    }
}

/// `Path::join` on Unix: an absolute `rel` replaces `base`; otherwise a `/`
/// is inserted unless `base` is empty or already ends with one.
pub open spec fn join_path(base: Seq<char>, rel: Seq<char>) -> Seq<char> {
    if is_rooted(rel) {
        rel
    } else if base.len() > 0 && base.last() != '/' {
        base + seq!['/'] + rel
    } else {
        base + rel
    }
}

/// Names joined by `/`.
pub open spec fn join_names(parts: Seq<Seq<char>>) -> Seq<char>
    decreases parts.len(),
{
    if parts.len() == 0 {
        Seq::empty()
    } else if parts.len() == 1 {
        parts[0]
    } else {
        join_names(parts.drop_last()) + seq!['/'] + parts.last()
    }
}

/// Lexical normalization of a component sequence: whether the result is
/// rooted, and its names. `..` removes the previous name (none at the top),
/// `.` is dropped.
pub open spec fn norm_comps(cs: Seq<Comp>) -> (bool, Seq<Seq<char>>)
    decreases cs.len(),
{
    if cs.len() == 0 {
        (false, Seq::empty())
    } else {
        let (r, parts) = norm_comps(cs.drop_last());
        match cs.last() {
            Comp::Root => (true, Seq::empty()),
            Comp::Cur => (r, parts),
            Comp::Parent => (r, if parts.len() > 0 {
                parts.drop_last()
            } else {
                parts
            }),
            Comp::Normal(n) => (r, parts.push(n)),
        }
    }
}

/// The text of a normalized path.
pub open spec fn render(rooted: bool, parts: Seq<Seq<char>>) -> Seq<char> {
    (if rooted {
        seq!['/']
    } else {
        Seq::empty()
    }) + join_names(parts)
}

/// Lexical normalization: `.` dropped, `..` folded into its parent, without
/// touching the filesystem.
pub open spec fn normalize(p: Seq<char>) -> Seq<char> {
    let (r, parts) = norm_comps(comps(p));
    render(r, parts)
}

// ── Lemmas ──

pub proof fn lemma_last_sep(s: Seq<char>)
    ensures
        -1 <= last_sep(s) < s.len(),
        last_sep(s) >= 0 ==> s[last_sep(s)] == '/',
        forall|k: int| last_sep(s) < k < s.len() ==> s[k] != '/',
    decreases s.len(),
{
    if s.len() > 0 && s.last() != '/' {
        lemma_last_sep(s.drop_last());
        assert forall|k: int| last_sep(s) < k < s.len() implies s[k] != '/' by {
            if k < s.len() - 1 {
                assert(s.drop_last()[k] == s[k]);
            }
        }
    }
}

/// `last_sep` is the one index with a `/` and none after it.
proof fn lemma_last_sep_unique(s: Seq<char>, i: int)
    requires
        -1 <= i < s.len(),
        i >= 0 ==> s[i] == '/',
        forall|k: int| i < k < s.len() ==> s[k] != '/',
    ensures
        last_sep(s) == i,
{
    lemma_last_sep(s);
    if last_sep(s) < i {
        assert(s[i] == '/');
    }
    if last_sep(s) > i {
        assert(s[last_sep(s)] == '/');
    }
}

proof fn lemma_last_dot(s: Seq<char>)
    ensures
        -1 <= last_dot(s) < s.len(),
        last_dot(s) >= 0 ==> s[last_dot(s)] == '.',
        forall|k: int| last_dot(s) < k < s.len() ==> s[k] != '.',
    decreases s.len(),
{
    if s.len() > 0 && s.last() != '.' {
        lemma_last_dot(s.drop_last());
        assert forall|k: int| last_dot(s) < k < s.len() implies s[k] != '.' by {
            if k < s.len() - 1 {
                assert(s.drop_last()[k] == s[k]);
            }
        }
    }
}

proof fn lemma_last_dot_unique(s: Seq<char>, i: int)
    requires
        -1 <= i < s.len(),
        i >= 0 ==> s[i] == '.',
        forall|k: int| i < k < s.len() ==> s[k] != '.',
    ensures
        last_dot(s) == i,
{
    lemma_last_dot(s);
    if last_dot(s) < i {
        assert(s[i] == '.');
    }
    if last_dot(s) > i {
        assert(s[last_dot(s)] == '.');
    }
}

/// `trim_back` gives a prefix of its argument.
proof fn lemma_trim_back_prefix(b: Seq<char>)
    ensures
        trim_back(b).len() <= b.len(),
        trim_back(b) =~= b.subrange(0, trim_back(b).len() as int),
    decreases b.len(),
{
    if b.len() > 0 {
        let piece = last_piece(b);
        if piece.len() == 0 || piece =~= seq!['.'] {
            lemma_last_sep(b);
            lemma_trim_back_prefix(before_last_piece(b));
        }
    }
}

/// A parent is shorter than its path.
pub proof fn lemma_parent_shorter(p: Seq<char>)
    ensures
        parent_of(p) matches Some(q) ==> q.len() < p.len(),
{
    let t = trim_back(body(p));
    lemma_trim_back_prefix(body(p));
    if t.len() > 0 {
        lemma_last_sep(t);
        lemma_trim_back_prefix(before_last_piece(t));
    }
}

// ── Executable operations on character ranges ──

/// The last `/` in `s[lo..hi]`.
fn find_last_sep(s: &Vec<char>, lo: usize, hi: usize) -> (r: Option<usize>)
    requires
        lo <= hi <= s@.len(),
    ensures
        match r {
            Some(i) => lo <= i < hi && last_sep(s@.subrange(lo as int, hi as int)) == i - lo,
            None => last_sep(s@.subrange(lo as int, hi as int)) == -1,
        },
{
    let mut j = hi;
    while j > lo
        invariant
            lo <= j <= hi <= s@.len(),
            forall|k: int| j <= k < hi ==> s@[k] != '/',
        decreases j,
    {
        if s[j - 1] == '/' {
            proof {
                lemma_last_sep_unique(s@.subrange(lo as int, hi as int), (j - 1 - lo) as int);
            }
            return Some(j - 1);
        }
        j = j - 1;
    }
    proof {
        lemma_last_sep_unique(s@.subrange(lo as int, hi as int), -1);
    }
    None
}

/// Whether `s[lo..hi]` is exactly `.`.
fn is_dot(s: &Vec<char>, lo: usize, hi: usize) -> (r: bool)
    requires
        lo <= hi <= s@.len(),
    ensures
        r == (s@.subrange(lo as int, hi as int) =~= seq!['.']),
{
    let r = hi - lo == 1 && s[lo] == '.';
    proof {
        if s@.subrange(lo as int, hi as int) =~= seq!['.'] {
            assert(s@.subrange(lo as int, hi as int)[0] == '.');
        }
    }
    r
}

/// Whether `s[lo..hi]` is exactly `..`.
fn is_dot_dot(s: &Vec<char>, lo: usize, hi: usize) -> (r: bool)
    requires
        lo <= hi <= s@.len(),
    ensures
        r == (s@.subrange(lo as int, hi as int) =~= seq!['.', '.']),
{
    let r = hi - lo == 2 && s[lo] == '.' && s[lo + 1] == '.';
    proof {
        if s@.subrange(lo as int, hi as int) =~= seq!['.', '.'] {
            assert(s@.subrange(lo as int, hi as int)[0] == '.');
            assert(s@.subrange(lo as int, hi as int)[1] == '.');
        }
    }
    r
}

/// A copy of `s[lo..hi]`.
fn slice_vec(s: &Vec<char>, lo: usize, hi: usize) -> (r: Vec<char>)
    requires
        lo <= hi <= s@.len(),
    ensures
        r@ == s@.subrange(lo as int, hi as int),
{
    let mut out: Vec<char> = Vec::new();
    let mut i = lo;
    while i < hi
        invariant
            lo <= i <= hi <= s@.len(),
            out@ =~= s@.subrange(lo as int, i as int),
        decreases hi - i,
    {
        out.push(s[i]);
        i = i + 1;
    }
    out
}

/// The component of the piece `s[lo..hi]`, if it stands for one.
fn piece_component(s: &Vec<char>, lo: usize, hi: usize) -> (r: Vec<Component>)
    requires
        lo <= hi <= s@.len(),
    ensures
        comps_view(r@) == piece_comp(s@.subrange(lo as int, hi as int)),
{
    let mut r: Vec<Component> = Vec::new();
    if hi == lo || is_dot(s, lo, hi) {
    } else if is_dot_dot(s, lo, hi) {
        r.push(Component::ParentDir);
    } else {
        r.push(Component::Normal(slice_vec(s, lo, hi)));
    }
    assert(comps_view(r@) =~= piece_comp(s@.subrange(lo as int, hi as int)));
    r
}

/// The components of the body `s[lo..hi]`.
fn body_components(s: &Vec<char>, lo: usize, hi: usize) -> (r: Vec<Component>)
    requires
        lo <= hi <= s@.len(),
    ensures
        comps_view(r@) == body_comps(s@.subrange(lo as int, hi as int)),
    decreases hi - lo,
{
    let ghost b = s@.subrange(lo as int, hi as int);
    match find_last_sep(s, lo, hi) {
        None => piece_component(s, lo, hi),
        Some(i) => {
            let mut front = body_components(s, lo, i);
            let mut back = piece_component(s, i + 1, hi);
            proof {
                assert(before_last_piece(b) =~= s@.subrange(lo as int, i as int));
                assert(last_piece(b) =~= s@.subrange(i + 1, hi as int));
            }
            let ghost f = front@;
            let ghost bk = back@;
            front.append(&mut back);
            assert(comps_view(front@) =~= comps_view(f) + comps_view(bk));
            front
        },
    }
}

/// End of `trim_back(s[lo..hi])` (it is a prefix of the range).
fn trim_back_end(s: &Vec<char>, lo: usize, hi: usize) -> (r: usize)
    requires
        lo <= hi <= s@.len(),
    ensures
        lo <= r <= hi,
        s@.subrange(lo as int, r as int) == trim_back(s@.subrange(lo as int, hi as int)),
    decreases hi - lo,
{
    let ghost b = s@.subrange(lo as int, hi as int);
    if hi == lo {
        assert(b.len() == 0);
        return lo;
    }
    let (start, prev_end) = match find_last_sep(s, lo, hi) {
        Some(i) => (i + 1, i),
        None => (lo, lo),
    };
    proof {
        lemma_last_sep(b);
        assert(last_piece(b) =~= s@.subrange(start as int, hi as int));
        assert(before_last_piece(b) =~= s@.subrange(lo as int, prev_end as int));
    }
    if hi == start || is_dot(s, start, hi) {
        trim_back_end(s, lo, prev_end)
    } else {
        hi
    }
}

/// Start of the last piece of `s[lo..hi]`, and the end of what precedes it.
fn split_last_piece(s: &Vec<char>, lo: usize, hi: usize) -> (r: (usize, usize))
    requires
        lo <= hi <= s@.len(),
    ensures
        lo <= r.1 <= r.0 <= hi,
        last_piece(s@.subrange(lo as int, hi as int)) == s@.subrange(r.0 as int, hi as int),
        before_last_piece(s@.subrange(lo as int, hi as int)) == s@.subrange(lo as int, r.1 as int),
{
    let ghost b = s@.subrange(lo as int, hi as int);
    proof {
        lemma_last_sep(b);
    }
    match find_last_sep(s, lo, hi) {
        Some(i) => {
            assert(last_piece(b) =~= s@.subrange(i + 1, hi as int));
            assert(before_last_piece(b) =~= s@.subrange(lo as int, i as int));
            (i + 1, i)
        },
        None => {
            assert(last_piece(b) =~= s@.subrange(lo as int, hi as int));
            assert(before_last_piece(b) =~= s@.subrange(lo as int, lo as int));
            (lo, lo)
        },
    }
}

fn is_rooted_exec(s: &Vec<char>) -> (r: bool)
    ensures
        r == is_rooted(s@),
{
    s.len() > 0 && s[0] == '/'
}

fn has_cur_prefix_exec(s: &Vec<char>) -> (r: bool)
    ensures
        r == has_cur_prefix(s@),
{
    !is_rooted_exec(s) && s.len() > 0 && s[0] == '.' && (s.len() == 1 || s[1] == '/')
}

fn prefix_len_exec(s: &Vec<char>) -> (r: usize)
    ensures
        r == prefix_len(s@),
        r <= s@.len(),
{
    if is_rooted_exec(s) || has_cur_prefix_exec(s) {
        1
    } else {
        0
    }
}

// ── Public operations ──

/// The components of `p`.
pub fn components(p: &str) -> (r: Vec<Component>)
    ensures
        comps_view(r@) == comps(p@),
{
    let s = to_chars(p);
    let mut out: Vec<Component> = Vec::new();
    if is_rooted_exec(&s) {
        out.push(Component::RootDir);
    }
    if has_cur_prefix_exec(&s) {
        out.push(Component::CurDir);
    }
    let pl = prefix_len_exec(&s);
    let mut rest = body_components(&s, pl, s.len());
    let ghost o = out@;
    let ghost rr = rest@;
    out.append(&mut rest);
    proof {
        assert(body(p@) =~= s@.subrange(pl as int, s@.len() as int));
        assert(comps_view(out@) =~= comps_view(o) + comps_view(rr));
        assert(comps_view(o) =~= (if is_rooted(p@) {
            seq![Comp::Root]
        } else {
            Seq::empty()
        }) + (if has_cur_prefix(p@) {
            seq![Comp::Cur]
        } else {
            Seq::empty()
        }));
    }
    out
}

fn component_eq(a: &Component, b: &Component) -> (r: bool)
    ensures
        r == (a@ == b@),
{
    match (a, b) {
        (Component::RootDir, Component::RootDir) => true,
        (Component::CurDir, Component::CurDir) => true,
        (Component::ParentDir, Component::ParentDir) => true,
        (Component::Normal(x), Component::Normal(y)) => chars_eq(x.as_slice(), y.as_slice()),
        _ => false,
    }
}

/// Whether the first `n` components of `a` and `b` agree.
fn components_agree(a: &Vec<Component>, b: &Vec<Component>, n: usize) -> (r: bool)
    requires
        n <= a@.len(),
        n <= b@.len(),
    ensures
        r == (comps_view(a@).subrange(0, n as int) == comps_view(b@).subrange(0, n as int)),
{
    let mut i: usize = 0;
    while i < n
        invariant
            i <= n <= a@.len(),
            n <= b@.len(),
            forall|k: int| 0 <= k < i ==> a@[k]@ == b@[k]@,
        decreases n - i,
    {
        if !component_eq(&a[i], &b[i]) {
            assert(comps_view(a@).subrange(0, n as int)[i as int] != comps_view(b@).subrange(
                0,
                n as int,
            )[i as int]);
            return false;
        }
        i = i + 1;
    }
    assert(comps_view(a@).subrange(0, n as int) =~= comps_view(b@).subrange(0, n as int));
    true
}

/// Path equality, which std defines by components (`a/b/` equals `a//b`).
pub fn path_eq(a: &str, b: &str) -> (r: bool)
    ensures
        r == (comps(a@) == comps(b@)),
{
    let ca = components(a);
    let cb = components(b);
    if ca.len() != cb.len() {
        return false;
    }
    let r = components_agree(&ca, &cb, ca.len());
    assert(comps_view(ca@).subrange(0, ca@.len() as int) =~= comps_view(ca@));
    assert(comps_view(cb@).subrange(0, cb@.len() as int) =~= comps_view(cb@));
    r
}

/// `Path::starts_with`: the components of `base` begin those of `p`.
pub fn path_starts_with(p: &str, base: &str) -> (r: bool)
    ensures
        r == comps(base@).is_prefix_of(comps(p@)),
{
    let cp = components(p);
    let cb = components(base);
    if cb.len() > cp.len() {
        return false;
    }
    let r = components_agree(&cp, &cb, cb.len());
    assert(comps_view(cb@).subrange(0, cb@.len() as int) =~= comps_view(cb@));
    r
}

/// `Path::is_absolute` on Unix.
pub fn is_absolute(p: &str) -> (r: bool)
    ensures
        r == is_rooted(p@),
{
    let s = to_chars(p);
    is_rooted_exec(&s)
}

/// `Path::join`.
pub fn join(base: &str, rel: &str) -> (r: String)
    ensures
        r@ == join_path(base@, rel@),
{
    let b = to_chars(base);
    let mut x = to_chars(rel);
    if is_rooted_exec(&x) {
        return from_chars(&x);
    }
    let mut out = b;
    if out.len() > 0 && out[out.len() - 1] != '/' {
        out.push('/');
    }
    out.append(&mut x);
    from_chars(&out)
}

/// `Path::parent`.
pub fn parent(p: &str) -> (r: Option<String>)
    ensures
        r matches Some(x) ==> parent_of(p@) == Some(x@),
        r is None ==> parent_of(p@) is None,
{
    let s = to_chars(p);
    let pl = prefix_len_exec(&s);
    let te = trim_back_end(&s, pl, s.len());
    proof {
        assert(body(p@) =~= s@.subrange(pl as int, s@.len() as int));
    }
    if te == pl {
        if has_cur_prefix_exec(&s) {
            let e: Vec<char> = Vec::new();
            return Some(from_chars(&e));
        }
        return None;
    }
    let (_start, prev) = split_last_piece(&s, pl, te);
    let pe = trim_back_end(&s, pl, prev);
    let out = slice_vec(&s, 0, pe);
    proof {
        let t = s@.subrange(pl as int, te as int);
        assert(before_last_piece(t) == s@.subrange(pl as int, prev as int));
        assert(s@.subrange(0, pe as int) =~= s@.subrange(0, pl as int) + s@.subrange(
            pl as int,
            pe as int,
        ));
    }
    Some(from_chars(&out))
}

/// `Path::file_name`.
pub fn file_name(p: &str) -> (r: Option<String>)
    ensures
        r matches Some(x) ==> file_name_of(p@) == Some(x@),
        r is None ==> file_name_of(p@) is None,
{
    let s = to_chars(p);
    let pl = prefix_len_exec(&s);
    let te = trim_back_end(&s, pl, s.len());
    proof {
        assert(body(p@) =~= s@.subrange(pl as int, s@.len() as int));
    }
    if te == pl {
        return None;
    }
    let (start, _prev) = split_last_piece(&s, pl, te);
    if is_dot_dot(&s, start, te) {
        return None;
    }
    let out = slice_vec(&s, start, te);
    Some(from_chars(&out))
}

/// Index of the last `.` in a name.
fn find_last_dot(s: &Vec<char>) -> (r: Option<usize>)
    ensures
        match r {
            Some(i) => i < s@.len() && last_dot(s@) == i,
            None => last_dot(s@) == -1,
        },
{
    let mut j = s.len();
    while j > 0
        invariant
            j <= s@.len(),
            forall|k: int| j <= k < s@.len() ==> s@[k] != '.',
        decreases j,
    {
        if s[j - 1] == '.' {
            proof {
                lemma_last_dot_unique(s@, (j - 1) as int);
            }
            return Some(j - 1);
        }
        j = j - 1;
    }
    proof {
        lemma_last_dot_unique(s@, -1);
    }
    None
}

/// `Path::extension`.
pub fn extension(p: &str) -> (r: Option<String>)
    ensures
        r matches Some(x) ==> extension_of(p@) == Some(x@),
        r is None ==> extension_of(p@) is None,
{
    match file_name(p) {
        None => None,
        Some(name) => {
            let n = to_chars(name.as_str());
            let len = n.len();
            match find_last_dot(&n) {
                Some(i) => {
                    assert(i < n@.len());
                    if i == 0 {
                        None
                    } else {
                        let e = slice_vec(&n, i + 1, len);
                        Some(from_chars(&e))
                    }
                },
                None => None,
            }
        },
    }
}

/// `Path::file_stem`.
pub fn file_stem(p: &str) -> (r: Option<String>)
    ensures
        r matches Some(x) ==> file_stem_of(p@) == Some(x@),
        r is None ==> file_stem_of(p@) is None,
{
    match file_name(p) {
        None => None,
        Some(name) => {
            let n = to_chars(name.as_str());
            match find_last_dot(&n) {
                Some(i) => {
                    if i == 0 {
                        Some(name)
                    } else {
                        let e = slice_vec(&n, 0, i);
                        Some(from_chars(&e))
                    }
                },
                None => Some(name),
            }
        },
    }
}

/// The text of a rooted flag and names.
fn render_exec(rooted: bool, parts: &Vec<Vec<char>>) -> (r: String)
    ensures
        r@ == render(rooted, parts@.map_values(|v: Vec<char>| v@)),
{
    let ghost names = parts@.map_values(|v: Vec<char>| v@);
    let mut out: Vec<char> = Vec::new();
    if rooted {
        out.push('/');
    }
    let ghost pre = out@;
    let mut i: usize = 0;
    while i < parts.len()
        invariant
            i <= parts@.len(),
            names == parts@.map_values(|v: Vec<char>| v@),
            pre == (if rooted {
                seq!['/']
            } else {
                Seq::<char>::empty()
            }),
            out@ == pre + join_names(names.take(i as int)),
        decreases parts@.len() - i,
    {
        if i > 0 {
            out.push('/');
        }
        let mut piece = parts[i].clone();
        assert(piece@ == names[i as int]);
        out.append(&mut piece);
        proof {
            let t = names.take(i + 1);
            assert(t.drop_last() =~= names.take(i as int));
            if i == 0 {
                assert(join_names(t) == t[0]);
            }
            assert(out@ =~= pre + join_names(t));
        }
        i = i + 1;
    }
    assert(names.take(parts@.len() as int) =~= names);
    from_chars(&out)
}

/// Lexical normalization (`.` dropped, `..` folded) without touching the
/// filesystem.
#[verifier::rlimit(30)]
pub fn lexical_normalize(p: &str) -> (r: String)
    ensures
        r@ == normalize(p@),
{
    let cs = components(p);
    let ghost cv = comps_view(cs@);
    let mut rooted = false;
    let mut parts: Vec<Vec<char>> = Vec::new();
    let mut i: usize = 0;
    while i < cs.len()
        invariant
            i <= cs@.len(),
            cv == comps_view(cs@),
            (rooted, parts@.map_values(|v: Vec<char>| v@)) == norm_comps(cv.take(i as int)),
        decreases cs@.len() - i,
    {
        let ghost before = parts@;
        proof {
            assert(cv.take(i + 1).drop_last() =~= cv.take(i as int));
        }
        match &cs[i] {
            Component::RootDir => {
                rooted = true;
                parts = Vec::new();
                assert(parts@.map_values(|v: Vec<char>| v@) =~= Seq::<Seq<char>>::empty());
            },
            Component::CurDir => {},
            Component::ParentDir => {
                if parts.len() > 0 {
                    parts.pop();
                    assert(parts@.map_values(|v: Vec<char>| v@) =~= before.map_values(
                        |v: Vec<char>| v@,
                    ).drop_last());
                }
            },
            Component::Normal(n) => {
                parts.push(n.clone());
                assert(parts@.map_values(|v: Vec<char>| v@) =~= before.map_values(
                    |v: Vec<char>| v@,
                ).push(n@));
            },
        }
        i = i + 1;
    }
    assert(cv.take(cs@.len() as int) =~= cv);
    render_exec(rooted, &parts)
}

} // verus!
