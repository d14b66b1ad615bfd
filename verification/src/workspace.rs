//! Workspace discovery: the member projects and shared directories listed in
//! a `contents.xcworkspacedata`, the project named by `buildServer.json`, and
//! the single project found in a directory listing.
//!
//! The XML is read by a small tag scanner: the interiors of `<…>` tags, and
//! the quoted values of their `location = "…"` attributes.

use vstd::prelude::*;
use crate::json::{as_str, get, json_get, json_str, parse_json, spec_parse_json, Json, JsonValue};
use crate::path::{extension, extension_of, is_rooted, join, join_path, lexical_normalize, normalize};
use crate::text::{
    ends_with, from_chars, owned, slice_chars, starts_with, str_eq, strs_view, to_chars, trim_end,
    trim_end_seq, trim_start, trim_start_seq,
};

verus! {

broadcast use vstd::string::group_string_axioms;

// ── Scanning ──

/// The first index at or after `from` holding `c`, or -1.
pub open spec fn find_char_from(s: Seq<char>, c: char, from: int) -> int
    decreases s.len() - from,
{
    if from < 0 || from >= s.len() {
        -1
    } else if s[from] == c {
        from
    } else {
        find_char_from(s, c, from + 1)
    }
}

/// The first index at or after `from` where `pat` occurs, or -1.
pub open spec fn find_sub(s: Seq<char>, pat: Seq<char>, from: int) -> int
    decreases s.len() + 1 - from,
{
    if from < 0 || from + pat.len() > s.len() {
        -1
    } else if s.subrange(from, from + pat.len()) == pat {
        from
    } else {
        find_sub(s, pat, from + 1)
    }
}

/// ASCII whitespace as `u8::is_ascii_whitespace` has it.
pub open spec fn is_ascii_ws(c: char) -> bool {
    c == ' ' || c == '\t' || c == '\n' || c == '\x0C' || c == '\r'
}

/// The first index at or after `from` that is not ASCII whitespace.
pub open spec fn skip_ascii_ws(s: Seq<char>, from: int) -> int
    decreases s.len() - from,
{
    if from >= 0 && from < s.len() && is_ascii_ws(s[from]) {
        skip_ascii_ws(s, from + 1)
    } else {
        from
    }
}

pub proof fn lemma_find_char_from(s: Seq<char>, c: char, from: int)
    requires
        0 <= from,
    ensures
        -1 <= find_char_from(s, c, from) < s.len(),
        find_char_from(s, c, from) >= 0 ==> from <= find_char_from(s, c, from) && s[find_char_from(
            s,
            c,
            from,
        )] == c,
    decreases s.len() - from,
{
    if from < s.len() && s[from] != c {
        lemma_find_char_from(s, c, from + 1);
    }
}

pub proof fn lemma_find_sub(s: Seq<char>, pat: Seq<char>, from: int)
    requires
        0 <= from,
    ensures
        find_sub(s, pat, from) >= 0 ==> from <= find_sub(s, pat, from) && find_sub(s, pat, from)
            + pat.len() <= s.len(),
        find_sub(s, pat, from) >= -1,
    decreases s.len() + 1 - from,
{
    if from + pat.len() <= s.len() && s.subrange(from, from + pat.len()) != pat {
        lemma_find_sub(s, pat, from + 1);
    }
}

pub proof fn lemma_skip_ascii_ws(s: Seq<char>, from: int)
    requires
        0 <= from <= s.len(),
    ensures
        from <= skip_ascii_ws(s, from) <= s.len(),
    decreases s.len() - from,
{
    if from < s.len() && is_ascii_ws(s[from]) {
        lemma_skip_ascii_ws(s, from + 1);
    }
}

/// First index at or after `from` holding `c`.
fn find_char(s: &Vec<char>, c: char, from: usize) -> (r: Option<usize>)
    requires
        from <= s@.len(),
    ensures
        match r {
            Some(i) => i as int == find_char_from(s@, c, from as int) && i < s@.len(),
            None => find_char_from(s@, c, from as int) == -1,
        },
{
    let mut i = from;
    while i < s.len()
        invariant
            from <= i <= s@.len(),
            find_char_from(s@, c, from as int) == find_char_from(s@, c, i as int),
        decreases s@.len() - i,
    {
        if s[i] == c {
            return Some(i);
        }
        i = i + 1;
    }
    None
}

/// First index at or after `from` where `pat` occurs.
fn find_pattern(s: &Vec<char>, pat: &Vec<char>, from: usize) -> (r: Option<usize>)
    requires
        from <= s@.len(),
        pat@.len() > 0,
    ensures
        match r {
            Some(i) => i as int == find_sub(s@, pat@, from as int) && i + pat@.len() <= s@.len(),
            None => find_sub(s@, pat@, from as int) == -1,
        },
{
    if pat.len() > s.len() {
        return None;
    }
    let last = s.len() - pat.len();
    let mut i = from;
    while i <= last
        invariant
            from <= i <= s@.len(),
            last + pat@.len() == s@.len(),
            pat@.len() > 0,
            s@.len() <= usize::MAX,
            find_sub(s@, pat@, from as int) == find_sub(s@, pat@, i as int),
        decreases s@.len() - i,
    {
        if crate::text::matches_at(s, i, pat) {
            return Some(i);
        }
        i = i + 1;
    }
    None
}

fn is_ascii_ws_exec(c: char) -> (r: bool)
    ensures
        r == is_ascii_ws(c),
{
    c == ' ' || c == '\t' || c == '\n' || c == '\x0C' || c == '\r'
}

/// The interiors of the tags from index `i` on.
pub open spec fn tags_from(s: Seq<char>, i: int) -> Seq<Seq<char>>
    decreases s.len() - i,
{
    let lt = find_char_from(s, '<', i);
    if i < 0 || lt < 0 {
        Seq::empty()
    } else {
        let gt = find_char_from(s, '>', lt + 1);
        if gt < 0 {
            Seq::empty()
        } else {
            proof {
                lemma_find_char_from(s, '<', i);
                lemma_find_char_from(s, '>', lt + 1);
            }
            seq![s.subrange(lt + 1, gt)] + tags_from(s, gt + 1)
        }
    }
}

/// The interiors (between `<` and `>`) of every tag in the text.
pub fn iter_tags(xml: &str) -> (r: Vec<String>)
    ensures
        strs_view(r@) == tags_from(xml@, 0),
{
    let s = to_chars(xml);
    let mut out: Vec<String> = Vec::new();
    let mut pos: usize = 0;
    let n: usize = s.len();
    loop
        invariant
            pos <= s@.len(),
            n == s@.len(),
            s@ == xml@,
            strs_view(out@) + tags_from(s@, pos as int) == tags_from(s@, 0),
        decreases s@.len() - pos,
    {
        let lt = match find_char(&s, '<', pos) {
            Some(i) => i,
            None => {
                assert(strs_view(out@) =~= tags_from(s@, 0));
                return out;
            },
        };
        let gt = match find_char(&s, '>', lt + 1) {
            Some(i) => i,
            None => {
                assert(strs_view(out@) =~= tags_from(s@, 0));
                return out;
            },
        };
        proof {
            lemma_find_char_from(s@, '<', pos as int);
            lemma_find_char_from(s@, '>', lt + 1);
        }
        let tag = from_chars(&slice_chars(&s, lt + 1, gt));
        let ghost before = out@;
        out.push(tag);
        proof {
            assert(strs_view(out@) =~= strs_view(before).push(s@.subrange(lt + 1, gt as int)));
            assert(strs_view(out@) + tags_from(s@, gt + 1) =~= strs_view(before) + tags_from(
                s@,
                pos as int,
            ));
        }
        pos = gt + 1;
    }
}

/// The quoted `location = "…"` values from index `i` on.
pub open spec fn locations_from(s: Seq<char>, i: int) -> Seq<Seq<char>>
    decreases s.len() - i,
{
    let p = find_sub(s, "location"@, i);
    if i < 0 || p < 0 {
        Seq::empty()
    } else {
        proof {
            lemma_find_sub(s, "location"@, i);
            reveal_strlit("location");
        }
        let j = skip_ascii_ws(s, p + 8);
        let q = find_char_from(s, '"', j);
        let e = find_char_from(s, '"', q + 1);
        if j < s.len() && s[j] == '=' && q >= 0 && e >= 0 {
            proof {
                lemma_skip_ascii_ws(s, p + 8);
                lemma_find_char_from(s, '"', j);
                lemma_find_char_from(s, '"', q + 1);
            }
            seq![s.subrange(q + 1, e)] + locations_from(s, e + 1)
        } else {
            locations_from(s, p + 8)
        }
    }
}

/// The value of each `location = "…"` attribute. Anchors on the `=` after
/// `location` and takes the whole quoted value, so a `location` inside a
/// path neither matches falsely nor truncates.
pub fn extract_locations(xml: &str) -> (r: Vec<String>)
    ensures
        strs_view(r@) == locations_from(xml@, 0),
{
    let s = to_chars(xml);
    let pat = to_chars("location");
    proof {
        reveal_strlit("location");
    }
    assert(pat@.len() == 8);
    let mut out: Vec<String> = Vec::new();
    let mut i: usize = 0;
    let n: usize = s.len();
    loop
        invariant
            i <= s@.len(),
            n == s@.len(),
            s@ == xml@,
            pat@ == "location"@,
            pat@.len() == 8,
            strs_view(out@) + locations_from(s@, i as int) == locations_from(s@, 0),
        decreases s@.len() - i,
    {
        let p = match find_pattern(&s, &pat, i) {
            Some(p) => p,
            None => {
                assert(strs_view(out@) =~= locations_from(s@, 0));
                return out;
            },
        };
        proof {
            lemma_find_sub(s@, pat@, i as int);
        }
        let mut j = p + 8;
        while j < s.len() && is_ascii_ws_exec(s[j])
            invariant
                p + 8 <= j <= s@.len(),
                skip_ascii_ws(s@, p + 8) == skip_ascii_ws(s@, j as int),
            decreases s@.len() - j,
        {
            j = j + 1;
        }
        let mut next = p + 8;
        if j < s.len() && s[j] == '=' {
            match find_char(&s, '"', j) {
                Some(q) => {
                    match find_char(&s, '"', q + 1) {
                        Some(e) => {
                            proof {
                                lemma_find_char_from(s@, '"', j as int);
                                lemma_find_char_from(s@, '"', q + 1);
                            }
                            let v = from_chars(&slice_chars(&s, q + 1, e));
                            let ghost before = out@;
                            out.push(v);
                            proof {
                                assert(strs_view(out@) =~= strs_view(before).push(
                                    s@.subrange(q + 1, e as int),
                                ));
                                assert(strs_view(out@) + locations_from(s@, e + 1) =~= strs_view(
                                    before,
                                ) + locations_from(s@, i as int));
                            }
                            next = e + 1;
                        },
                        None => {},
                    }
                },
                None => {},
            }
        }
        i = next;
    }
}

/// The first `location` value of a tag.
pub open spec fn tag_location_of(tag: Seq<char>) -> Option<Seq<char>> {
    if locations_from(tag, 0).len() > 0 {
        Some(locations_from(tag, 0)[0])
    } else {
        None
    }
}

/// The `location` attribute value of a single tag, if any.
pub fn tag_location(tag: &str) -> (r: Option<String>)
    ensures
        match r {
            Some(x) => tag_location_of(tag@) == Some(x@),
            None => tag_location_of(tag@) is None,
        },
{
    let mut locs = extract_locations(tag);
    if locs.len() > 0 {
        let x = locs.remove(0);
        Some(x)
    } else {
        None
    }
}

// ── Locations ──

/// `str::split_once(':')`.
pub open spec fn split_colon(loc: Seq<char>) -> Option<(Seq<char>, Seq<char>)> {
    let i = find_char_from(loc, ':', 0);
    if i < 0 {
        None
    } else {
        Some((loc.subrange(0, i), loc.subrange(i + 1, loc.len() as int)))
    }
}

/// A workspace `location` resolved against the workspace dir and the
/// enclosing group: `absolute:` is absolute, `container:` and `self:` are
/// relative to the workspace dir, `group:` (and no scheme) to the group.
pub open spec fn resolve_location_of(loc: Seq<char>, ws_root: Seq<char>, group_base: Seq<char>) -> Seq<
    char,
> {
    let (prefix, rest) = match split_colon(loc) {
        Some(pr) => pr,
        None => ("group"@, loc),
    };
    if prefix == "absolute"@ {
        normalize(rest)
    } else if prefix == "container"@ || prefix == "self"@ {
        normalize(join_path(ws_root, rest))
    } else {
        normalize(join_path(group_base, rest))
    }
}

/// Resolve one workspace `location` against the ws dir and the enclosing group.
pub fn resolve_location(loc: &str, ws_root: &str, group_base: &str) -> (r: String)
    ensures
        r@ == resolve_location_of(loc@, ws_root@, group_base@),
{
    let s = to_chars(loc);
    let (prefix, rest) = match find_char(&s, ':', 0) {
        Some(i) => {
            proof {
                lemma_find_char_from(s@, ':', 0);
            }
            (from_chars(&slice_chars(&s, 0, i)), from_chars(&slice_chars(&s, i + 1, s.len())))
        },
        None => (owned("group"), owned(loc)),
    };
    if str_eq(prefix.as_str(), "absolute") {
        lexical_normalize(rest.as_str())
    } else if str_eq(prefix.as_str(), "container") || str_eq(prefix.as_str(), "self") {
        lexical_normalize(join(ws_root, rest.as_str()).as_str())
    } else {
        lexical_normalize(join(group_base, rest.as_str()).as_str())
    }
}

// ── Workspace members ──

/// The scan state: enclosing group paths, projects, shared dirs.
pub type MembersScan = (Seq<Seq<char>>, Seq<Seq<char>>, Seq<Seq<char>>);

/// One tag of the workspace document.
pub open spec fn members_step(st: MembersScan, tag: Seq<char>, ws_root: Seq<char>) -> MembersScan {
    let (stack, projects, shared) = st;
    let body = trim_start_seq(tag);
    if "/Group"@.is_prefix_of(body) {
        (if stack.len() > 0 {
            stack.drop_last()
        } else {
            stack
        }, projects, shared)
    } else {
        let self_closing = seq!['/'].is_suffix_of(trim_end_seq(tag));
        let base = if stack.len() > 0 {
            stack.last()
        } else {
            ws_root
        };
        if "Group"@.is_prefix_of(body) {
            let resolved = match tag_location_of(tag) {
                Some(loc) => resolve_location_of(loc, ws_root, base),
                None => base,
            };
            (if self_closing {
                stack
            } else {
                stack.push(resolved)
            }, projects, shared)
        } else if "FileRef"@.is_prefix_of(body) {
            match tag_location_of(tag) {
                Some(loc) => {
                    let resolved = resolve_location_of(loc, ws_root, base);
                    if extension_of(resolved) == Some("xcodeproj"@) {
                        (stack, projects.push(resolved), shared)
                    } else {
                        (stack, projects, shared.push(resolved))
                    }
                },
                None => st,
            }
        } else {
            st
        }
    }
}

/// The scan state after the given tags.
pub open spec fn members_scan(tags: Seq<Seq<char>>, ws_root: Seq<char>) -> MembersScan
    decreases tags.len(),
{
    if tags.len() == 0 {
        (Seq::empty(), Seq::empty(), Seq::empty())
    } else {
        members_step(members_scan(tags.drop_last(), ws_root), tags.last(), ws_root)
    }
}

/// Classify the `location`s of `contents.xcworkspacedata` into referenced
/// `.xcodeproj` paths and shared non-project dirs, resolving each against
/// its enclosing `<Group>`s.
pub fn resolve_workspace_members(ws_root: &str, xml: &str) -> (r: (Vec<String>, Vec<String>))
    ensures
        strs_view(r.0@) == members_scan(tags_from(xml@, 0), ws_root@).1,
        strs_view(r.1@) == members_scan(tags_from(xml@, 0), ws_root@).2,
{
    let tags = iter_tags(xml);
    let ghost tv = strs_view(tags@);
    let mut stack: Vec<String> = Vec::new();
    let mut projects: Vec<String> = Vec::new();
    let mut shared: Vec<String> = Vec::new();
    let mut i: usize = 0;
    while i < tags.len()
        invariant
            i <= tags@.len(),
            tv == strs_view(tags@),
            tv == tags_from(xml@, 0),
            (strs_view(stack@), strs_view(projects@), strs_view(shared@)) == members_scan(
                tv.take(i as int),
                ws_root@,
            ),
        decreases tags@.len() - i,
    {
        let tag = tags[i].as_str();
        proof {
            assert(tv.take(i + 1).drop_last() =~= tv.take(i as int));
            assert(tv.take(i + 1).last() == tag@);
        }
        let ghost st0 = stack@;
        let ghost pr0 = projects@;
        let ghost sh0 = shared@;
        let body = trim_start(tag);
        if starts_with(body.as_str(), "/Group") {
            if stack.len() > 0 {
                stack.pop();
                assert(strs_view(stack@) =~= strs_view(st0).drop_last());
            }
        } else {
            let te = trim_end(tag);
            let self_closing = ends_with(te.as_str(), "/");
            proof {
                reveal_strlit("/");
                assert("/"@ =~= seq!['/']);
            }
            let base: String = if stack.len() > 0 {
                stack[stack.len() - 1].clone()
            } else {
                owned(ws_root)
            };
            if starts_with(body.as_str(), "Group") {
                let resolved = match tag_location(tag) {
                    Some(loc) => resolve_location(loc.as_str(), ws_root, base.as_str()),
                    None => base,
                };
                if !self_closing {
                    let ghost rv = resolved@;
                    stack.push(resolved);
                    assert(strs_view(stack@) =~= strs_view(st0).push(rv));
                }
            } else if starts_with(body.as_str(), "FileRef") {
                match tag_location(tag) {
                    Some(loc) => {
                        let resolved = resolve_location(loc.as_str(), ws_root, base.as_str());
                        let ghost rv = resolved@;
                        let is_proj = match extension(resolved.as_str()) {
                            Some(e) => str_eq(e.as_str(), "xcodeproj"),
                            None => false,
                        };
                        if is_proj {
                            projects.push(resolved);
                            assert(strs_view(projects@) =~= strs_view(pr0).push(rv));
                        } else {
                            shared.push(resolved);
                            assert(strs_view(shared@) =~= strs_view(sh0).push(rv));
                        }
                    },
                    None => {},
                }
            }
        }
        i = i + 1;
    }
    assert(tv.take(tags@.len() as int) =~= tv);
    (projects, shared)
}

// ── buildServer.json and project detection ──

/// `(project_flag, project, scheme)` named by a `buildServer.json` value:
/// `project` (else `workspace`) must be a string; the flag defaults by the
/// project's suffix.
pub open spec fn build_server_config_of(v: Json) -> Option<(Seq<char>, Seq<char>, Option<Seq<char>>)> {
    let project = match json_str(json_get(v, "project"@)) {
        Some(p) => Some(p),
        None => json_str(json_get(v, "workspace"@)),
    };
    match project {
        None => None,
        Some(p) => {
            let flag = match json_str(json_get(v, "project_flag"@)) {
                Some(f) => f,
                None => if ".xcworkspace"@.is_suffix_of(p) {
                    "-workspace"@
                } else {
                    "-project"@
                },
            };
            Some((flag, p, json_str(json_get(v, "scheme"@))))
        },
    }
}

/// The view of a configuration triple.
pub open spec fn config_view(c: (String, String, Option<String>)) -> (
    Seq<char>,
    Seq<char>,
    Option<Seq<char>>,
) {
    (
        c.0@,
        c.1@,
        match c.2 {
            Some(s) => Some(s@),
            None => None,
        },
    )
}

/// The project configuration of a parsed `buildServer.json`.
pub fn build_server_config_from_value(v: &JsonValue) -> (r: Option<(String, String, Option<String>)>)
    ensures
        match r {
            Some(c) => build_server_config_of(v@) == Some(config_view(c)),
            None => build_server_config_of(v@) is None,
        },
{
    let project = match as_str(get(v, "project")) {
        Some(p) => p,
        None => match as_str(get(v, "workspace")) {
            Some(p) => p,
            None => {
                return None;
            },
        },
    };
    let flag = match as_str(get(v, "project_flag")) {
        Some(f) => owned(f),
        None => if ends_with(project, ".xcworkspace") {
            owned("-workspace")
        } else {
            owned("-project")
        },
    };
    let scheme = match as_str(get(v, "scheme")) {
        Some(s) => Some(owned(s)),
        None => None,
    };
    Some((flag, owned(project), scheme))
}

/// The project configuration of `buildServer.json` text; `None` when the
/// text is not JSON or names no project.
pub fn build_server_config(content: &str) -> (r: Option<(String, String, Option<String>)>)
    ensures
        match spec_parse_json(content@) {
            Ok(v) => match r {
                Some(c) => build_server_config_of(v) == Some(config_view(c)),
                None => build_server_config_of(v) is None,
            },
            Err(_) => r is None,
        },
{
    match parse_json(content) {
        Ok(v) => build_server_config_from_value(&v),
        Err(_) => None,
    }
}

/// The entries with the given extension, in order.
pub open spec fn with_extension(entries: Seq<Seq<char>>, ext: Seq<char>) -> Seq<Seq<char>>
    decreases entries.len(),
{
    if entries.len() == 0 {
        Seq::empty()
    } else {
        with_extension(entries.drop_last(), ext) + if extension_of(entries.last()) == Some(ext) {
            seq![entries.last()]
        } else {
            Seq::empty()
        }
    }
}

/// The single workspace of a directory listing, else its single project.
pub open spec fn detect_project_of(entries: Seq<Seq<char>>) -> Option<(Seq<char>, Seq<char>)> {
    let ws = with_extension(entries, "xcworkspace"@);
    let ps = with_extension(entries, "xcodeproj"@);
    if ws.len() == 1 {
        Some(("-workspace"@, ws[0]))
    } else if ps.len() == 1 {
        Some(("-project"@, ps[0]))
    } else {
        None
    }
}

/// The entries of `entries` with extension `ext`.
fn entries_with_extension(entries: &Vec<String>, ext: &str) -> (r: Vec<String>)
    ensures
        strs_view(r@) == with_extension(strs_view(entries@), ext@),
{
    let ghost ev = strs_view(entries@);
    let mut out: Vec<String> = Vec::new();
    let mut i: usize = 0;
    while i < entries.len()
        invariant
            i <= entries@.len(),
            ev == strs_view(entries@),
            strs_view(out@) == with_extension(ev.take(i as int), ext@),
        decreases entries@.len() - i,
    {
        let ghost before = out@;
        proof {
            assert(ev.take(i + 1).drop_last() =~= ev.take(i as int));
        }
        let hit = match extension(entries[i].as_str()) {
            Some(e) => str_eq(e.as_str(), ext),
            None => false,
        };
        if hit {
            out.push(entries[i].clone());
            assert(strs_view(out@) =~= strs_view(before) + seq![ev[i as int]]);
        } else {
            assert(strs_view(out@) =~= strs_view(before) + Seq::<Seq<char>>::empty());
        }
        i = i + 1;
    }
    assert(ev.take(entries@.len() as int) =~= ev);
    out
}

/// Auto-detect the project among the paths of a directory's entries: the
/// one `.xcworkspace`, else the one `.xcodeproj`.
pub fn detect_project(entries: &Vec<String>) -> (r: Option<(String, String)>)
    ensures
        match r {
            Some(c) => detect_project_of(strs_view(entries@)) == Some((c.0@, c.1@)),
            None => detect_project_of(strs_view(entries@)) is None,
        },
{
    let ws = entries_with_extension(entries, "xcworkspace");
    let ps = entries_with_extension(entries, "xcodeproj");
    if ws.len() == 1 {
        return Some((owned("-workspace"), ws[0].clone()));
    }
    if ps.len() == 1 {
        return Some((owned("-project"), ps[0].clone()));
    }
    None
}

// ── Laws ──

/// Whether a tag closes a `<Group>`.
pub open spec fn closes_group(tag: Seq<char>) -> bool {
    "/Group"@.is_prefix_of(trim_start_seq(tag))
}

/// Whether a tag opens a `<Group>` that stays open (not self-closing).
pub open spec fn opens_group(tag: Seq<char>) -> bool {
    &&& !closes_group(tag)
    &&& "Group"@.is_prefix_of(trim_start_seq(tag))
    &&& !seq!['/'].is_suffix_of(trim_end_seq(tag))
}

/// Law: a tag that neither opens nor closes a group leaves the group
/// scope as it is; an opening tag adds one group to it.
pub proof fn lemma_tag_scope(st: MembersScan, tag: Seq<char>, ws_root: Seq<char>)
    ensures
        !opens_group(tag) && !closes_group(tag) ==> members_step(st, tag, ws_root).0 == st.0,
        opens_group(tag) ==> members_step(st, tag, ws_root).0.len() == st.0.len() + 1
            && members_step(st, tag, ws_root).0.drop_last() == st.0,
{
    if opens_group(tag) {
        assert(members_step(st, tag, ws_root).0.drop_last() =~= st.0);
    }
}

/// Law: closing a group restores the scope from before it opened, when
/// what lies between leaves the scope as it found it (as a run of
/// `FileRef`s, or balanced nested groups, do). So a `group:` location
/// after `</Group>` resolves against the enclosing scope (the workspace
/// dir at top level), never against the closed group.
pub proof fn lemma_group_scope_closes(
    pre: Seq<Seq<char>>,
    g: Seq<char>,
    inner: Seq<Seq<char>>,
    c: Seq<char>,
    ws_root: Seq<char>,
)
    requires
        opens_group(g),
        closes_group(c),
        members_scan(pre.push(g) + inner, ws_root).0 == members_scan(pre.push(g), ws_root).0,
    ensures
        members_scan((pre.push(g) + inner).push(c), ws_root).0 == members_scan(pre, ws_root).0,
{
    let a = pre.push(g) + inner;
    assert(a.push(c).drop_last() =~= a);
    assert(pre.push(g).drop_last() =~= pre);
    lemma_tag_scope(members_scan(pre, ws_root), g, ws_root);
    let s = members_scan(a, ws_root);
    assert(s.0.len() > 0);
}

/// Law: a run of tags that neither open nor close a group leaves the
/// scope as it is.
pub proof fn lemma_flat_tags_keep_scope(pre: Seq<Seq<char>>, inner: Seq<Seq<char>>, ws_root: Seq<char>)
    requires
        forall|k: int| 0 <= k < inner.len() ==> !opens_group(#[trigger] inner[k]) && !closes_group(inner[k]),
    ensures
        members_scan(pre + inner, ws_root).0 == members_scan(pre, ws_root).0,
    decreases inner.len(),
{
    if inner.len() == 0 {
        assert(pre + inner =~= pre);
    } else {
        let i2 = inner.drop_last();
        assert forall|k: int| 0 <= k < i2.len() implies !opens_group(#[trigger] i2[k]) && !closes_group(i2[k]) by {
            assert(i2[k] == inner[k]);
        }
        lemma_flat_tags_keep_scope(pre, i2, ws_root);
        assert((pre + inner).drop_last() =~= pre + i2);
        assert(inner[inner.len() - 1] == inner.last());
        lemma_tag_scope(members_scan(pre + i2, ws_root), inner.last(), ws_root);
    }
}

/// Law: a `FileRef` with a location resolves it against the innermost
/// group still open, or the workspace dir when none is; a `.xcodeproj` is a
/// member project, anything else a shared dir; the scope is unchanged.
pub proof fn lemma_fileref_resolves_in_scope(st: MembersScan, f: Seq<char>, ws_root: Seq<char>)
    requires
        "FileRef"@.is_prefix_of(trim_start_seq(f)),
        tag_location_of(f) is Some,
    ensures
        ({
            let base = if st.0.len() > 0 {
                st.0.last()
            } else {
                ws_root
            };
            let r = resolve_location_of(tag_location_of(f)->0, ws_root, base);
            let after = members_step(st, f, ws_root);
            &&& after.0 == st.0
            &&& extension_of(r) == Some("xcodeproj"@) ==> after.1 == st.1.push(r) && after.2 == st.2
            &&& extension_of(r) != Some("xcodeproj"@) ==> after.1 == st.1 && after.2 == st.2.push(r)
        }),
{
    reveal_strlit("FileRef");
    reveal_strlit("/Group");
    reveal_strlit("Group");
    let body = trim_start_seq(f);
    assert("FileRef"@[0] == 'F');
    assert(body.subrange(0, 7)[0] == body[0]);
    assert(body[0] == 'F');
    assert("/Group"@[0] == '/');
    assert("Group"@[0] == 'G');
    if "/Group"@.is_prefix_of(body) {
        assert(body.subrange(0, 6)[0] == body[0]);
    }
    if "Group"@.is_prefix_of(body) {
        assert(body.subrange(0, 5)[0] == body[0]);
    }
}

} // verus!
