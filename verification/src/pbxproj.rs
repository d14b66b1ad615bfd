//! Source files of each native target of a `project.pbxproj` (as JSON, from
//! `plutil -convert json`): each target's Sources build phase resolved to
//! absolute paths by walking the PBXGroup parent chain.

use vstd::prelude::*;
use crate::build_settings::{string_items, string_items_exec};
use crate::json::{
    as_str, get, json_get, json_str, lemma_array_view, lemma_object_view, lookup_member,
    member_lookup, members_view, parse_json, spec_parse_json, Json, JsonValue,
};
use crate::path::{join, join_path, lexical_normalize, normalize};
use crate::text::{concat, is_empty_str, owned, str_eq, strs_view};

verus! {

broadcast use vstd::string::group_string_axioms;

/// An object's members, as the library sees them.
pub type Objects = Seq<(Seq<char>, Json)>;

/// Child → group entries, in insertion order.
pub type ParentEntries = Seq<(Seq<char>, Seq<char>)>;

/// The string field `key` of an object, or `default`.
pub open spec fn field_str_or(o: Json, key: Seq<char>, default: Seq<char>) -> Seq<char> {
    match json_str(json_get(o, key)) {
        Some(s) => s,
        None => default,
    }
}

/// The `isa` of an object (empty when missing).
pub open spec fn isa_of(o: Json) -> Seq<char> {
    field_str_or(o, "isa"@, Seq::empty())
}

/// The string items of the array field `key`, when it is an array.
pub open spec fn field_strings(o: Json, key: Seq<char>) -> Option<Seq<Seq<char>>> {
    match json_get(o, key) {
        Some(Json::Array(items)) => Some(string_items(items)),
        _ => None,
    }
}

pub open spec fn is_group_isa(s: Seq<char>) -> bool {
    s == "PBXGroup"@ || s == "PBXVariantGroup"@
}

/// The `(child, group)` entries one object contributes.
pub open spec fn member_parent_entries(oid: Seq<char>, o: Json) -> ParentEntries {
    if is_group_isa(isa_of(o)) {
        match field_strings(o, "children"@) {
            Some(cs) => cs.map_values(|c: Seq<char>| (c, oid)),
            None => Seq::empty(),
        }
    } else {
        Seq::empty()
    }
}

/// The `(child, group)` entries of all groups, objects in order.
pub open spec fn parent_entries(objs: Objects) -> ParentEntries
    decreases objs.len(),
{
    if objs.len() == 0 {
        Seq::empty()
    } else {
        parent_entries(objs.drop_last()) + member_parent_entries(objs.last().0, objs.last().1)
    }
}

/// The group of `c`: the last entry for it wins, as repeated map inserts do.
pub open spec fn parent_lookup(entries: ParentEntries, c: Seq<char>) -> Option<Seq<char>>
    decreases entries.len(),
{
    if entries.len() == 0 {
        None
    } else if entries.last().0 == c {
        Some(entries.last().1)
    } else {
        parent_lookup(entries.drop_last(), c)
    }
}

/// The groups named in the entries.
pub open spec fn entry_groups(entries: ParentEntries) -> Seq<Seq<char>> {
    entries.map_values(|e: (Seq<char>, Seq<char>)| e.1)
}

/// A `sourceTree` that anchors a group path.
pub open spec fn is_anchor(st: Seq<char>) -> bool {
    st == "SOURCE_ROOT"@ || st == "<absolute>"@ || st == "SDKROOT"@ || st == "DEVELOPER_DIR"@ || st
        == "BUILT_PRODUCTS_DIR"@
}

/// Walks up the group chain from `cur`, collecting non-empty group paths,
/// until an anchoring `sourceTree`, a missing group, a group seen before
/// (a cyclic chain) or the top. Returns the anchor and the parts, top first.
pub open spec fn group_walk(
    objs: Objects,
    entries: ParentEntries,
    cur: Option<Seq<char>>,
    visited: Seq<Seq<char>>,
    parts: Seq<Seq<char>>,
) -> (Seq<char>, Seq<Seq<char>>)
    decreases entries.len() + 1 - visited.len(),
{
    match cur {
        None => ("<group>"@, parts.reverse()),
        Some(cid) => if visited.contains(cid) || visited.len() > entries.len() {
            ("<group>"@, parts.reverse())
        } else {
            match member_lookup(objs, cid) {
                None => ("<group>"@, parts.reverse()),
                Some(g) => {
                    let st = field_str_or(g, "sourceTree"@, "<group>"@);
                    let parts2 = match json_str(json_get(g, "path"@)) {
                        Some(p) => if p.len() > 0 {
                            parts.push(p)
                        } else {
                            parts
                        },
                        None => parts,
                    };
                    if is_anchor(st) {
                        (st, parts2.reverse())
                    } else {
                        group_walk(objs, entries, parent_lookup(entries, cid), visited.push(cid), parts2)
                    }
                },
            }
        },
    }
}

/// The anchor and group path above object `oid`.
pub open spec fn group_prefix_of(objs: Objects, entries: ParentEntries, oid: Seq<char>) -> (
    Seq<char>,
    Seq<Seq<char>>,
) {
    group_walk(objs, entries, parent_lookup(entries, oid), Seq::empty(), Seq::empty())
}

/// `parts` pushed one by one onto `base`.
pub open spec fn join_all(base: Seq<char>, parts: Seq<Seq<char>>) -> Seq<char>
    decreases parts.len(),
{
    if parts.len() == 0 {
        base
    } else {
        join_path(join_all(base, parts.drop_last()), parts.last())
    }
}

/// The absolute path of a file reference, by its `sourceTree`; `None` for
/// files anchored outside the source tree.
pub open spec fn resolve_fileref_of(
    objs: Objects,
    entries: ParentEntries,
    frid: Seq<char>,
    srcroot: Seq<char>,
) -> Option<Seq<char>> {
    match member_lookup(objs, frid) {
        None => None,
        Some(fr) => {
            let st = field_str_or(fr, "sourceTree"@, "<group>"@);
            let path = field_str_or(fr, "path"@, Seq::empty());
            if st == "<absolute>"@ {
                Some(path)
            } else if st == "SOURCE_ROOT"@ {
                Some(normalize(join_path(srcroot, path)))
            } else if st == "SDKROOT"@ || st == "DEVELOPER_DIR"@ || st == "BUILT_PRODUCTS_DIR"@ {
                None
            } else {
                let (anchor, prefix) = group_prefix_of(objs, entries, frid);
                let rel = join_all(Seq::empty(), prefix);
                let rel2 = if path.len() > 0 {
                    join_path(rel, path)
                } else {
                    rel
                };
                if anchor == "SOURCE_ROOT"@ || anchor == "<group>"@ {
                    Some(normalize(join_path(srcroot, rel2)))
                } else {
                    None
                }
            }
        },
    }
}

/// The source of one build file, if it resolves.
pub open spec fn file_source(objs: Objects, entries: ParentEntries, bfid: Seq<char>, srcroot: Seq<
    char,
>) -> Seq<Seq<char>> {
    match member_lookup(objs, bfid) {
        None => Seq::empty(),
        Some(bf) => match json_str(json_get(bf, "fileRef"@)) {
            None => Seq::empty(),
            Some(frid) => match resolve_fileref_of(objs, entries, frid, srcroot) {
                Some(p) => seq![p],
                None => Seq::empty(),
            },
        },
    }
}

pub open spec fn files_sources(
    objs: Objects,
    entries: ParentEntries,
    files: Seq<Seq<char>>,
    srcroot: Seq<char>,
) -> Seq<Seq<char>>
    decreases files.len(),
{
    if files.len() == 0 {
        Seq::empty()
    } else {
        files_sources(objs, entries, files.drop_last(), srcroot) + file_source(
            objs,
            entries,
            files.last(),
            srcroot,
        )
    }
}

/// The sources of a build phase, when it is a Sources phase.
pub open spec fn phase_sources(objs: Objects, entries: ParentEntries, phid: Seq<char>, srcroot: Seq<
    char,
>) -> Seq<Seq<char>> {
    match member_lookup(objs, phid) {
        None => Seq::empty(),
        Some(phase) => if isa_of(phase) != "PBXSourcesBuildPhase"@ {
            Seq::empty()
        } else {
            match field_strings(phase, "files"@) {
                None => Seq::empty(),
                Some(files) => files_sources(objs, entries, files, srcroot),
            }
        },
    }
}

pub open spec fn phases_sources(
    objs: Objects,
    entries: ParentEntries,
    phases: Seq<Seq<char>>,
    srcroot: Seq<char>,
) -> Seq<Seq<char>>
    decreases phases.len(),
{
    if phases.len() == 0 {
        Seq::empty()
    } else {
        phases_sources(objs, entries, phases.drop_last(), srcroot) + phase_sources(
            objs,
            entries,
            phases.last(),
            srcroot,
        )
    }
}

/// A native target with a name, and its sources.
pub open spec fn target_of(objs: Objects, entries: ParentEntries, o: Json, srcroot: Seq<char>) -> Seq<
    (Seq<char>, Seq<Seq<char>>),
> {
    if isa_of(o) != "PBXNativeTarget"@ {
        Seq::empty()
    } else {
        match json_str(json_get(o, "name"@)) {
            None => Seq::empty(),
            Some(name) => seq![
                (name, match field_strings(o, "buildPhases"@) {
                    Some(ph) => phases_sources(objs, entries, ph, srcroot),
                    None => Seq::empty(),
                }),
            ],
        }
    }
}

/// The targets among `members`, in order.
pub open spec fn targets_of(
    objs: Objects,
    entries: ParentEntries,
    members: Objects,
    srcroot: Seq<char>,
) -> Seq<(Seq<char>, Seq<Seq<char>>)>
    decreases members.len(),
{
    if members.len() == 0 {
        Seq::empty()
    } else {
        targets_of(objs, entries, members.drop_last(), srcroot) + target_of(
            objs,
            entries,
            members.last().1,
            srcroot,
        )
    }
}

/// Every named `PBXNativeTarget` of a parsed pbxproj with its sources.
pub open spec fn project_targets(v: Json, srcroot: Seq<char>) -> Result<
    Seq<(Seq<char>, Seq<Seq<char>>)>,
    Seq<char>,
> {
    match json_get(v, "objects"@) {
        Some(Json::Object(objs)) => Ok(targets_of(objs, parent_entries(objs), objs, srcroot)),
        _ => Err("pbxproj: missing 'objects'"@),
    }
}

/// The view of a target list.
pub open spec fn targets_view(t: Seq<(String, Vec<String>)>) -> Seq<(Seq<char>, Seq<Seq<char>>)> {
    t.map_values(|e: (String, Vec<String>)| (e.0@, strs_view(e.1@)))
}

/// The view of parent entries.
pub open spec fn entries_view(e: Seq<(String, String)>) -> ParentEntries {
    e.map_values(|x: (String, String)| (x.0@, x.1@))
}

// ── Lemmas ──

proof fn lemma_parent_lookup_in_groups(entries: ParentEntries, c: Seq<char>)
    ensures
        parent_lookup(entries, c) matches Some(g) ==> entry_groups(entries).contains(g),
    decreases entries.len(),
{
    if entries.len() > 0 {
        if entries.last().0 == c {
            assert(entry_groups(entries)[entries.len() - 1] == entries.last().1);
        } else {
            lemma_parent_lookup_in_groups(entries.drop_last(), c);
            if let Some(g) = parent_lookup(entries, c) {
                let k = choose|k: int|
                    0 <= k < entry_groups(entries.drop_last()).len() && entry_groups(
                        entries.drop_last(),
                    )[k] == g;
                assert(entry_groups(entries)[k] == g);
            }
        }
    }
}

/// Distinct groups, all named in the entries, are no more than the entries.
proof fn lemma_visited_bound(visited: Seq<Seq<char>>, groups: Seq<Seq<char>>)
    requires
        visited.no_duplicates(),
        forall|k: int| 0 <= k < visited.len() ==> groups.contains(visited[k]),
    ensures
        visited.len() <= groups.len(),
{
    visited.unique_seq_to_set();
    groups.lemma_cardinality_of_set();
    assert(visited.to_set().subset_of(groups.to_set())) by {
        assert forall|x: Seq<char>| visited.to_set().contains(x) implies groups.to_set().contains(x) by {
            let k = choose|k: int| 0 <= k < visited.len() && visited[k] == x;
        }
    }
    vstd::seq_lib::seq_to_set_is_finite(groups);
    vstd::set_lib::lemma_len_subset(visited.to_set(), groups.to_set());
}

// ── Executable ──

/// The string field `key` of `o`, or `default`.
fn field_str_or_exec<'a>(o: &'a JsonValue, key: &str, default: &'a str) -> (r: &'a str)
    ensures
        r@ == field_str_or(o@, key@, default@),
{
    match as_str(get(o, key)) {
        Some(s) => s,
        None => default,
    }
}

fn isa_exec(o: &JsonValue) -> (r: &str)
    ensures
        r@ == isa_of(o@),
{
    proof {
        reveal_strlit("");
        assert(""@ =~= Seq::<char>::empty());
    }
    field_str_or_exec(o, "isa", "")
}

fn field_strings_exec(o: &JsonValue, key: &str) -> (r: Option<Vec<String>>)
    ensures
        match r {
            Some(v) => field_strings(o@, key@) == Some(strs_view(v@)),
            None => field_strings(o@, key@) is None,
        },
{
    match get(o, key) {
        Some(JsonValue::Array(a)) => {
            proof {
                lemma_array_view(*a);
            }
            Some(string_items_exec(a))
        },
        _ => None,
    }
}

/// The `(child, group)` entries of all groups.
fn build_parent_entries(objs: &Vec<(String, JsonValue)>) -> (r: Vec<(String, String)>)
    ensures
        entries_view(r@) == parent_entries(members_view(objs@)),
{
    let ghost ov = members_view(objs@);
    let mut out: Vec<(String, String)> = Vec::new();
    let mut i: usize = 0;
    while i < objs.len()
        invariant
            i <= objs@.len(),
            ov == members_view(objs@),
            entries_view(out@) == parent_entries(ov.take(i as int)),
        decreases objs@.len() - i,
    {
        let ghost before = entries_view(out@);
        let oid = &objs[i].0;
        let o = &objs[i].1;
        proof {
            assert(ov.take(i + 1).drop_last() =~= ov.take(i as int));
            assert(ov.take(i + 1).last() == (oid@, o@));
        }
        let isa = isa_exec(o);
        if str_eq(isa, "PBXGroup") || str_eq(isa, "PBXVariantGroup") {
            match field_strings_exec(o, "children") {
                Some(cs) => {
                    let ghost cv = strs_view(cs@);
                    let mut k: usize = 0;
                    while k < cs.len()
                        invariant
                            k <= cs@.len(),
                            cv == strs_view(cs@),
                            entries_view(out@) == before + cv.take(k as int).map_values(
                                |c: Seq<char>| (c, oid@),
                            ),
                        decreases cs@.len() - k,
                    {
                        let ghost b2 = out@;
                        out.push((cs[k].clone(), oid.clone()));
                        proof {
                            assert(entries_view(out@) =~= entries_view(b2).push((cv[k as int], oid@)));
                            assert(cv.take(k + 1).map_values(|c: Seq<char>| (c, oid@)) =~= cv.take(
                                k as int,
                            ).map_values(|c: Seq<char>| (c, oid@)).push((cv[k as int], oid@)));
                        }
                        k = k + 1;
                    }
                    assert(cv.take(cs@.len() as int) =~= cv);
                },
                None => {
                    assert(entries_view(out@) =~= before + Seq::<(Seq<char>, Seq<char>)>::empty());
                },
            }
        } else {
            assert(entries_view(out@) =~= before + Seq::<(Seq<char>, Seq<char>)>::empty());
        }
        i = i + 1;
    }
    assert(ov.take(objs@.len() as int) =~= ov);
    out
}

/// The group of `c` (the last entry for it).
fn parent_lookup_exec(entries: &Vec<(String, String)>, c: &str) -> (r: Option<String>)
    ensures
        match r {
            Some(g) => parent_lookup(entries_view(entries@), c@) == Some(g@),
            None => parent_lookup(entries_view(entries@), c@) is None,
        },
{
    let ghost ev = entries_view(entries@);
    let mut i = entries.len();
    assert(ev.take(i as int) =~= ev);
    while i > 0
        invariant
            i <= entries@.len(),
            ev == entries_view(entries@),
            parent_lookup(ev, c@) == parent_lookup(ev.take(i as int), c@),
        decreases i,
    {
        proof {
            assert(ev.take(i as int).drop_last() =~= ev.take(i - 1));
        }
        if str_eq(entries[i - 1].0.as_str(), c) {
            return Some(entries[i - 1].1.clone());
        }
        i = i - 1;
    }
    None
}

/// Reverses a list of strings.
fn reversed(v: &Vec<String>) -> (r: Vec<String>)
    ensures
        strs_view(r@) == strs_view(v@).reverse(),
{
    let mut out: Vec<String> = Vec::new();
    let mut i = v.len();
    while i > 0
        invariant
            i <= v@.len(),
            out@.len() == v@.len() - i,
            forall|k: int| 0 <= k < out@.len() ==> out@[k]@ == v@[v@.len() - 1 - k]@,
        decreases i,
    {
        out.push(v[i - 1].clone());
        i = i - 1;
    }
    assert(strs_view(out@) =~= strs_view(v@).reverse());
    out
}

/// Accumulated group path from an anchor down to (not including) `oid`,
/// walking up the parent chain. Returns the anchor's `sourceTree` and the
/// ordered parts. A cyclic chain stops at the first repeated group.
fn group_prefix(
    objs: &Vec<(String, JsonValue)>,
    entries: &Vec<(String, String)>,
    oid: &str,
) -> (r: (String, Vec<String>))
    ensures
        (r.0@, strs_view(r.1@)) == group_prefix_of(members_view(objs@), entries_view(entries@), oid@),
{
    let ghost ov = members_view(objs@);
    let ghost ev = entries_view(entries@);
    let mut parts: Vec<String> = Vec::new();
    let mut visited: Vec<String> = Vec::new();
    let mut cur = parent_lookup_exec(entries, oid);
    proof {
        lemma_parent_lookup_in_groups(ev, oid@);
        assert(strs_view(visited@) =~= Seq::<Seq<char>>::empty());
        assert(strs_view(parts@) =~= Seq::<Seq<char>>::empty());
    }
    loop
        invariant
            ov == members_view(objs@),
            ev == entries_view(entries@),
            strs_view(visited@).no_duplicates(),
            forall|k: int|
                0 <= k < visited@.len() ==> entry_groups(ev).contains(strs_view(visited@)[k]),
            cur matches Some(c) ==> entry_groups(ev).contains(c@),
            group_walk(
                ov,
                ev,
                match cur {
                    Some(c) => Some(c@),
                    None => None,
                },
                strs_view(visited@),
                strs_view(parts@),
            ) == group_prefix_of(ov, ev, oid@),
        decreases ev.len() + 1 - visited@.len(),
    {
        let cid = match cur {
            None => {
                return (owned("<group>"), reversed(&parts));
            },
            Some(c) => c,
        };
        proof {
            lemma_visited_bound(strs_view(visited@), entry_groups(ev));
        }
        if crate::text::contains_str(&visited, cid.as_str()) {
            return (owned("<group>"), reversed(&parts));
        }
        proof {
            let nv = strs_view(visited@).push(cid@);
            assert forall|a: int, b: int| 0 <= a < nv.len() && 0 <= b < nv.len() && a != b implies nv[a]
                != nv[b] by {
                if a == nv.len() - 1 {
                    assert(nv[b] == strs_view(visited@)[b]);
                } else if b == nv.len() - 1 {
                    assert(nv[a] == strs_view(visited@)[a]);
                } else {
                    assert(nv[a] == strs_view(visited@)[a]);
                    assert(nv[b] == strs_view(visited@)[b]);
                }
            }
            assert forall|k: int| 0 <= k < nv.len() implies entry_groups(ev).contains(nv[k]) by {
                if k < nv.len() - 1 {
                    assert(nv[k] == strs_view(visited@)[k]);
                }
            }
            lemma_visited_bound(nv, entry_groups(ev));
            assert(entry_groups(ev).len() == ev.len());
        }
        let g = match lookup_member(objs, cid.as_str()) {
            None => {
                return (owned("<group>"), reversed(&parts));
            },
            Some(g) => g,
        };
        let st = owned(field_str_or_exec(g, "sourceTree", "<group>"));
        let ghost p0 = strs_view(parts@);
        match as_str(get(g, "path")) {
            Some(p) => {
                if !is_empty_str(p) {
                    parts.push(owned(p));
                    assert(strs_view(parts@) =~= p0.push(p@));
                }
            },
            None => {},
        }
        if str_eq(st.as_str(), "SOURCE_ROOT") || str_eq(st.as_str(), "<absolute>") || str_eq(
            st.as_str(),
            "SDKROOT",
        ) || str_eq(st.as_str(), "DEVELOPER_DIR") || str_eq(st.as_str(), "BUILT_PRODUCTS_DIR") {
            return (st, reversed(&parts));
        }
        let next = parent_lookup_exec(entries, cid.as_str());
        proof {
            lemma_parent_lookup_in_groups(ev, cid@);
        }
        let ghost vb = strs_view(visited@);
        visited.push(cid);
        assert(strs_view(visited@) =~= vb.push(cid@));
        cur = next;
    }
}

/// The absolute path of a file reference (see `resolve_fileref_of`).
fn resolve_fileref(
    objs: &Vec<(String, JsonValue)>,
    entries: &Vec<(String, String)>,
    frid: &str,
    srcroot: &str,
) -> (r: Option<String>)
    ensures
        match r {
            Some(p) => resolve_fileref_of(members_view(objs@), entries_view(entries@), frid@, srcroot@)
                == Some(p@),
            None => resolve_fileref_of(
                members_view(objs@),
                entries_view(entries@),
                frid@,
                srcroot@,
            ) is None,
        },
{
    let fr = match lookup_member(objs, frid) {
        None => {
            return None;
        },
        Some(fr) => fr,
    };
    proof {
        reveal_strlit("");
        assert(""@ =~= Seq::<char>::empty());
    }
    let st = field_str_or_exec(fr, "sourceTree", "<group>");
    let path = field_str_or_exec(fr, "path", "");
    if str_eq(st, "<absolute>") {
        return Some(owned(path));
    }
    if str_eq(st, "SOURCE_ROOT") {
        return Some(lexical_normalize(join(srcroot, path).as_str()));
    }
    if str_eq(st, "SDKROOT") || str_eq(st, "DEVELOPER_DIR") || str_eq(st, "BUILT_PRODUCTS_DIR") {
        return None;
    }
    let (anchor, prefix) = group_prefix(objs, entries, frid);
    let ghost pv = strs_view(prefix@);
    let mut rel = owned("");
    let mut i: usize = 0;
    while i < prefix.len()
        invariant
            i <= prefix@.len(),
            pv == strs_view(prefix@),
            rel@ == join_all(Seq::empty(), pv.take(i as int)),
        decreases prefix@.len() - i,
    {
        proof {
            assert(pv.take(i + 1).drop_last() =~= pv.take(i as int));
        }
        rel = join(rel.as_str(), prefix[i].as_str());
        i = i + 1;
    }
    assert(pv.take(prefix@.len() as int) =~= pv);
    if !is_empty_str(path) {
        rel = join(rel.as_str(), path);
    }
    if str_eq(anchor.as_str(), "SOURCE_ROOT") || str_eq(anchor.as_str(), "<group>") {
        Some(lexical_normalize(join(srcroot, rel.as_str()).as_str()))
    } else {
        None
    }
}

/// Appends the sources of a build phase.
fn push_phase_sources(
    out: &mut Vec<String>,
    objs: &Vec<(String, JsonValue)>,
    entries: &Vec<(String, String)>,
    phid: &str,
    srcroot: &str,
)
    ensures
        strs_view(final(out)@) == strs_view(old(out)@) + phase_sources(
            members_view(objs@),
            entries_view(entries@),
            phid@,
            srcroot@,
        ),
{
    let ghost start = strs_view(out@);
    let ghost ov = members_view(objs@);
    let ghost ev = entries_view(entries@);
    let phase = match lookup_member(objs, phid) {
        None => {
            assert(strs_view(out@) =~= start + Seq::<Seq<char>>::empty());
            return;
        },
        Some(p) => p,
    };
    if !str_eq(isa_exec(phase), "PBXSourcesBuildPhase") {
        assert(strs_view(out@) =~= start + Seq::<Seq<char>>::empty());
        return;
    }
    let files = match field_strings_exec(phase, "files") {
        None => {
            assert(strs_view(out@) =~= start + Seq::<Seq<char>>::empty());
            return;
        },
        Some(f) => f,
    };
    let ghost fv = strs_view(files@);
    let mut k: usize = 0;
    while k < files.len()
        invariant
            k <= files@.len(),
            fv == strs_view(files@),
            ov == members_view(objs@),
            ev == entries_view(entries@),
            strs_view(out@) == start + files_sources(ov, ev, fv.take(k as int), srcroot@),
        decreases files@.len() - k,
    {
        let ghost before = strs_view(out@);
        proof {
            assert(fv.take(k + 1).drop_last() =~= fv.take(k as int));
            assert(fv.take(k + 1).last() == files@[k as int]@);
        }
        let bfid = files[k].as_str();
        match lookup_member(objs, bfid) {
            None => {
                assert(strs_view(out@) =~= before + Seq::<Seq<char>>::empty());
            },
            Some(bf) => match as_str(get(bf, "fileRef")) {
                None => {
                    assert(strs_view(out@) =~= before + Seq::<Seq<char>>::empty());
                },
                Some(frid) => match resolve_fileref(objs, entries, frid, srcroot) {
                    Some(p) => {
                        let ghost pv = p@;
                        out.push(p);
                        assert(strs_view(out@) =~= before + seq![pv]);
                    },
                    None => {
                        assert(strs_view(out@) =~= before + Seq::<Seq<char>>::empty());
                    },
                },
            },
        }
        k = k + 1;
    }
    assert(fv.take(files@.len() as int) =~= fv);
}

/// The sources of a target's build phases.
fn target_sources(
    objs: &Vec<(String, JsonValue)>,
    entries: &Vec<(String, String)>,
    phases: &Vec<String>,
    srcroot: &str,
) -> (r: Vec<String>)
    ensures
        strs_view(r@) == phases_sources(
            members_view(objs@),
            entries_view(entries@),
            strs_view(phases@),
            srcroot@,
        ),
{
    let ghost pv = strs_view(phases@);
    let mut out: Vec<String> = Vec::new();
    let mut k: usize = 0;
    while k < phases.len()
        invariant
            k <= phases@.len(),
            pv == strs_view(phases@),
            strs_view(out@) == phases_sources(
                members_view(objs@),
                entries_view(entries@),
                pv.take(k as int),
                srcroot@,
            ),
        decreases phases@.len() - k,
    {
        proof {
            assert(pv.take(k + 1).drop_last() =~= pv.take(k as int));
            assert(pv.take(k + 1).last() == phases@[k as int]@);
        }
        push_phase_sources(&mut out, objs, entries, phases[k].as_str(), srcroot);
        k = k + 1;
    }
    assert(pv.take(phases@.len() as int) =~= pv);
    out
}

/// Every named `PBXNativeTarget` of a parsed pbxproj, with its sources.
pub fn targets_from_value(root: &JsonValue, srcroot: &str) -> (r: Result<
    Vec<(String, Vec<String>)>,
    String,
>)
    ensures
        match r {
            Ok(t) => project_targets(root@, srcroot@) == Ok::<
                Seq<(Seq<char>, Seq<Seq<char>>)>,
                Seq<char>,
            >(targets_view(t@)),
            Err(e) => project_targets(root@, srcroot@) == Err::<
                Seq<(Seq<char>, Seq<Seq<char>>)>,
                Seq<char>,
            >(e@),
        },
{
    let objs = match get(root, "objects") {
        Some(JsonValue::Object(o)) => o,
        _ => {
            return Err(owned("pbxproj: missing 'objects'"));
        },
    };
    proof {
        lemma_object_view(*objs);
    }
    let ghost ov = members_view(objs@);
    let entries = build_parent_entries(objs);
    let ghost ev = entries_view(entries@);
    let mut targets: Vec<(String, Vec<String>)> = Vec::new();
    let mut i: usize = 0;
    while i < objs.len()
        invariant
            i <= objs@.len(),
            ov == members_view(objs@),
            ev == entries_view(entries@),
            ev == parent_entries(ov),
            targets_view(targets@) == targets_of(ov, ev, ov.take(i as int), srcroot@),
        decreases objs@.len() - i,
    {
        let ghost before = targets_view(targets@);
        let o = &objs[i].1;
        proof {
            assert(ov.take(i + 1).drop_last() =~= ov.take(i as int));
            assert(ov.take(i + 1).last().1 == o@);
        }
        if str_eq(isa_exec(o), "PBXNativeTarget") {
            match as_str(get(o, "name")) {
                Some(name) => {
                    let sources = match field_strings_exec(o, "buildPhases") {
                        Some(ph) => target_sources(objs, &entries, &ph, srcroot),
                        None => {
                            let e: Vec<String> = Vec::new();
                            assert(strs_view(e@) =~= Seq::<Seq<char>>::empty());
                            e
                        },
                    };
                    let ghost sv = strs_view(sources@);
                    targets.push((owned(name), sources));
                    assert(targets_view(targets@) =~= before + seq![(name@, sv)]);
                },
                None => {
                    assert(targets_view(targets@) =~= before + Seq::<
                        (Seq<char>, Seq<Seq<char>>),
                    >::empty());
                },
            }
        } else {
            assert(targets_view(targets@) =~= before + Seq::<(Seq<char>, Seq<Seq<char>>)>::empty());
        }
        i = i + 1;
    }
    assert(ov.take(objs@.len() as int) =~= ov);
    Ok(targets)
}

/// Resolve every `PBXNativeTarget` to `(target name, absolute source
/// paths)`. Target names are not unique across projects: callers qualify
/// them by project.
pub fn parse_targets(json: &str, srcroot: &str) -> (r: Result<Vec<(String, Vec<String>)>, String>)
    ensures
        match spec_parse_json(json@) {
            Err(e) => r matches Err(m) && m@ == "parse pbxproj json: "@ + e,
            Ok(v) => match project_targets(v, srcroot@) {
                Ok(t) => r matches Ok(x) && targets_view(x@) == t,
                Err(e) => r matches Err(m) && m@ == e,
            },
        },
{
    match parse_json(json) {
        Err(e) => Err(concat("parse pbxproj json: ", e.as_str())),
        Ok(v) => targets_from_value(&v, srcroot),
    }
}

// ── Laws ──

/// A named native target: an object whose `isa` is `PBXNativeTarget` and
/// that has a string `name`.
pub open spec fn is_named_native(o: Json) -> bool {
    isa_of(o) == "PBXNativeTarget"@ && json_str(json_get(o, "name"@)) is Some
}

/// The named native targets among `members`, in order.
pub open spec fn natives(members: Objects) -> Objects {
    members.filter(|m: (Seq<char>, Json)| is_named_native(m.1))
}

/// One target per named native target among `members`, by its name.
proof fn lemma_targets_match_natives(objs: Objects, entries: ParentEntries, members: Objects, srcroot: Seq<char>)
    ensures
        targets_of(objs, entries, members, srcroot).len() == natives(members).len(),
        forall|i: int|
            0 <= i < natives(members).len() ==> Some(#[trigger] targets_of(objs, entries, members, srcroot)[i].0)
                == json_str(json_get(natives(members)[i].1, "name"@)),
    decreases members.len(),
{
    reveal(Seq::filter);
    if members.len() > 0 {
        let p = members.drop_last();
        lemma_targets_match_natives(objs, entries, p, srcroot);
        let tp = targets_of(objs, entries, p, srcroot);
        let t = targets_of(objs, entries, members, srcroot);
        let last = members.last();
        assert(natives(members) == natives(p) + if is_named_native(last.1) {
            seq![last]
        } else {
            Seq::empty()
        });
        assert forall|i: int| 0 <= i < natives(members).len() implies Some(#[trigger] t[i].0) == json_str(
            json_get(natives(members)[i].1, "name"@),
        ) by {
            if i < natives(p).len() {
                assert(t[i] == tp[i]);
                assert(natives(members)[i] == natives(p)[i]);
            } else {
                assert(natives(members)[i] == last);
                assert(t[i] == target_of(objs, entries, last.1, srcroot)[0]);
            }
        }
    }
}

/// Law: a parsed pbxproj yields exactly one target per object whose `isa`
/// is `PBXNativeTarget` and that has a string `name`, in object order, each
/// under that name; no native target is dropped or added.
pub proof fn lemma_one_target_per_native(v: Json, srcroot: Seq<char>)
    ensures
        project_targets(v, srcroot) is Ok <==> json_get(v, "objects"@) matches Some(Json::Object(_)),
        project_targets(v, srcroot) matches Ok(t) ==> json_get(v, "objects"@) matches Some(Json::Object(objs))
            && t.len() == natives(objs).len() && forall|i: int|
            0 <= i < t.len() ==> Some(#[trigger] t[i].0) == json_str(json_get(natives(objs)[i].1, "name"@)),
{
    if let Some(Json::Object(objs)) = json_get(v, "objects"@) {
        lemma_targets_match_natives(objs, parent_entries(objs), objs, srcroot);
    }
}

} // verus!
