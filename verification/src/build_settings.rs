//! Build settings as `xcodebuild -showBuildSettings -json` reports them, the
//! scheme list of `xcodebuild -list -json`, the whitespace-split rule for
//! multi-valued settings, and the index-store location derived from them.

use vstd::prelude::*;
use crate::json::{
    as_str, clone_members, get, get_opt, json_get, json_get_opt, json_str, lookup_member, member_lookup,
    members_view, items_view, lemma_array_view, lemma_object_view, opt_view, parse_json,
    spec_parse_json, Json, JsonValue,
};
use crate::path::{file_name, file_name_of, join, join_path, parent, parent_of, lemma_parent_shorter};
use crate::text::{
    contains_str, from_chars, is_whitespace_char, is_ws, owned, str_eq, strs_view, to_chars,
};

verus! {

broadcast use vstd::string::group_string_axioms;

/// Parsed build settings for one target: the members of its
/// `buildSettings` object.
pub struct BuildSettings {
    map: Vec<(String, JsonValue)>,
}

impl View for BuildSettings {
    type V = Seq<(Seq<char>, Json)>;

    closed spec fn view(&self) -> Seq<(Seq<char>, Json)> {
        members_view(self.map@)
    }
}

/// The string value of `key`, when present and a string.
pub open spec fn setting(m: Seq<(Seq<char>, Json)>, key: Seq<char>) -> Option<Seq<char>> {
    json_str(member_lookup(m, key))
}

/// The string value of `key`, or `default`.
pub open spec fn setting_or(m: Seq<(Seq<char>, Json)>, key: Seq<char>, default: Seq<char>) -> Seq<
    char,
> {
    match setting(m, key) {
        Some(v) => v,
        None => default,
    }
}

/// An Xcode boolean setting: true only for exactly `YES`.
pub open spec fn setting_flag(m: Seq<(Seq<char>, Json)>, key: Seq<char>) -> bool {
    setting(m, key) == Some("YES"@)
}

/// The view of an optional string slice.
pub open spec fn opt_str(o: Option<&str>) -> Option<Seq<char>> {
    match o {
        Some(s) => Some(s@),
        None => None,
    }
}

impl BuildSettings {
    /// String value for `key`, if present and a string.
    pub fn get(&self, key: &str) -> (r: Option<&str>)
        ensures
            opt_str(r) == setting(self@, key@),
    {
        as_str(lookup_member(&self.map, key))
    }

    /// String value for `key`, or `default` when absent or not a string.
    pub fn get_or<'a>(&'a self, key: &str, default: &'a str) -> (r: &'a str)
        ensures
            r@ == setting_or(self@, key@, default@),
    {
        match self.get(key) {
            Some(v) => v,
            None => default,
        }
    }

    /// Xcode boolean setting: true only when the value is exactly "YES".
    pub fn bool_flag(&self, key: &str) -> (r: bool)
        ensures
            r == setting_flag(self@, key@),
    {
        match self.get(key) {
            Some(v) => str_eq(v, "YES"),
            None => false,
        }
    }
}

// ── Scheme list ──

/// The string items of a JSON array, in order (others are skipped).
pub open spec fn string_items(items: Seq<Json>) -> Seq<Seq<char>>
    decreases items.len(),
{
    if items.len() == 0 {
        Seq::empty()
    } else {
        string_items(items.drop_last()) + match items.last() {
            Json::Str(s) => seq![s],
            _ => Seq::empty(),
        }
    }
}

/// The `schemes` array under `container`, if it is one.
pub open spec fn schemes_under(v: Json, container: Seq<char>) -> Option<Seq<Json>> {
    match json_get_opt(json_get(v, container), "schemes"@) {
        Some(Json::Array(items)) => Some(items),
        _ => None,
    }
}

/// Scheme names of an `xcodebuild -list -json` value: from `workspace`,
/// else from `project`, else none.
pub open spec fn scheme_list_of(v: Json) -> Seq<Seq<char>> {
    match schemes_under(v, "workspace"@) {
        Some(items) => string_items(items),
        None => match schemes_under(v, "project"@) {
            Some(items) => string_items(items),
            None => Seq::empty(),
        },
    }
}

/// The string items of an array, as owned strings.
pub fn string_items_exec(a: &Vec<JsonValue>) -> (r: Vec<String>)
    ensures
        strs_view(r@) == string_items(items_view(a@)),
{
    let ghost items = items_view(a@);
    let mut out: Vec<String> = Vec::new();
    let mut i: usize = 0;
    while i < a.len()
        invariant
            i <= a@.len(),
            items == items_view(a@),
            strs_view(out@) == string_items(items.take(i as int)),
        decreases a@.len() - i,
    {
        let ghost before = out@;
        proof {
            assert(items.take(i + 1).drop_last() =~= items.take(i as int));
            assert(items.take(i + 1).last() == a@[i as int]@);
        }
        match &a[i] {
            JsonValue::Str(s) => {
                out.push(s.clone());
                assert(strs_view(out@) =~= strs_view(before) + seq![s@]);
            },
            _ => {
                assert(strs_view(out@) =~= strs_view(before) + Seq::<Seq<char>>::empty());
            },
        }
        i = i + 1;
    }
    assert(items.take(a@.len() as int) =~= items);
    out
}

/// The `schemes` array under `container`.
fn schemes_under_exec<'a>(v: &'a JsonValue, container: &str) -> (r: Option<&'a Vec<JsonValue>>)
    ensures
        match r {
            Some(a) => schemes_under(v@, container@) == Some(items_view(a@)),
            None => schemes_under(v@, container@) is None,
        },
{
    let c = get(v, container);
    match get_opt(c, "schemes") {
        Some(JsonValue::Array(a)) => {
            proof {
                lemma_array_view(*a);
            }
            Some(a)
        },
        _ => None,
    }
}

/// Scheme names of a parsed `xcodebuild -list -json` value.
pub fn scheme_list_from_value(v: &JsonValue) -> (r: Vec<String>)
    ensures
        strs_view(r@) == scheme_list_of(v@),
{
    match schemes_under_exec(v, "workspace") {
        Some(a) => string_items_exec(a),
        None => match schemes_under_exec(v, "project") {
            Some(a) => string_items_exec(a),
            None => Vec::new(),
        },
    }
}

/// Parse `xcodebuild -list -json` output into the list of scheme names;
/// text that is not JSON gives none.
pub fn parse_scheme_list(json: &str) -> (r: Vec<String>)
    ensures
        match spec_parse_json(json@) {
            Ok(v) => strs_view(r@) == scheme_list_of(v),
            Err(_) => r@.len() == 0,
        },
{
    match parse_json(json) {
        Ok(v) => scheme_list_from_value(&v),
        Err(_) => Vec::new(),
    }
}

// ── Build settings of one target ──

/// The first entry whose `target` is `name`.
pub open spec fn find_target_entry(items: Seq<Json>, name: Seq<char>) -> Option<Json>
    decreases items.len(),
{
    if items.len() == 0 {
        None
    } else if json_str(json_get(items[0], "target"@)) == Some(name) {
        Some(items[0])
    } else {
        find_target_entry(items.drop_first(), name)
    }
}

/// The settings members picked from a `-showBuildSettings` array: the entry
/// of `target` when given and present, else the first entry.
pub open spec fn settings_from(v: Json, target: Option<Seq<char>>) -> Result<
    Seq<(Seq<char>, Json)>,
    Seq<char>,
> {
    match v {
        Json::Array(items) => if items.len() == 0 {
            Err("empty -showBuildSettings array"@)
        } else {
            let entry = match target {
                Some(n) => match find_target_entry(items, n) {
                    Some(e) => e,
                    None => items[0],
                },
                None => items[0],
            };
            match json_get(entry, "buildSettings"@) {
                Some(Json::Object(m)) => Ok(m),
                _ => Err("missing buildSettings object"@),
            }
        },
        _ => Err("empty -showBuildSettings array"@),
    }
}

proof fn lemma_find_target_entry(items: Seq<Json>, name: Seq<char>, i: int)
    requires
        0 <= i <= items.len(),
        forall|k: int| 0 <= k < i ==> json_str(json_get(items[k], "target"@)) != Some(name),
    ensures
        find_target_entry(items, name) == find_target_entry(items.subrange(i, items.len() as int), name),
    decreases i,
{
    if i == 0 {
        assert(items.subrange(0, items.len() as int) =~= items);
    } else {
        assert(items.subrange(1, items.len() as int) =~= items.drop_first());
        assert(json_str(json_get(items[0], "target"@)) != Some(name));
        let rest = items.drop_first();
        assert forall|k: int| 0 <= k < i - 1 implies json_str(json_get(rest[k], "target"@)) != Some(
            name,
        ) by {
            assert(rest[k] == items[k + 1]);
        }
        lemma_find_target_entry(rest, name, i - 1);
        assert(rest.subrange(i - 1, rest.len() as int) =~= items.subrange(i, items.len() as int));
    }
}

/// The entry found for `name` is the first whose `target` is `name`; none
/// is found only when no entry has it.
proof fn lemma_find_target_first(items: Seq<Json>, name: Seq<char>)
    ensures
        match find_target_entry(items, name) {
            Some(e) => exists|i: int| 0 <= i < items.len() && items[i] == e
                && json_str(json_get(#[trigger] items[i], "target"@)) == Some(name)
                && forall|j: int| 0 <= j < i ==> json_str(json_get(#[trigger] items[j], "target"@)) != Some(name),
            None => forall|j: int| 0 <= j < items.len() ==> json_str(json_get(#[trigger] items[j], "target"@)) != Some(name),
        },
    decreases items.len(),
{
    if items.len() > 0 {
        let rest = items.drop_first();
        lemma_find_target_first(rest, name);
        if json_str(json_get(items[0], "target"@)) != Some(name) {
            match find_target_entry(rest, name) {
                Some(e) => {
                    let i = choose|i: int| 0 <= i < rest.len() && rest[i] == e
                        && json_str(json_get(#[trigger] rest[i], "target"@)) == Some(name)
                        && forall|j: int| 0 <= j < i ==> json_str(json_get(#[trigger] rest[j], "target"@)) != Some(name);
                    assert(items[i + 1] == rest[i]);
                    assert forall|j: int| 0 <= j < i + 1 implies json_str(json_get(#[trigger] items[j], "target"@)) != Some(name) by {
                        if j > 0 {
                            assert(items[j] == rest[j - 1]);
                        }
                    }
                },
                None => {
                    assert forall|j: int| 0 <= j < items.len() implies json_str(json_get(#[trigger] items[j], "target"@)) != Some(name) by {
                        if j > 0 {
                            assert(items[j] == rest[j - 1]);
                        }
                    }
                },
            }
        }
    }
}

/// Law: reading `-showBuildSettings` output succeeds exactly when it is a
/// non-empty array whose chosen entry has a `buildSettings` object; the
/// chosen entry is the first whose `target` is the given name, else the
/// first entry; and the settings are that object's members.
pub proof fn lemma_settings_choice(v: Json, target: Option<Seq<char>>)
    ensures
        settings_from(v, target) is Ok <==> (v matches Json::Array(items) && items.len() > 0 && json_get(
            chosen_entry(items, target),
            "buildSettings"@,
        ) matches Some(Json::Object(_))),
        settings_from(v, target) matches Ok(m) ==> v matches Json::Array(items) && json_get(
            chosen_entry(items, target),
            "buildSettings"@,
        ) == Some(Json::Object(m)),
        v matches Json::Array(items) ==> match target {
            Some(n) => match find_target_entry(items, n) {
                Some(e) => exists|i: int| 0 <= i < items.len() && items[i] == e && e == chosen_entry(items, target)
                    && json_str(json_get(#[trigger] items[i], "target"@)) == Some(n)
                    && forall|j: int| 0 <= j < i ==> json_str(json_get(#[trigger] items[j], "target"@)) != Some(n),
                None => chosen_entry(items, target) == items[0],
            },
            None => chosen_entry(items, target) == items[0],
        },
{
    if let Json::Array(items) = v {
        if let Some(n) = target {
            lemma_find_target_first(items, n);
        }
    }
}

/// The entry settings are read from: the first whose `target` is the given
/// name, else the first.
pub open spec fn chosen_entry(items: Seq<Json>, target: Option<Seq<char>>) -> Json {
    match target {
        Some(n) => match find_target_entry(items, n) {
            Some(e) => e,
            None => items[0],
        },
        None => items[0],
    }
}

/// Index of the first entry whose `target` is `name`.
fn find_target_index(arr: &Vec<JsonValue>, name: &str) -> (r: Option<usize>)
    ensures
        match r {
            Some(i) => i < arr@.len() && find_target_entry(items_view(arr@), name@) == Some(
                arr@[i as int]@,
            ),
            None => find_target_entry(items_view(arr@), name@) is None,
        },
{
    let ghost items = items_view(arr@);
    let mut i: usize = 0;
    while i < arr.len()
        invariant
            i <= arr@.len(),
            items == items_view(arr@),
            forall|k: int| 0 <= k < i ==> json_str(json_get(items[k], "target"@)) != Some(name@),
        decreases arr@.len() - i,
    {
        let t = as_str(get(&arr[i], "target"));
        let hit = match t {
            Some(x) => str_eq(x, name),
            None => false,
        };
        if hit {
            proof {
                lemma_find_target_entry(items, name@, i as int);
            }
            return Some(i);
        }
        i = i + 1;
    }
    proof {
        lemma_find_target_entry(items, name@, arr@.len() as int);
    }
    None
}

/// The settings of `target` (or of the first entry) in a parsed
/// `-showBuildSettings` value.
pub fn build_settings_from_value(v: &JsonValue, target: Option<&str>) -> (r: Result<
    BuildSettings,
    String,
>)
    ensures
        match r {
            Ok(s) => settings_from(v@, opt_str(target)) == Ok::<Seq<(Seq<char>, Json)>, Seq<char>>(
                s@,
            ),
            Err(e) => settings_from(v@, opt_str(target)) == Err::<Seq<(Seq<char>, Json)>, Seq<char>>(
                e@,
            ),
        },
{
    let arr = match v {
        JsonValue::Array(a) => a,
        _ => {
            return Err(owned("empty -showBuildSettings array"));
        },
    };
    proof {
        lemma_array_view(*arr);
    }
    let ghost items = items_view(arr@);
    if arr.len() == 0 {
        return Err(owned("empty -showBuildSettings array"));
    }
    let idx: usize = match target {
        Some(name) => match find_target_index(arr, name) {
            Some(i) => i,
            None => 0,
        },
        None => 0,
    };
    let entry = &arr[idx];
    match get(entry, "buildSettings") {
        Some(JsonValue::Object(m)) => {
            proof {
                lemma_object_view(*m);
            }
            Ok(BuildSettings { map: clone_members(m) })
        },
        _ => Err(owned("missing buildSettings object")),
    }
}

/// Parse the `[{action, buildSettings, target}]` array of
/// `xcodebuild -showBuildSettings -json`. When `target` is given, the entry
/// whose `target` matches; otherwise (or if no match) the first entry.
pub fn parse_build_settings_for_target(json: &str, target: Option<&str>) -> (r: Result<
    BuildSettings,
    String,
>)
    ensures
        match spec_parse_json(json@) {
            Err(e) => r matches Err(m) && m@ == "parse -showBuildSettings JSON: "@ + e,
            Ok(v) => match settings_from(v, opt_str(target)) {
                Ok(s) => r matches Ok(b) && b@ == s,
                Err(e) => r matches Err(m) && m@ == e,
            },
        },
{
    match parse_json(json) {
        Err(e) => {
            let m = crate::text::concat("parse -showBuildSettings JSON: ", e.as_str());
            Err(m)
        },
        Ok(v) => build_settings_from_value(&v, target),
    }
}

// ── Multi-valued settings ──

/// The whitespace-separated tokens of `s`, in order (runs of whitespace
/// separate; no token is empty).
pub open spec fn ws_tokens(s: Seq<char>) -> Seq<Seq<char>>
    decreases s.len(),
{
    if s.len() == 0 {
        Seq::empty()
    } else {
        let t = ws_tokens(s.drop_last());
        if is_ws(s.last()) {
            t
        } else if s.len() >= 2 && !is_ws(s[s.len() - 2]) {
            t.drop_last().push(t.last().push(s.last()))
        } else {
            t.push(seq![s.last()])
        }
    }
}

/// First occurrences of each element, in order.
pub open spec fn dedup_first(t: Seq<Seq<char>>) -> Seq<Seq<char>>
    decreases t.len(),
{
    if t.len() == 0 {
        Seq::empty()
    } else {
        let d = dedup_first(t.drop_last());
        if d.contains(t.last()) {
            d
        } else {
            d.push(t.last())
        }
    }
}

/// The split rule for a space-joined build-setting value.
pub open spec fn split_multi_spec(s: Seq<char>) -> Seq<Seq<char>> {
    dedup_first(ws_tokens(s))
}

/// Split a space-joined build-setting value on whitespace runs, drop empty
/// tokens, keep the first occurrence of each token in order.
pub fn split_multi(value: &str) -> (r: Vec<String>)
    ensures
        strs_view(r@) == split_multi_spec(value@),
{
    let cs = to_chars(value);
    let ghost mut done: Seq<Seq<char>> = Seq::empty();
    let mut out: Vec<String> = Vec::new();
    let mut cur: Vec<char> = Vec::new();
    let mut i: usize = 0;
    while i < cs.len()
        invariant
            i <= cs@.len(),
            cur@.len() == 0 ==> ws_tokens(cs@.take(i as int)) == done,
            cur@.len() == 0 ==> (i == 0 || is_ws(cs@[i - 1])),
            cur@.len() > 0 ==> ws_tokens(cs@.take(i as int)) == done.push(cur@),
            cur@.len() > 0 ==> (i > 0 && !is_ws(cs@[i - 1])),
            strs_view(out@) == dedup_first(done),
        decreases cs@.len() - i,
    {
        let c = cs[i];
        proof {
            assert(cs@.take(i + 1).drop_last() =~= cs@.take(i as int));
            assert(cs@.take(i + 1).last() == c);
            if i > 0 {
                assert(cs@.take(i + 1)[i - 1] == cs@[i - 1]);
            }
        }
        if is_whitespace_char(c) {
            if cur.len() > 0 {
                let tok = from_chars(&cur);
                let ghost old_done = done;
                let ghost old_out = out@;
                proof {
                    done = done.push(cur@);
                    assert(done.drop_last() =~= old_done);
                }
                if !contains_str(&out, tok.as_str()) {
                    out.push(tok);
                    assert(strs_view(out@) =~= strs_view(old_out).push(tok@));
                }
                assert(strs_view(out@) =~= dedup_first(done));
                cur = Vec::new();
            }
        } else {
            let ghost old_cur = cur@;
            cur.push(c);
            proof {
                if old_cur.len() > 0 {
                    assert(done.push(old_cur).drop_last() =~= done);
                    assert(done.push(cur@) =~= done.push(old_cur).drop_last().push(
                        done.push(old_cur).last().push(c),
                    ));
                } else {
                    assert(cur@ =~= seq![c]);
                }
            }
        }
        i = i + 1;
    }
    assert(cs@.take(cs@.len() as int) =~= cs@);
    if cur.len() > 0 {
        let tok = from_chars(&cur);
        let ghost old_done = done;
        let ghost old_out = out@;
        proof {
            done = done.push(cur@);
            assert(done.drop_last() =~= old_done);
        }
        if !contains_str(&out, tok.as_str()) {
            out.push(tok);
            assert(strs_view(out@) =~= strs_view(old_out).push(tok@));
        }
        assert(strs_view(out@) =~= dedup_first(done));
    }
    out
}

/// The tokens of `split_multi` are non-empty and hold no whitespace.
pub proof fn lemma_ws_tokens_shape(s: Seq<char>)
    ensures
        forall|k: int|
            0 <= k < ws_tokens(s).len() ==> #[trigger] ws_tokens(s)[k].len() > 0 && forall|m: int|
                0 <= m < ws_tokens(s)[k].len() ==> !is_ws(ws_tokens(s)[k][m]),
        s.len() > 0 && !is_ws(s.last()) ==> ws_tokens(s).len() > 0,
    decreases s.len(),
{
    if s.len() > 0 {
        lemma_ws_tokens_shape(s.drop_last());
        if s.len() >= 2 && !is_ws(s[s.len() - 2]) {
            assert(s.drop_last().last() == s[s.len() - 2]);
        }
        let t = ws_tokens(s.drop_last());
        let r = ws_tokens(s);
        assert forall|k: int| 0 <= k < r.len() implies #[trigger] r[k].len() > 0 && forall|m: int|
            0 <= m < r[k].len() ==> !is_ws(r[k][m]) by {
            if !is_ws(s.last()) && s.len() >= 2 && !is_ws(s[s.len() - 2]) && k == r.len() - 1 {
                assert(r[k] == t.last().push(s.last()));
                assert forall|m: int| 0 <= m < r[k].len() implies !is_ws(r[k][m]) by {
                    if m < t.last().len() {
                        assert(r[k][m] == t[t.len() - 1][m]);
                    }
                }
            } else if !is_ws(s.last()) && !(s.len() >= 2 && !is_ws(s[s.len() - 2])) && k == r.len()
                - 1 {
                assert(r[k] =~= seq![s.last()]);
            } else {
                assert(r[k] == t[k]);
            }
        }
    }
}

/// `dedup_first` keeps exactly the elements of its input, each once.
pub proof fn lemma_dedup_first(t: Seq<Seq<char>>)
    ensures
        dedup_first(t).no_duplicates(),
        forall|x: Seq<char>| dedup_first(t).contains(x) <==> t.contains(x),
    decreases t.len(),
{
    if t.len() > 0 {
        let p = t.drop_last();
        lemma_dedup_first(p);
        let d = dedup_first(p);
        let last = t.last();
        assert forall|x: Seq<char>| dedup_first(t).contains(x) implies t.contains(x) by {
            if d.contains(x) {
                assert(p.contains(x));
                let k = choose|k: int| 0 <= k < p.len() && p[k] == x;
                assert(t[k] == x);
            } else {
                assert(x == last);
                assert(t[t.len() - 1] == x);
            }
        }
        assert forall|x: Seq<char>| t.contains(x) implies dedup_first(t).contains(x) by {
            let k = choose|k: int| 0 <= k < t.len() && t[k] == x;
            if k < t.len() - 1 {
                assert(p[k] == x);
                assert(p.contains(x));
                assert(d.contains(x));
                let j = choose|j: int| 0 <= j < d.len() && d[j] == x;
                if !d.contains(last) {
                    assert(d.push(last)[j] == x);
                }
            } else {
                if !d.contains(last) {
                    assert(d.push(last)[d.len() as int] == x);
                }
            }
        }
        if !d.contains(last) {
            assert forall|i: int, j: int|
                0 <= i < d.push(last).len() && 0 <= j < d.push(last).len() && i != j implies d.push(
                last,
            )[i] != d.push(last)[j] by {
                if i == d.len() {
                    assert(d[j] == d.push(last)[j]);
                } else if j == d.len() {
                    assert(d[i] == d.push(last)[i]);
                }
            }
        }
    }
}

/// Law of `split_multi`: every result is a whitespace-free non-empty token of
/// the input, each token of the input is in the result, and none twice.
pub proof fn lemma_split_multi(value: Seq<char>)
    ensures
        split_multi_spec(value).no_duplicates(),
        forall|x: Seq<char>| split_multi_spec(value).contains(x) <==> ws_tokens(value).contains(x),
        forall|k: int|
            0 <= k < split_multi_spec(value).len() ==> #[trigger] split_multi_spec(value)[k].len()
                > 0,
{
    lemma_dedup_first(ws_tokens(value));
    lemma_ws_tokens_shape(value);
    assert forall|k: int|
        0 <= k < split_multi_spec(value).len() implies #[trigger] split_multi_spec(value)[k].len()
        > 0 by {
        let x = split_multi_spec(value)[k];
        assert(split_multi_spec(value).contains(x));
        assert(ws_tokens(value).contains(x));
        let j = choose|j: int| 0 <= j < ws_tokens(value).len() && ws_tokens(value)[j] == x;
        assert(ws_tokens(value)[j].len() > 0);
    }
}

// ── Index store ──

/// The parent of the nearest path named `Build` among `p` and its
/// ancestors.
pub open spec fn build_anchor(p: Seq<char>) -> Option<Seq<char>>
    decreases p.len(),
{
    if file_name_of(p) == Some("Build"@) {
        parent_of(p)
    } else {
        match parent_of(p) {
            Some(q) => {
                proof {
                    lemma_parent_shorter(p);
                }
                build_anchor(q)
            },
            None => None,
        }
    }
}

/// `<DerivedData>/<Proj>-<hash>/Index.noindex/DataStore` for a
/// `BUILD_ROOT`-like path: the parent of its nearest `Build` ancestor (the
/// path itself included), joined with `Index.noindex/DataStore`.
pub open spec fn index_store_of(build_root: Seq<char>) -> Option<Seq<char>> {
    match build_anchor(build_root) {
        Some(d) => Some(join_path(join_path(d, "Index.noindex"@), "DataStore"@)),
        None => None,
    }
}

/// Map a BUILD_ROOT-like path to `<DerivedData root>/Index.noindex/DataStore`
/// by finding the `Build` ancestor. Does not touch the filesystem.
pub fn index_store_from_build_root(build_root: &str) -> (r: Option<String>)
    ensures
        r matches Some(x) ==> index_store_of(build_root@) == Some(x@),
        r is None ==> index_store_of(build_root@) is None,
{
    let mut cur = owned(build_root);
    loop
        invariant
            build_anchor(cur@) == build_anchor(build_root@),
        decreases cur@.len(),
    {
        let is_build = match file_name(cur.as_str()) {
            Some(n) => str_eq(n.as_str(), "Build"),
            None => false,
        };
        if is_build {
            return match parent(cur.as_str()) {
                Some(dd) => {
                    let a = join(dd.as_str(), "Index.noindex");
                    Some(join(a.as_str(), "DataStore"))
                },
                None => None,
            };
        }
        match parent(cur.as_str()) {
            Some(q) => {
                proof {
                    lemma_parent_shorter(cur@);
                }
                cur = q;
            },
            None => {
                return None;
            },
        }
    }
}

/// The build-root setting the index store is derived from: `BUILD_ROOT`,
/// else `SYMROOT`, else `BUILD_DIR`.
pub open spec fn build_root_setting(m: Seq<(Seq<char>, Json)>) -> Option<Seq<char>> {
    match setting(m, "BUILD_ROOT"@) {
        Some(v) => Some(v),
        None => match setting(m, "SYMROOT"@) {
            Some(v) => Some(v),
            None => setting(m, "BUILD_DIR"@),
        },
    }
}

/// Where the Xcode index store of these settings lives, for the index
/// advertisement: derived from `BUILD_ROOT`, else `SYMROOT`, else
/// `BUILD_DIR`. Whether the store exists on disk is not checked here: the
/// caller advertises the path only after seeing that it is a directory.
pub open spec fn index_store_path_of(m: Seq<(Seq<char>, Json)>) -> Option<Seq<char>> {
    match build_root_setting(m) {
        Some(b) => index_store_of(b),
        None => None,
    }
}

/// The Xcode index-store path of these settings (see `index_store_path_of`).
/// The caller checks that the store exists on disk before advertising it.
pub fn derive_index_store_path(settings: &BuildSettings) -> (r: Option<String>)
    ensures
        crate::protocol::opt_string(r) == index_store_path_of(settings@),
{
    let br = match settings.get("BUILD_ROOT") {
        Some(v) => v,
        None => match settings.get("SYMROOT") {
            Some(v) => v,
            None => match settings.get("BUILD_DIR") {
                Some(v) => v,
                None => {
                    return None;
                },
            },
        },
    };
    index_store_from_build_root(br)
}

} // verus!
