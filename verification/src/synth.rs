//! Compiler arguments synthesized from build settings, without building:
//! per-file clang arguments for ObjC/C/C++, whole-module swiftc arguments
//! for Swift, and the header-directory augmentation scoped to a target.

use vstd::prelude::*;
use crate::build_settings::{
    setting, setting_flag, setting_or, split_multi, split_multi_spec, BuildSettings,
};
use crate::path::{extension, extension_of, is_absolute, is_rooted, join, join_path};
use crate::sort::{insert_sorted, sorted_strict};
use crate::text::{
    ascii_lower_seq, concat, contains_str, ends_with, is_empty_str, owned, str_eq, strip_suffix,
    strs_view, to_ascii_lowercase, trim, trim_seq,
};

verus! {

broadcast use vstd::string::group_string_axioms;

// ── Argument-list building blocks ──

/// `flag item` for each item, in order.
pub open spec fn flag_pairs(flag: Seq<char>, items: Seq<Seq<char>>) -> Seq<Seq<char>>
    decreases items.len(),
{
    if items.len() == 0 {
        Seq::empty()
    } else {
        flag_pairs(flag, items.drop_last()) + seq![flag, items.last()]
    }
}

/// `pre` glued to the front of each item.
pub open spec fn prefixed(pre: Seq<char>, items: Seq<Seq<char>>) -> Seq<Seq<char>> {
    items.map_values(|x: Seq<char>| pre + x)
}

/// `flag value` when the value is present and not empty.
pub open spec fn nonempty_pair(flag: Seq<char>, v: Option<Seq<char>>) -> Seq<Seq<char>> {
    match v {
        Some(x) => if x.len() > 0 {
            seq![flag, x]
        } else {
            Seq::empty()
        },
        None => Seq::empty(),
    }
}

/// The present, non-empty value of `key`.
pub open spec fn nonempty_setting(m: Seq<(Seq<char>, crate::json::Json)>, key: Seq<char>) -> Option<
    Seq<char>,
> {
    match setting(m, key) {
        Some(x) => if x.len() > 0 {
            Some(x)
        } else {
            None
        },
        None => None,
    }
}

/// The multi-valued setting `key`, split (absent reads as empty).
pub open spec fn multi(m: Seq<(Seq<char>, crate::json::Json)>, key: Seq<char>) -> Seq<Seq<char>> {
    split_multi_spec(setting_or(m, key, Seq::empty()))
}

fn push_str(out: &mut Vec<String>, s: &str)
    ensures
        strs_view(final(out)@) == strs_view(old(out)@).push(s@),
{
    let ghost before = out@;
    out.push(owned(s));
    assert(strs_view(out@) =~= strs_view(before).push(s@));
}

fn push_string(out: &mut Vec<String>, s: String)
    ensures
        strs_view(final(out)@) == strs_view(old(out)@).push(s@),
{
    let ghost before = out@;
    let ghost sv = s@;
    out.push(s);
    assert(strs_view(out@) =~= strs_view(before).push(sv));
}

fn push_pairs(out: &mut Vec<String>, flag: &str, items: &Vec<String>)
    ensures
        strs_view(final(out)@) == strs_view(old(out)@) + flag_pairs(flag@, strs_view(items@)),
{
    let ghost start = strs_view(out@);
    let ghost iv = strs_view(items@);
    let mut i: usize = 0;
    while i < items.len()
        invariant
            i <= items@.len(),
            iv == strs_view(items@),
            strs_view(out@) == start + flag_pairs(flag@, iv.take(i as int)),
        decreases items@.len() - i,
    {
        push_str(out, flag);
        push_str(out, items[i].as_str());
        proof {
            assert(iv.take(i + 1).drop_last() =~= iv.take(i as int));
            assert(iv.take(i + 1).last() == items@[i as int]@);
            assert(strs_view(out@) =~= start + flag_pairs(flag@, iv.take(i + 1)));
        }
        i = i + 1;
    }
    assert(iv.take(items@.len() as int) =~= iv);
}

fn push_prefixed(out: &mut Vec<String>, pre: &str, items: &Vec<String>)
    ensures
        strs_view(final(out)@) == strs_view(old(out)@) + prefixed(pre@, strs_view(items@)),
{
    let ghost start = strs_view(out@);
    let ghost iv = strs_view(items@);
    let mut i: usize = 0;
    while i < items.len()
        invariant
            i <= items@.len(),
            iv == strs_view(items@),
            strs_view(out@) == start + prefixed(pre@, iv.take(i as int)),
        decreases items@.len() - i,
    {
        let g = concat(pre, items[i].as_str());
        push_string(out, g);
        proof {
            assert(prefixed(pre@, iv.take(i + 1)) =~= prefixed(pre@, iv.take(i as int)).push(
                pre@ + iv[i as int],
            ));
            assert(strs_view(out@) =~= start + prefixed(pre@, iv.take(i + 1)));
        }
        i = i + 1;
    }
    assert(iv.take(items@.len() as int) =~= iv);
}

fn push_all(out: &mut Vec<String>, items: &Vec<String>)
    ensures
        strs_view(final(out)@) == strs_view(old(out)@) + strs_view(items@),
{
    let ghost start = strs_view(out@);
    let ghost iv = strs_view(items@);
    let mut i: usize = 0;
    while i < items.len()
        invariant
            i <= items@.len(),
            iv == strs_view(items@),
            strs_view(out@) == start + iv.take(i as int),
        decreases items@.len() - i,
    {
        push_str(out, items[i].as_str());
        proof {
            assert(iv.take(i + 1) =~= iv.take(i as int).push(iv[i as int]));
            assert(strs_view(out@) =~= start + iv.take(i + 1));
        }
        i = i + 1;
    }
    assert(iv.take(items@.len() as int) =~= iv);
}

/// Prefixes every item (`-I<dir>`, `-D<def>`).
fn prefix_all(pre: &str, items: &Vec<String>) -> (r: Vec<String>)
    ensures
        strs_view(r@) == prefixed(pre@, strs_view(items@)),
{
    let mut out: Vec<String> = Vec::new();
    push_prefixed(&mut out, pre, items);
    assert(strs_view(out@) =~= prefixed(pre@, strs_view(items@)));
    out
}

/// The present, non-empty value of `key`.
fn nonempty_get<'a>(settings: &'a BuildSettings, key: &str) -> (r: Option<&'a str>)
    ensures
        match r {
            Some(x) => nonempty_setting(settings@, key@) == Some(x@),
            None => nonempty_setting(settings@, key@) is None,
        },
{
    match settings.get(key) {
        Some(x) => if is_empty_str(x) {
            None
        } else {
            Some(x)
        },
        None => None,
    }
}

// ── Clang (ObjC / C / C++) ──

/// The lower-cased extension of a file (empty when it has none).
pub open spec fn file_ext_lower(file: Seq<char>) -> Seq<char> {
    ascii_lower_seq(
        match extension_of(file) {
            Some(e) => e,
            None => Seq::empty(),
        },
    )
}

/// Objective-C++ extensions.
pub open spec fn is_cpp_ext(e: Seq<char>) -> bool {
    e == "mm"@ || e == "cpp"@ || e == "cc"@ || e == "cxx"@
}

/// Language, standard, target triple, ARC and system root.
pub open spec fn clang_head(m: Seq<(Seq<char>, crate::json::Json)>, cpp: bool) -> Seq<Seq<char>> {
    seq![
        "-x"@,
        if cpp {
            "objective-c++"@
        } else {
            "objective-c"@
        },
        "-std="@ + if cpp {
            setting_or(m, "CLANG_CXX_LANGUAGE_STANDARD"@, "gnu++20"@)
        } else {
            setting_or(m, "GCC_C_LANGUAGE_STANDARD"@, "gnu17"@)
        },
        "-target"@,
        "aarch64-apple-macos"@ + setting_or(m, "MACOSX_DEPLOYMENT_TARGET"@, "11.0"@),
    ] + (if setting_flag(m, "CLANG_ENABLE_OBJC_ARC"@) {
        seq!["-fobjc-arc"@]
    } else {
        Seq::empty()
    }) + nonempty_pair("-isysroot"@, setting(m, "SDKROOT"@))
}

/// Search paths, definitions, modules and passthrough flags.
pub open spec fn clang_body(
    m: Seq<(Seq<char>, crate::json::Json)>,
    cpp: bool,
    dirs: Seq<Seq<char>>,
) -> Seq<Seq<char>> {
    flag_pairs("-I"@, multi(m, "HEADER_SEARCH_PATHS"@)) + flag_pairs("-I"@, dirs) + flag_pairs(
        "-iquote"@,
        multi(m, "USER_HEADER_SEARCH_PATHS"@),
    ) + flag_pairs("-F"@, multi(m, "FRAMEWORK_SEARCH_PATHS"@)) + prefixed(
        "-D"@,
        multi(m, "GCC_PREPROCESSOR_DEFINITIONS"@),
    ) + (if setting_flag(m, "CLANG_ENABLE_MODULES"@) {
        seq!["-fmodules"@]
    } else {
        Seq::empty()
    }) + multi(
        m,
        if cpp {
            "OTHER_CPLUSPLUSFLAGS"@
        } else {
            "OTHER_CFLAGS"@
        },
    )
}

/// The clang arguments for one file, the file last.
pub open spec fn clang_args(
    m: Seq<(Seq<char>, crate::json::Json)>,
    file: Seq<char>,
    dirs: Seq<Seq<char>>,
) -> Seq<Seq<char>> {
    let cpp = is_cpp_ext(file_ext_lower(file));
    clang_head(m, cpp) + clang_body(m, cpp, dirs) + seq![file]
}

/// Flag pairs of two lists are the pairs of the first, then of the second.
proof fn lemma_flag_pairs_concat(flag: Seq<char>, a: Seq<Seq<char>>, b: Seq<Seq<char>>)
    ensures
        flag_pairs(flag, a + b) == flag_pairs(flag, a) + flag_pairs(flag, b),
    decreases b.len(),
{
    if b.len() == 0 {
        assert(a + b =~= a);
    } else {
        assert((a + b).drop_last() =~= a + b.drop_last());
        assert((a + b).last() == b.last());
        lemma_flag_pairs_concat(flag, a, b.drop_last());
    }
}

/// Law: the clang arguments start with `-x` and the language
/// (Objective-C++ exactly for `.mm`, `.cpp`, `.cc`, `.cxx`, in any case),
/// then the language standard (the setting, else `gnu++20` / `gnu17`); they
/// end with the file; and right after the head (language, standard, target,
/// ARC, system root) come the `-I` pairs of HEADER_SEARCH_PATHS, then those
/// of the scanned dirs.
pub proof fn lemma_clang_args_shape(m: Seq<(Seq<char>, crate::json::Json)>, file: Seq<char>, dirs: Seq<Seq<char>>)
    ensures
        ({
            let r = clang_args(m, file, dirs);
            let cpp = is_cpp_ext(file_ext_lower(file));
            &&& r.len() >= 6
            &&& r[0] == "-x"@
            &&& r[1] == (if cpp { "objective-c++"@ } else { "objective-c"@ })
            &&& r[2] == "-std="@ + (if cpp {
                setting_or(m, "CLANG_CXX_LANGUAGE_STANDARD"@, "gnu++20"@)
            } else {
                setting_or(m, "GCC_C_LANGUAGE_STANDARD"@, "gnu17"@)
            })
            &&& r.last() == file
            &&& {
                let o = clang_head(m, cpp).len() as int;
                let fp = flag_pairs("-I"@, multi(m, "HEADER_SEARCH_PATHS"@) + dirs);
                o + fp.len() <= r.len() && r.subrange(o, o + fp.len()) == fp
            }
        }),
{
    let cpp = is_cpp_ext(file_ext_lower(file));
    let h = clang_head(m, cpp);
    let b = clang_body(m, cpp, dirs);
    let r = clang_args(m, file, dirs);
    let hsp = multi(m, "HEADER_SEARCH_PATHS"@);
    let fp = flag_pairs("-I"@, hsp + dirs);
    lemma_flag_pairs_concat("-I"@, hsp, dirs);
    assert(r == h + b + seq![file]);
    assert(h.len() >= 5);
    assert(r[0] == h[0] && r[1] == h[1] && r[2] == h[2]);
    let o = h.len() as int;
    assert(b.subrange(0, fp.len() as int) =~= fp);
    assert(r.subrange(o, o + fp.len()) =~= fp);
}

fn is_cpp_exec(e: &str) -> (r: bool)
    ensures
        r == is_cpp_ext(e@),
{
    str_eq(e, "mm") || str_eq(e, "cpp") || str_eq(e, "cc") || str_eq(e, "cxx")
}

/// The lower-cased extension of `file`.
pub fn file_ext_lower_exec(file: &str) -> (r: String)
    ensures
        r@ == file_ext_lower(file@),
{
    match extension(file) {
        Some(e) => to_ascii_lowercase(e.as_str()),
        None => {
            proof {
                reveal_strlit("");
                assert(""@ =~= Seq::<char>::empty());
            }
            to_ascii_lowercase("")
        },
    }
}

fn push_clang_head(out: &mut Vec<String>, settings: &BuildSettings, cpp: bool)
    ensures
        strs_view(final(out)@) == strs_view(old(out)@) + clang_head(settings@, cpp),
{
    let ghost start = strs_view(out@);
    push_str(out, "-x");
    if cpp {
        push_str(out, "objective-c++");
    } else {
        push_str(out, "objective-c");
    }
    let std_flag = if cpp {
        settings.get_or("CLANG_CXX_LANGUAGE_STANDARD", "gnu++20")
    } else {
        settings.get_or("GCC_C_LANGUAGE_STANDARD", "gnu17")
    };
    push_string(out, concat("-std=", std_flag));
    let dep = settings.get_or("MACOSX_DEPLOYMENT_TARGET", "11.0");
    push_str(out, "-target");
    push_string(out, concat("aarch64-apple-macos", dep));
    let ghost mid = strs_view(out@);
    if settings.bool_flag("CLANG_ENABLE_OBJC_ARC") {
        push_str(out, "-fobjc-arc");
    }
    let ghost mid2 = strs_view(out@);
    match settings.get("SDKROOT") {
        Some(sdk) => {
            if !is_empty_str(sdk) {
                push_str(out, "-isysroot");
                push_str(out, sdk);
            }
        },
        None => {},
    }
    assert(strs_view(out@) =~= start + clang_head(settings@, cpp));
}

fn push_clang_body(out: &mut Vec<String>, settings: &BuildSettings, cpp: bool, dirs: &Vec<String>)
    ensures
        strs_view(final(out)@) == strs_view(old(out)@) + clang_body(settings@, cpp, strs_view(dirs@)),
{
    let ghost start = strs_view(out@);
    let hsp = split_multi(settings.get_or("HEADER_SEARCH_PATHS", ""));
    push_pairs(out, "-I", &hsp);
    push_pairs(out, "-I", dirs);
    let user = split_multi(settings.get_or("USER_HEADER_SEARCH_PATHS", ""));
    push_pairs(out, "-iquote", &user);
    let fsp = split_multi(settings.get_or("FRAMEWORK_SEARCH_PATHS", ""));
    push_pairs(out, "-F", &fsp);
    let defs = split_multi(settings.get_or("GCC_PREPROCESSOR_DEFINITIONS", ""));
    push_prefixed(out, "-D", &defs);
    let ghost mid = strs_view(out@);
    if settings.bool_flag("CLANG_ENABLE_MODULES") {
        push_str(out, "-fmodules");
    }
    let ghost mid2 = strs_view(out@);
    let other_key = if cpp {
        "OTHER_CPLUSPLUSFLAGS"
    } else {
        "OTHER_CFLAGS"
    };
    let other = split_multi(settings.get_or(other_key, ""));
    push_all(out, &other);
    proof {
        reveal_strlit("");
        assert(""@ =~= Seq::<char>::empty());
    }
    assert(strs_view(out@) =~= start + clang_body(settings@, cpp, strs_view(dirs@)));
}

/// Synthesize per-file clang arguments (ObjC/C/C++), file path last.
/// `augmented_include_dirs` is the target's precomputed scoped header-dir
/// list (see `scoped_include_dirs`).
pub fn synthesize_clang_args(
    settings: &BuildSettings,
    file: &str,
    augmented_include_dirs: &Vec<String>,
) -> (r: Vec<String>)
    ensures
        strs_view(r@) == clang_args(settings@, file@, strs_view(augmented_include_dirs@)),
{
    let ext = file_ext_lower_exec(file);
    let cpp = is_cpp_exec(ext.as_str());
    let mut args: Vec<String> = Vec::new();
    push_clang_head(&mut args, settings, cpp);
    push_clang_body(&mut args, settings, cpp, augmented_include_dirs);
    push_str(&mut args, file);
    assert(strs_view(args@) =~= clang_args(settings@, file@, strs_view(augmented_include_dirs@)));
    args
}

// ── Header-directory augmentation ──

/// Directory names never worth scanning for headers (VCS, build outputs)
/// and project bundles.
pub open spec fn excluded_dir_name(name: Seq<char>) -> bool {
    name == ".git"@ || name == ".svn"@ || name == ".hg"@ || name == "build"@ || name == "Build"@
        || name == "DerivedData"@ || name == "DerivedSources"@ || name == "Intermediates.noindex"@
        || ".xcodeproj"@.is_suffix_of(name)
}

/// Whether a directory named `name` is skipped by the header scan.
pub fn is_excluded_dir_name(name: &str) -> (r: bool)
    ensures
        r == excluded_dir_name(name@),
{
    str_eq(name, ".git") || str_eq(name, ".svn") || str_eq(name, ".hg") || str_eq(name, "build")
        || str_eq(name, "Build") || str_eq(name, "DerivedData") || str_eq(name, "DerivedSources")
        || str_eq(name, "Intermediates.noindex") || ends_with(name, ".xcodeproj")
}

/// Header files: extension `h`, `hpp` or `hh`.
pub open spec fn header_path(p: Seq<char>) -> bool {
    extension_of(p) == Some("h"@) || extension_of(p) == Some("hpp"@) || extension_of(p) == Some(
        "hh"@,
    )
}

/// Whether the file at `p` is a header.
pub fn is_header_path(p: &str) -> (r: bool)
    ensures
        r == header_path(p@),
{
    match extension(p) {
        Some(e) => str_eq(e.as_str(), "h") || str_eq(e.as_str(), "hpp") || str_eq(e.as_str(), "hh"),
        None => false,
    }
}

/// The directories found under the scan roots, less those already given.
pub open spec fn scoped_dirs(found: Seq<Seq<Seq<char>>>, existing: Seq<Seq<char>>) -> Set<
    Seq<char>,
> {
    Set::new(
        |d: Seq<char>|
            (exists|r: int| 0 <= r < found.len() && #[trigger] found[r].contains(d))
                && !existing.contains(d),
    )
}

/// Header-dir augmentation scoped to a target: `found[r]` lists the
/// header-holding directories under the target's `r`-th scan root. The
/// result is their union less `existing_hsp` (the target's
/// HEADER_SEARCH_PATHS), sorted and without duplicates.
pub fn scoped_include_dirs(found: &Vec<Vec<String>>, existing_hsp: &Vec<String>) -> (r: Vec<String>)
    ensures
        sorted_strict(strs_view(r@)),
        strs_view(r@).to_set() == scoped_dirs(found@.map_values(|v: Vec<String>| strs_view(v@)), strs_view(existing_hsp@)),
{
    let ghost fv = found@.map_values(|v: Vec<String>| strs_view(v@));
    let ghost ex = strs_view(existing_hsp@);
    let mut out: Vec<String> = Vec::new();
    let mut r: usize = 0;
    while r < found.len()
        invariant
            r <= found@.len(),
            fv == found@.map_values(|v: Vec<String>| strs_view(v@)),
            ex == strs_view(existing_hsp@),
            sorted_strict(strs_view(out@)),
            strs_view(out@).to_set() == scoped_dirs(fv.take(r as int), ex),
        decreases found@.len() - r,
    {
        let dirs = &found[r];
        let mut k: usize = 0;
        while k < dirs.len()
            invariant
                r < found@.len(),
                k <= dirs@.len(),
                *dirs == found@[r as int],
                fv == found@.map_values(|v: Vec<String>| strs_view(v@)),
                ex == strs_view(existing_hsp@),
                sorted_strict(strs_view(out@)),
                strs_view(out@).to_set() == scoped_dirs(fv.take(r as int), ex).union(
                    Set::new(|d: Seq<char>| strs_view(dirs@).take(k as int).contains(d) && !ex.contains(d)),
                ),
            decreases dirs@.len() - k,
        {
            let ghost before = strs_view(out@).to_set();
            let d = &dirs[k];
            if !contains_str(existing_hsp, d.as_str()) {
                insert_sorted(&mut out, d.clone());
            }
            proof {
                let dv = strs_view(dirs@);
                let t1 = dv.take(k + 1);
                let t0 = dv.take(k as int);
                assert(t1 =~= t0.push(dv[k as int]));
                assert forall|x: Seq<char>| t1.contains(x) <==> (t0.contains(x) || x == dv[k as int]) by {
                    if t1.contains(x) {
                        let j = choose|j: int| 0 <= j < t1.len() && t1[j] == x;
                        if j < k {
                            assert(t0[j] == x);
                        }
                    }
                    if t0.contains(x) {
                        let j = choose|j: int| 0 <= j < t0.len() && t0[j] == x;
                        assert(t1[j] == x);
                    }
                    if x == dv[k as int] {
                        assert(t1[k as int] == x);
                    }
                }
                assert(strs_view(out@).to_set() =~= scoped_dirs(fv.take(r as int), ex).union(
                    Set::new(|x: Seq<char>| t1.contains(x) && !ex.contains(x)),
                ));
            }
            k = k + 1;
        }
        proof {
            let dv = strs_view(dirs@);
            assert(dv.take(dirs@.len() as int) =~= dv);
            assert(fv.take(r + 1) =~= fv.take(r as int).push(dv));
            assert(strs_view(out@).to_set() =~= scoped_dirs(fv.take(r + 1), ex)) by {
                assert forall|x: Seq<char>| #![auto]
                    scoped_dirs(fv.take(r + 1), ex).contains(x) <==> (scoped_dirs(
                        fv.take(r as int),
                        ex,
                    ).contains(x) || (dv.contains(x) && !ex.contains(x))) by {
                    if scoped_dirs(fv.take(r + 1), ex).contains(x) {
                        let q = choose|q: int|
                            0 <= q < fv.take(r + 1).len() && #[trigger] fv.take(r + 1)[q].contains(
                                x,
                            );
                        if q < r {
                            assert(fv.take(r as int)[q] == fv.take(r + 1)[q]);
                        }
                    }
                    if scoped_dirs(fv.take(r as int), ex).contains(x) {
                        let q = choose|q: int|
                            0 <= q < fv.take(r as int).len() && #[trigger] fv.take(
                                r as int,
                            )[q].contains(x);
                        assert(fv.take(r + 1)[q] == fv.take(r as int)[q]);
                    }
                    if dv.contains(x) && !ex.contains(x) {
                        assert(fv.take(r + 1)[r as int] == dv);
                    }
                }
            }
        }
        r = r + 1;
    }
    assert(fv.take(found@.len() as int) =~= fv);
    out
}

// ── Swift ──

/// `-swift-version` value: trimmed, a trailing `.0` dropped (5.0 → 5, but
/// 4.2 stays); `None` when blank.
pub open spec fn swift_version_of(raw: Seq<char>) -> Option<Seq<char>> {
    let t = trim_seq(raw);
    if t.len() == 0 {
        None
    } else if ".0"@.is_suffix_of(t) {
        Some(t.subrange(0, t.len() - 2))
    } else {
        Some(t)
    }
}

/// `-swift-version` value from `SWIFT_VERSION`: strip a trailing `.0`
/// (5.0→5) but keep discrete minors like 4.2. `None` when unset.
pub fn swift_version_flag(raw: &str) -> (r: Option<String>)
    ensures
        match r {
            Some(x) => swift_version_of(raw@) == Some(x@),
            None => swift_version_of(raw@) is None,
        },
{
    let t = trim(raw);
    if is_empty_str(t.as_str()) {
        return None;
    }
    proof {
        reveal_strlit(".0");
    }
    match strip_suffix(t.as_str(), ".0") {
        Some(x) => Some(x),
        None => Some(t),
    }
}

/// OS, simulator suffix, deployment-target key and its default for a
/// `PLATFORM_NAME`.
pub open spec fn platform_info(platform: Seq<char>) -> (Seq<char>, Seq<char>, Seq<char>, Seq<char>) {
    if platform == "iphoneos"@ {
        ("ios"@, ""@, "IPHONEOS_DEPLOYMENT_TARGET"@, "17.0"@)
    } else if platform == "iphonesimulator"@ {
        ("ios"@, "-simulator"@, "IPHONEOS_DEPLOYMENT_TARGET"@, "17.0"@)
    } else if platform == "appletvos"@ {
        ("tvos"@, ""@, "TVOS_DEPLOYMENT_TARGET"@, "17.0"@)
    } else if platform == "appletvsimulator"@ {
        ("tvos"@, "-simulator"@, "TVOS_DEPLOYMENT_TARGET"@, "17.0"@)
    } else if platform == "watchos"@ {
        ("watchos"@, ""@, "WATCHOS_DEPLOYMENT_TARGET"@, "10.0"@)
    } else if platform == "watchsimulator"@ {
        ("watchos"@, "-simulator"@, "WATCHOS_DEPLOYMENT_TARGET"@, "10.0"@)
    } else {
        ("macos"@, ""@, "MACOSX_DEPLOYMENT_TARGET"@, "11.0"@)
    }
}

/// The non-empty value of `key`, else `default`.
pub open spec fn nonempty_or(m: Seq<(Seq<char>, crate::json::Json)>, key: Seq<char>, default: Seq<
    char,
>) -> Seq<char> {
    match nonempty_setting(m, key) {
        Some(v) => v,
        None => default,
    }
}

/// `<arch>-apple-<os><deployment><suffix>`.
pub open spec fn triple_of(m: Seq<(Seq<char>, crate::json::Json)>) -> Seq<char> {
    let arch = nonempty_or(m, "NATIVE_ARCH"@, "arm64"@);
    let (os, suffix, dep_key, dep_default) = platform_info(
        setting_or(m, "PLATFORM_NAME"@, "macosx"@),
    );
    arch + "-apple-"@ + os + nonempty_or(m, dep_key, dep_default) + suffix
}

fn nonempty_get_or<'a>(settings: &'a BuildSettings, key: &str, default: &'a str) -> (r: &'a str)
    ensures
        r@ == nonempty_or(settings@, key@, default@),
{
    match nonempty_get(settings, key) {
        Some(v) => v,
        None => default,
    }
}

/// Target triple for the Swift path: arch from `NATIVE_ARCH` (fallback
/// arm64), OS and deployment target from `PLATFORM_NAME` and the platform's
/// deployment-target key.
pub fn target_triple(settings: &BuildSettings) -> (r: String)
    ensures
        r@ == triple_of(settings@),
{
    let arch = nonempty_get_or(settings, "NATIVE_ARCH", "arm64");
    let platform = settings.get_or("PLATFORM_NAME", "macosx");
    let (os, suffix, dep_key, dep_default) = if str_eq(platform, "iphoneos") {
        ("ios", "", "IPHONEOS_DEPLOYMENT_TARGET", "17.0")
    } else if str_eq(platform, "iphonesimulator") {
        ("ios", "-simulator", "IPHONEOS_DEPLOYMENT_TARGET", "17.0")
    } else if str_eq(platform, "appletvos") {
        ("tvos", "", "TVOS_DEPLOYMENT_TARGET", "17.0")
    } else if str_eq(platform, "appletvsimulator") {
        ("tvos", "-simulator", "TVOS_DEPLOYMENT_TARGET", "17.0")
    } else if str_eq(platform, "watchos") {
        ("watchos", "", "WATCHOS_DEPLOYMENT_TARGET", "10.0")
    } else if str_eq(platform, "watchsimulator") {
        ("watchos", "-simulator", "WATCHOS_DEPLOYMENT_TARGET", "10.0")
    } else {
        ("macos", "", "MACOSX_DEPLOYMENT_TARGET", "11.0")
    };
    let dep = nonempty_get_or(settings, dep_key, dep_default);
    let a = concat(arch, "-apple-");
    let b = concat(a.as_str(), os);
    let c = concat(b.as_str(), dep);
    concat(c.as_str(), suffix)
}

/// Module name, SDK, target, Swift version, module cache, bridging header.
pub open spec fn swift_head(
    m: Seq<(Seq<char>, crate::json::Json)>,
    srcroot: Seq<char>,
    cache: Seq<char>,
) -> Seq<Seq<char>> {
    nonempty_pair("-module-name"@, setting(m, "PRODUCT_MODULE_NAME"@)) + nonempty_pair(
        "-sdk"@,
        setting(m, "SDKROOT"@),
    ) + seq!["-target"@, triple_of(m)] + match swift_version_of(
        setting_or(m, "SWIFT_VERSION"@, Seq::empty()),
    ) {
        Some(v) => seq!["-swift-version"@, v],
        None => Seq::empty(),
    } + seq!["-module-cache-path"@, cache] + match nonempty_setting(
        m,
        "SWIFT_OBJC_BRIDGING_HEADER"@,
    ) {
        Some(b) => seq![
            "-import-objc-header"@,
            if is_rooted(b) {
                b
            } else {
                join_path(srcroot, b)
            },
        ],
        None => Seq::empty(),
    }
}

/// Frameworks, clang-importer include paths and definitions, Swift
/// conditions, passthrough flags.
pub open spec fn swift_body(m: Seq<(Seq<char>, crate::json::Json)>, xcc_dirs: Seq<Seq<char>>) -> Seq<
    Seq<char>,
> {
    flag_pairs("-F"@, multi(m, "FRAMEWORK_SEARCH_PATHS"@)) + flag_pairs(
        "-Xcc"@,
        prefixed("-I"@, multi(m, "HEADER_SEARCH_PATHS"@)),
    ) + flag_pairs("-Xcc"@, prefixed("-I"@, xcc_dirs)) + flag_pairs(
        "-Xcc"@,
        prefixed("-D"@, multi(m, "GCC_PREPROCESSOR_DEFINITIONS"@)),
    ) + prefixed("-D"@, multi(m, "SWIFT_ACTIVE_COMPILATION_CONDITIONS"@)) + multi(
        m,
        "OTHER_SWIFT_FLAGS"@,
    )
}

/// Whole-module swiftc arguments, the module's files last.
pub open spec fn swift_args(
    m: Seq<(Seq<char>, crate::json::Json)>,
    files: Seq<Seq<char>>,
    srcroot: Seq<char>,
    xcc_dirs: Seq<Seq<char>>,
    cache: Seq<char>,
) -> Seq<Seq<char>> {
    swift_head(m, srcroot, cache) + swift_body(m, xcc_dirs) + files
}

fn push_swift_head(out: &mut Vec<String>, settings: &BuildSettings, srcroot: &str, cache: &str)
    ensures
        strs_view(final(out)@) == strs_view(old(out)@) + swift_head(settings@, srcroot@, cache@),
{
    let ghost start = strs_view(out@);
    match nonempty_get(settings, "PRODUCT_MODULE_NAME") {
        Some(m) => {
            push_str(out, "-module-name");
            push_str(out, m);
        },
        None => {},
    }
    let ghost s1 = strs_view(out@);
    match nonempty_get(settings, "SDKROOT") {
        Some(sdk) => {
            push_str(out, "-sdk");
            push_str(out, sdk);
        },
        None => {},
    }
    let ghost s2 = strs_view(out@);
    push_str(out, "-target");
    push_string(out, target_triple(settings));
    let ghost s3 = strs_view(out@);
    match swift_version_flag(settings.get_or("SWIFT_VERSION", "")) {
        Some(v) => {
            push_str(out, "-swift-version");
            push_string(out, v);
        },
        None => {},
    }
    let ghost s4 = strs_view(out@);
    push_str(out, "-module-cache-path");
    push_str(out, cache);
    let ghost s5 = strs_view(out@);
    match nonempty_get(settings, "SWIFT_OBJC_BRIDGING_HEADER") {
        Some(bridge) => {
            let abs = if is_absolute(bridge) {
                owned(bridge)
            } else {
                join(srcroot, bridge)
            };
            push_str(out, "-import-objc-header");
            push_string(out, abs);
        },
        None => {},
    }
    proof {
        reveal_strlit("");
        assert(""@ =~= Seq::<char>::empty());
    }
    assert(strs_view(out@) =~= start + swift_head(settings@, srcroot@, cache@));
}

fn push_swift_body(out: &mut Vec<String>, settings: &BuildSettings, xcc_dirs: &Vec<String>)
    ensures
        strs_view(final(out)@) == strs_view(old(out)@) + swift_body(settings@, strs_view(xcc_dirs@)),
{
    let ghost start = strs_view(out@);
    let fsp = split_multi(settings.get_or("FRAMEWORK_SEARCH_PATHS", ""));
    push_pairs(out, "-F", &fsp);
    let hsp = split_multi(settings.get_or("HEADER_SEARCH_PATHS", ""));
    push_pairs(out, "-Xcc", &prefix_all("-I", &hsp));
    push_pairs(out, "-Xcc", &prefix_all("-I", xcc_dirs));
    let defs = split_multi(settings.get_or("GCC_PREPROCESSOR_DEFINITIONS", ""));
    push_pairs(out, "-Xcc", &prefix_all("-D", &defs));
    let conds = split_multi(settings.get_or("SWIFT_ACTIVE_COMPILATION_CONDITIONS", ""));
    push_prefixed(out, "-D", &conds);
    let other = split_multi(settings.get_or("OTHER_SWIFT_FLAGS", ""));
    push_all(out, &other);
    proof {
        reveal_strlit("");
        assert(""@ =~= Seq::<char>::empty());
    }
    assert(strs_view(out@) =~= start + swift_body(settings@, strs_view(xcc_dirs@)));
}

/// Synthesize whole-module swiftc arguments, identical for every `.swift`
/// file of the target. No action verb; the module's files go last.
pub fn synthesize_swift_args(
    settings: &BuildSettings,
    module_swift_files: &Vec<String>,
    srcroot: &str,
    xcc_include_dirs: &Vec<String>,
    module_cache_dir: &str,
) -> (r: Vec<String>)
    ensures
        strs_view(r@) == swift_args(
            settings@,
            strs_view(module_swift_files@),
            srcroot@,
            strs_view(xcc_include_dirs@),
            module_cache_dir@,
        ),
{
    let mut args: Vec<String> = Vec::new();
    push_swift_head(&mut args, settings, srcroot, module_cache_dir);
    push_swift_body(&mut args, settings, xcc_include_dirs);
    push_all(&mut args, module_swift_files);
    assert(strs_view(args@) =~= swift_args(
        settings@,
        strs_view(module_swift_files@),
        srcroot@,
        strs_view(xcc_include_dirs@),
        module_cache_dir@,
    ));
    args
}

/// The flag pairs of `items`: the flag at each even position, the item after it.
proof fn lemma_flag_pairs_at(flag: Seq<char>, items: Seq<Seq<char>>)
    ensures
        flag_pairs(flag, items).len() == 2 * items.len(),
        forall|k: int| 0 <= k < items.len() ==> #[trigger] flag_pairs(flag, items)[2 * k] =~= flag,
        forall|k: int| 0 <= k < items.len() ==> #[trigger] flag_pairs(flag, items)[2 * k + 1] =~= items[k],
    decreases items.len(),
{
    if items.len() > 0 {
        let p = items.drop_last();
        lemma_flag_pairs_at(flag, p);
        let fp = flag_pairs(flag, items);
        let fq = flag_pairs(flag, p);
        assert(fp == fq + seq![flag, items.last()]);
        assert forall|k: int| 0 <= k < items.len() implies #[trigger] fp[2 * k] =~= flag by {
            if k < p.len() {
                assert(fp[2 * k] == fq[2 * k]);
            }
        }
        assert forall|k: int| 0 <= k < items.len() implies #[trigger] fp[2 * k + 1] =~= items[k] by {
            if k < p.len() {
                assert(fp[2 * k + 1] == fq[2 * k + 1]);
                assert(p[k] == items[k]);
            }
        }
    }
}

/// Law: the clang arguments pass every HEADER_SEARCH_PATHS token, then
/// every scanned dir, as `-I <dir>`, and then every USER_HEADER_SEARCH_PATHS
/// token as `-iquote <dir>`, in order, right after the head.
pub proof fn lemma_clang_search_paths(m: Seq<(Seq<char>, crate::json::Json)>, file: Seq<char>, dirs: Seq<Seq<char>>)
    ensures
        ({
            let r = clang_args(m, file, dirs);
            let hsp = split_multi_spec(setting_or(m, "HEADER_SEARCH_PATHS"@, Seq::empty()));
            let user = split_multi_spec(setting_or(m, "USER_HEADER_SEARCH_PATHS"@, Seq::empty()));
            let o = clang_head(m, is_cpp_ext(file_ext_lower(file))).len() as int;
            let u = o + 2 * hsp.len() + 2 * dirs.len();
            &&& u + 2 * user.len() < r.len()
            &&& forall|k: int| 0 <= k < hsp.len() ==> #[trigger] r[o + 2 * k] == "-I"@
            &&& forall|k: int| 0 <= k < hsp.len() ==> #[trigger] r[o + 2 * k + 1] == hsp[k]
            &&& forall|k: int| 0 <= k < dirs.len() ==> #[trigger] r[o + 2 * hsp.len() + 2 * k] == "-I"@
            &&& forall|k: int| 0 <= k < dirs.len() ==> #[trigger] r[o + 2 * hsp.len() + 2 * k + 1] == dirs[k]
            &&& forall|k: int| 0 <= k < user.len() ==> #[trigger] r[u + 2 * k] == "-iquote"@
            &&& forall|k: int| 0 <= k < user.len() ==> #[trigger] r[u + 2 * k + 1] == user[k]
        }),
{
    let cpp = is_cpp_ext(file_ext_lower(file));
    let h = clang_head(m, cpp);
    let r = clang_args(m, file, dirs);
    let hsp = multi(m, "HEADER_SEARCH_PATHS"@);
    let user = multi(m, "USER_HEADER_SEARCH_PATHS"@);
    let a = flag_pairs("-I"@, hsp);
    let b = flag_pairs("-I"@, dirs);
    let c = flag_pairs("-iquote"@, user);
    lemma_flag_pairs_at("-I"@, hsp);
    lemma_flag_pairs_at("-I"@, dirs);
    lemma_flag_pairs_at("-iquote"@, user);
    let rest = clang_body(m, cpp, dirs).subrange((a.len() + b.len() + c.len()) as int, clang_body(m, cpp, dirs).len() as int);
    assert(clang_body(m, cpp, dirs) =~= a + b + c + rest);
    assert(r =~= h + (a + b + c + rest) + seq![file]);
    let o = h.len() as int;
    assert forall|k: int| 0 <= k < hsp.len() implies #[trigger] r[o + 2 * k] == "-I"@ by {
        assert(r[o + 2 * k] == a[2 * k]);
    }
    assert forall|k: int| 0 <= k < hsp.len() implies #[trigger] r[o + 2 * k + 1] == hsp[k] by {
        assert(r[o + 2 * k + 1] == a[2 * k + 1]);
    }
    assert forall|k: int| 0 <= k < dirs.len() implies #[trigger] r[o + 2 * hsp.len() + 2 * k] == "-I"@ by {
        assert(r[o + 2 * hsp.len() + 2 * k] == b[2 * k]);
    }
    assert forall|k: int| 0 <= k < dirs.len() implies #[trigger] r[o + 2 * hsp.len() + 2 * k + 1] == dirs[k] by {
        assert(r[o + 2 * hsp.len() + 2 * k + 1] == b[2 * k + 1]);
    }
    let u = o + 2 * hsp.len() + 2 * dirs.len();
    assert(a.len() == 2 * hsp.len() && b.len() == 2 * dirs.len() && c.len() == 2 * user.len());
    assert(r.len() == h.len() + a.len() + b.len() + c.len() + rest.len() + 1);
    assert(u + 2 * user.len() < r.len());
    assert forall|k: int| 0 <= k < user.len() implies #[trigger] r[u + 2 * k] == "-iquote"@ by {
        assert(r[u + 2 * k] == c[2 * k]);
    }
    assert forall|k: int| 0 <= k < user.len() implies #[trigger] r[u + 2 * k + 1] == user[k] by {
        assert(r[u + 2 * k + 1] == c[2 * k + 1]);
    }
}

/// Law: the swiftc arguments hand every GCC_PREPROCESSOR_DEFINITIONS token
/// `d` to the clang importer as `-Xcc -D<d>`, in order, after the `-F`
/// pairs and the `-Xcc -I` pairs of HEADER_SEARCH_PATHS and the scanned
/// dirs; and they end with the module's files.
pub proof fn lemma_swift_definitions(
    m: Seq<(Seq<char>, crate::json::Json)>,
    files: Seq<Seq<char>>,
    srcroot: Seq<char>,
    xcc_dirs: Seq<Seq<char>>,
    cache: Seq<char>,
)
    ensures
        ({
            let r = swift_args(m, files, srcroot, xcc_dirs, cache);
            let fw = split_multi_spec(setting_or(m, "FRAMEWORK_SEARCH_PATHS"@, Seq::empty()));
            let hsp = split_multi_spec(setting_or(m, "HEADER_SEARCH_PATHS"@, Seq::empty()));
            let defs = split_multi_spec(setting_or(m, "GCC_PREPROCESSOR_DEFINITIONS"@, Seq::empty()));
            let o = swift_head(m, srcroot, cache).len() + 2 * fw.len() + 2 * hsp.len() + 2 * xcc_dirs.len();
            &&& o + 2 * defs.len() <= r.len() - files.len()
            &&& forall|k: int| 0 <= k < defs.len() ==> #[trigger] r[o + 2 * k] == "-Xcc"@
            &&& forall|k: int| 0 <= k < defs.len() ==> #[trigger] r[o + 2 * k + 1] == "-D"@ + defs[k]
            &&& r.subrange(r.len() - files.len(), r.len() as int) == files
        }),
{
    let h = swift_head(m, srcroot, cache);
    let r = swift_args(m, files, srcroot, xcc_dirs, cache);
    let fw = multi(m, "FRAMEWORK_SEARCH_PATHS"@);
    let hsp = multi(m, "HEADER_SEARCH_PATHS"@);
    let defs = multi(m, "GCC_PREPROCESSOR_DEFINITIONS"@);
    let a = flag_pairs("-F"@, fw);
    let b = flag_pairs("-Xcc"@, prefixed("-I"@, hsp));
    let c = flag_pairs("-Xcc"@, prefixed("-I"@, xcc_dirs));
    let d = flag_pairs("-Xcc"@, prefixed("-D"@, defs));
    lemma_flag_pairs_at("-F"@, fw);
    lemma_flag_pairs_at("-Xcc"@, prefixed("-I"@, hsp));
    lemma_flag_pairs_at("-Xcc"@, prefixed("-I"@, xcc_dirs));
    lemma_flag_pairs_at("-Xcc"@, prefixed("-D"@, defs));
    let body = swift_body(m, xcc_dirs);
    let rest = body.subrange((a.len() + b.len() + c.len() + d.len()) as int, body.len() as int);
    assert(body =~= a + b + c + d + rest);
    assert(r =~= h + (a + b + c + d + rest) + files);
    let o = h.len() + a.len() + b.len() + c.len();
    assert(a.len() == 2 * fw.len() && b.len() == 2 * hsp.len() && c.len() == 2 * xcc_dirs.len() && d.len() == 2
        * defs.len());
    assert forall|k: int| 0 <= k < defs.len() implies #[trigger] r[o + 2 * k] == "-Xcc"@ by {
        assert(r[o + 2 * k] == d[2 * k]);
    }
    assert forall|k: int| 0 <= k < defs.len() implies #[trigger] r[o + 2 * k + 1] == "-D"@ + defs[k] by {
        assert(r[o + 2 * k + 1] == d[2 * k + 1]);
        assert(prefixed("-D"@, defs)[k] == "-D"@ + defs[k]);
    }
    assert(r.subrange(r.len() - files.len(), r.len() as int) =~= files);
}

} // verus!
