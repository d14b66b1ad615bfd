//! The debug-adapter side of the editor extension: the `xcode-debug`
//! configuration users write in `.zed/debug.json` (fields as lldb-dap's
//! launch/attach requests have them), its validation, the JSON handed to
//! lldb-dap, and where the lldb-dap binary comes from.

use vstd::prelude::*;
use crate::json::{as_str, get, json_get, json_str, json_to_string, members_view, items_view, spec_json_to_string, Json, JsonValue};
use crate::protocol::{jarray, jobject, jstr};
use crate::text::{concat, decimal, is_empty_str, owned, str_eq, strs_view, u64_to_string};

verus! {

broadcast use vstd::string::group_string_axioms;

/// The adapter name this extension serves.
pub const ADAPTER_NAME: &'static str = "xcode-debug";

/// A user debug configuration (`.zed/debug.json`), field for field as
/// lldb-dap's launch and attach requests take it.
pub struct XcodeDebugConfig {
    pub request: String,
    pub program: Option<String>,
    pub cwd: Option<String>,
    pub args: Vec<String>,
    pub env: Vec<String>,
    pub pid: Option<u32>,
    pub stop_on_entry: Option<bool>,
    pub wait_for: Option<bool>,
}

/// The view of an optional string.
pub open spec fn opt_text(o: Option<String>) -> Option<Seq<char>> {
    match o {
        Some(s) => Some(s@),
        None => None,
    }
}

/// The program, or empty when absent.
pub open spec fn program_text(c: XcodeDebugConfig) -> Seq<char> {
    match c.program {
        Some(p) => p@,
        None => Seq::empty(),
    }
}

pub open spec fn launch_program_msg() -> Seq<char> {
    "xcode-debug: 'program' is required for launch. Set it in .zed/debug.json, e.g. \"program\": \"${ZED_WORKTREE_ROOT}/build/Debug/MyApp.app/Contents/MacOS/MyApp\""@
}

pub open spec fn attach_target_msg() -> Seq<char> {
    "xcode-debug: attach requires either 'pid' (integer process ID) or 'program' (executable path or name)."@
}

pub open spec fn attach_wait_msg() -> Seq<char> {
    "xcode-debug: 'waitFor: true' can only be used when attaching by 'program', not 'pid'."@
}

/// Validation: a launch needs a non-empty program; an attach needs a pid or
/// a non-empty program, and `waitFor: true` only with a program; any other
/// request is refused.
pub open spec fn validate_of(c: XcodeDebugConfig) -> Result<(), Seq<char>> {
    if c.request@ == "launch"@ {
        if program_text(c).len() == 0 {
            Err(launch_program_msg())
        } else {
            Ok(())
        }
    } else if c.request@ == "attach"@ {
        if c.pid is None && program_text(c).len() == 0 {
            Err(attach_target_msg())
        } else if c.pid is Some && c.wait_for == Some(true) {
            Err(attach_wait_msg())
        } else {
            Ok(())
        }
    } else {
        Err(
            "xcode-debug: invalid 'request' value: "@ + c.request@
                + " (expected \"launch\" or \"attach\")"@,
        )
    }
}

fn program_or_empty(c: &XcodeDebugConfig) -> (r: &str)
    ensures
        r@ == program_text(*c),
{
    match &c.program {
        Some(p) => p.as_str(),
        None => {
            proof {
                reveal_strlit("");
                assert(""@ =~= Seq::<char>::empty());
            }
            ""
        },
    }
}

/// Checks a configuration before it goes to lldb-dap.
pub fn validate_config(config: &XcodeDebugConfig) -> (r: Result<(), String>)
    ensures
        match r {
            Ok(()) => validate_of(*config) == Ok::<(), Seq<char>>(()),
            Err(e) => validate_of(*config) == Err::<(), Seq<char>>(e@),
        },
{
    let request = config.request.as_str();
    if str_eq(request, "launch") {
        let program = program_or_empty(config);
        if is_empty_str(program) {
            return Err(
                owned(
                    "xcode-debug: 'program' is required for launch. Set it in .zed/debug.json, e.g. \"program\": \"${ZED_WORKTREE_ROOT}/build/Debug/MyApp.app/Contents/MacOS/MyApp\"",
                ),
            );
        }
        Ok(())
    } else if str_eq(request, "attach") {
        let has_pid = config.pid.is_some();
        let has_program = !is_empty_str(program_or_empty(config));
        let waits = match config.wait_for {
            Some(w) => w,
            None => false,
        };
        if !has_pid && !has_program {
            return Err(
                owned(
                    "xcode-debug: attach requires either 'pid' (integer process ID) or 'program' (executable path or name).",
                ),
            );
        }
        if has_pid && waits {
            return Err(
                owned(
                    "xcode-debug: 'waitFor: true' can only be used when attaching by 'program', not 'pid'.",
                ),
            );
        }
        Ok(())
    } else {
        let a = concat("xcode-debug: invalid 'request' value: ", request);
        Err(concat(a.as_str(), " (expected \"launch\" or \"attach\")"))
    }
}

/// The working directory: the configured one when non-empty, else the
/// worktree root.
pub open spec fn resolve_cwd_of(parsed_cwd: Option<Seq<char>>, worktree_root: Seq<char>) -> Seq<char> {
    match parsed_cwd {
        Some(c) => if c.len() > 0 {
            c
        } else {
            worktree_root
        },
        None => worktree_root,
    }
}

/// The working directory of the debug session.
pub fn resolve_cwd(parsed_cwd: Option<&str>, worktree_root: &str) -> (r: String)
    ensures
        r@ == resolve_cwd_of(crate::build_settings::opt_str(parsed_cwd), worktree_root@),
{
    match parsed_cwd {
        Some(c) => if !is_empty_str(c) {
            owned(c)
        } else {
            owned(worktree_root)
        },
        None => owned(worktree_root),
    }
}

// ── The configuration JSON ──

/// An optional member.
pub open spec fn opt_member(key: Seq<char>, v: Option<Json>) -> Seq<(Seq<char>, Json)> {
    match v {
        Some(x) => seq![(key, x)],
        None => Seq::empty(),
    }
}

/// The strings as a JSON array.
pub open spec fn str_array(v: Seq<Seq<char>>) -> Json {
    Json::Array(v.map_values(|s: Seq<char>| Json::Str(s)))
}

/// The `program` member, when set.
pub open spec fn program_member(c: XcodeDebugConfig) -> Seq<(Seq<char>, Json)> {
    opt_member(
        "program"@,
        match c.program {
            Some(p) => Some(Json::Str(p@)),
            None => None,
        },
    )
}

pub open spec fn cwd_member(c: XcodeDebugConfig) -> Seq<(Seq<char>, Json)> {
    opt_member(
        "cwd"@,
        match c.cwd {
            Some(p) => Some(Json::Str(p@)),
            None => None,
        },
    )
}

pub open spec fn args_member(c: XcodeDebugConfig) -> Seq<(Seq<char>, Json)> {
    opt_member(
        "args"@,
        if c.args@.len() > 0 {
            Some(str_array(strs_view(c.args@)))
        } else {
            None
        },
    )
}

pub open spec fn env_member(c: XcodeDebugConfig) -> Seq<(Seq<char>, Json)> {
    opt_member(
        "env"@,
        if c.env@.len() > 0 {
            Some(str_array(strs_view(c.env@)))
        } else {
            None
        },
    )
}

pub open spec fn pid_member(c: XcodeDebugConfig) -> Seq<(Seq<char>, Json)> {
    opt_member(
        "pid"@,
        match c.pid {
            Some(n) => Some(Json::Number(decimal(n as nat))),
            None => None,
        },
    )
}

pub open spec fn stop_member(c: XcodeDebugConfig) -> Seq<(Seq<char>, Json)> {
    opt_member(
        "stopOnEntry"@,
        match c.stop_on_entry {
            Some(b) => Some(Json::Bool(b)),
            None => None,
        },
    )
}

pub open spec fn wait_member(c: XcodeDebugConfig) -> Seq<(Seq<char>, Json)> {
    opt_member(
        "waitFor"@,
        match c.wait_for {
            Some(b) => Some(Json::Bool(b)),
            None => None,
        },
    )
}

/// The members of the lldb-dap configuration, in field order.
pub open spec fn dap_members(c: XcodeDebugConfig) -> Seq<(Seq<char>, Json)> {
    program_member(c) + cwd_member(c) + args_member(c) + env_member(c) + pid_member(c) + stop_member(
        c,
    ) + wait_member(c)
}

/// The configuration as lldb-dap takes it: camelCase names; absent options
/// and empty lists left out; `request` left out (it travels in the DAP
/// request itself).
pub open spec fn dap_configuration_of(c: XcodeDebugConfig) -> Json {
    Json::Object(dap_members(c))
}

fn strings_json(v: &Vec<String>) -> (r: JsonValue)
    ensures
        r@ == str_array(strs_view(v@)),
{
    let ghost sv = strs_view(v@);
    let mut items: Vec<JsonValue> = Vec::new();
    let mut i: usize = 0;
    while i < v.len()
        invariant
            i <= v@.len(),
            sv == strs_view(v@),
            items_view(items@) == sv.take(i as int).map_values(|s: Seq<char>| Json::Str(s)),
        decreases v@.len() - i,
    {
        let ghost before = items_view(items@);
        items.push(jstr(v[i].as_str()));
        assert(items_view(items@) =~= before.push(Json::Str(sv[i as int])));
        assert(sv.take(i + 1).map_values(|s: Seq<char>| Json::Str(s)) =~= sv.take(i as int).map_values(
            |s: Seq<char>| Json::Str(s),
        ).push(Json::Str(sv[i as int])));
        i = i + 1;
    }
    assert(sv.take(v@.len() as int) =~= sv);
    jarray(items)
}

fn push_member(m: &mut Vec<(String, JsonValue)>, key: &str, v: JsonValue)
    ensures
        members_view(final(m)@) == members_view(old(m)@).push((key@, v@)),
{
    let ghost before = members_view(m@);
    let ghost vv = v@;
    m.push((owned(key), v));
    assert(members_view(m@) =~= before.push((key@, vv)));
}

/// The configuration JSON for lldb-dap.
pub fn dap_configuration_json(config: &XcodeDebugConfig) -> (r: JsonValue)
    ensures
        r@ == dap_configuration_of(*config),
{
    let mut m: Vec<(String, JsonValue)> = Vec::new();
    assert(members_view(m@) =~= Seq::<(Seq<char>, Json)>::empty());
    push_opt_str(&mut m, "program", &config.program);
    assert(members_view(m@) =~= program_member(*config));
    push_opt_str(&mut m, "cwd", &config.cwd);
    push_strs(&mut m, "args", &config.args);
    push_strs(&mut m, "env", &config.env);
    push_opt_u32(&mut m, "pid", config.pid);
    push_opt_bool(&mut m, "stopOnEntry", config.stop_on_entry);
    push_opt_bool(&mut m, "waitFor", config.wait_for);
    jobject(m)
}

fn push_opt_str(m: &mut Vec<(String, JsonValue)>, key: &str, v: &Option<String>)
    ensures
        members_view(final(m)@) == members_view(old(m)@) + opt_member(
            key@,
            match *v {
                Some(p) => Some(Json::Str(p@)),
                None => None,
            },
        ),
{
    let ghost before = members_view(m@);
    match v {
        Some(p) => push_member(m, key, jstr(p.as_str())),
        None => {},
    }
    assert(members_view(m@) =~= before + opt_member(
        key@,
        match *v {
            Some(p) => Some(Json::Str(p@)),
            None => None,
        },
    ));
}

fn push_strs(m: &mut Vec<(String, JsonValue)>, key: &str, v: &Vec<String>)
    ensures
        members_view(final(m)@) == members_view(old(m)@) + opt_member(
            key@,
            if v@.len() > 0 {
                Some(str_array(strs_view(v@)))
            } else {
                None
            },
        ),
{
    let ghost before = members_view(m@);
    if v.len() > 0 {
        push_member(m, key, strings_json(v));
    }
    assert(members_view(m@) =~= before + opt_member(
        key@,
        if v@.len() > 0 {
            Some(str_array(strs_view(v@)))
        } else {
            None
        },
    ));
}

fn push_opt_u32(m: &mut Vec<(String, JsonValue)>, key: &str, v: Option<u32>)
    ensures
        members_view(final(m)@) == members_view(old(m)@) + opt_member(
            key@,
            match v {
                Some(n) => Some(Json::Number(decimal(n as nat))),
                None => None,
            },
        ),
{
    let ghost before = members_view(m@);
    match v {
        Some(n) => push_member(m, key, JsonValue::Number(u64_to_string(n as u64))),
        None => {},
    }
    assert(members_view(m@) =~= before + opt_member(
        key@,
        match v {
            Some(n) => Some(Json::Number(decimal(n as nat))),
            None => None,
        },
    ));
}

fn push_opt_bool(m: &mut Vec<(String, JsonValue)>, key: &str, v: Option<bool>)
    ensures
        members_view(final(m)@) == members_view(old(m)@) + opt_member(
            key@,
            match v {
                Some(b) => Some(Json::Bool(b)),
                None => None,
            },
        ),
{
    let ghost before = members_view(m@);
    match v {
        Some(b) => push_member(m, key, JsonValue::Bool(b)),
        None => {},
    }
    assert(members_view(m@) =~= before + opt_member(
        key@,
        match v {
            Some(b) => Some(Json::Bool(b)),
            None => None,
        },
    ));
}

/// The configuration JSON text for lldb-dap: `serde_json`'s compact text of
/// `dap_configuration_json` (members in key order). Serializing these
/// values cannot fail.
pub fn build_dap_configuration(config: &XcodeDebugConfig) -> (r: Result<String, String>)
    ensures
        r matches Ok(s) && s@ == spec_json_to_string(dap_configuration_of(*config)),
{
    let v = dap_configuration_json(config);
    Ok(json_to_string(&v))
}

/// The camelCase names of the lldb-dap configuration.
pub open spec fn dap_key(n: Seq<char>) -> bool {
    n == "program"@ || n == "cwd"@ || n == "args"@ || n == "env"@ || n == "pid"@ || n
        == "stopOnEntry"@ || n == "waitFor"@
}

pub open spec fn all_dap_keys(m: Seq<(Seq<char>, Json)>) -> bool {
    forall|k: int| 0 <= k < m.len() ==> dap_key(#[trigger] m[k].0)
}

proof fn lemma_dap_key_not_request(n: Seq<char>)
    requires
        dap_key(n),
    ensures
        n != "request"@,
{
    reveal_strlit("request");
    reveal_strlit("program");
    reveal_strlit("cwd");
    reveal_strlit("args");
    reveal_strlit("env");
    reveal_strlit("pid");
    reveal_strlit("stopOnEntry");
    reveal_strlit("waitFor");
    if n == "program"@ {
        assert(n[0] != "request"@[0]);
    } else if n == "waitFor"@ {
        assert(n[0] != "request"@[0]);
    } else {
        assert(n.len() != "request"@.len());
    }
}

proof fn lemma_all_dap_keys_concat(x: Seq<(Seq<char>, Json)>, y: Seq<(Seq<char>, Json)>)
    requires
        all_dap_keys(x),
        all_dap_keys(y),
    ensures
        all_dap_keys(x + y),
{
    assert forall|k: int| 0 <= k < (x + y).len() implies dap_key(#[trigger] (x + y)[k].0) by {
        if k < x.len() {
            assert((x + y)[k] == x[k]);
        } else {
            assert((x + y)[k] == y[k - x.len()]);
        }
    }
}

proof fn lemma_opt_member_key(key: Seq<char>, v: Option<Json>)
    requires
        dap_key(key),
    ensures
        all_dap_keys(opt_member(key, v)),
{
}

/// Law: the lldb-dap configuration never carries `request`, and every
/// member it has is one of the camelCase field names.
pub proof fn lemma_dap_configuration_keys(c: XcodeDebugConfig)
    ensures
        json_get(dap_configuration_of(c), "request"@) is None,
        all_dap_keys(dap_members(c)),
{
    lemma_opt_member_key("program"@, match c.program {
        Some(p) => Some(Json::Str(p@)),
        None => None,
    });
    lemma_opt_member_key("cwd"@, match c.cwd {
        Some(p) => Some(Json::Str(p@)),
        None => None,
    });
    lemma_opt_member_key("args"@, if c.args@.len() > 0 {
        Some(str_array(strs_view(c.args@)))
    } else {
        None
    });
    lemma_opt_member_key("env"@, if c.env@.len() > 0 {
        Some(str_array(strs_view(c.env@)))
    } else {
        None
    });
    lemma_opt_member_key("pid"@, match c.pid {
        Some(n) => Some(Json::Number(decimal(n as nat))),
        None => None,
    });
    lemma_opt_member_key("stopOnEntry"@, match c.stop_on_entry {
        Some(b) => Some(Json::Bool(b)),
        None => None,
    });
    lemma_opt_member_key("waitFor"@, match c.wait_for {
        Some(b) => Some(Json::Bool(b)),
        None => None,
    });
    let a1 = program_member(c) + cwd_member(c);
    lemma_all_dap_keys_concat(program_member(c), cwd_member(c));
    let a2 = a1 + args_member(c);
    lemma_all_dap_keys_concat(a1, args_member(c));
    let a3 = a2 + env_member(c);
    lemma_all_dap_keys_concat(a2, env_member(c));
    let a4 = a3 + pid_member(c);
    lemma_all_dap_keys_concat(a3, pid_member(c));
    let a5 = a4 + stop_member(c);
    lemma_all_dap_keys_concat(a4, stop_member(c));
    lemma_all_dap_keys_concat(a5, wait_member(c));
    let ms = dap_members(c);
    assert forall|k: int| 0 <= k < ms.len() implies ms[k].0 != "request"@ by {
        lemma_dap_key_not_request(ms[k].0);
    }
    crate::json::lemma_member_lookup_none(ms, "request"@);
}

// ── Request kinds ──

/// The kind of DAP request a session starts with.
#[derive(PartialEq, Eq, Structural, Clone, Copy, Debug)]
pub enum RequestKind {
    Launch,
    Attach,
}

/// The request kind named by a configuration's `request` field.
pub open spec fn request_kind_of(config: Json) -> Result<RequestKind, Seq<char>> {
    match json_str(json_get(config, "request"@)) {
        Some(r) => if r == "launch"@ {
            Ok(RequestKind::Launch)
        } else if r == "attach"@ {
            Ok(RequestKind::Attach)
        } else {
            Err("Unknown request type: "@ + r)
        },
        None => Err("Missing 'request' field in debug configuration"@),
    }
}

/// The DAP request kind of a debug configuration.
pub fn dap_request_kind(config: &JsonValue) -> (r: Result<RequestKind, String>)
    ensures
        match r {
            Ok(k) => request_kind_of(config@) == Ok::<RequestKind, Seq<char>>(k),
            Err(e) => request_kind_of(config@) == Err::<RequestKind, Seq<char>>(e@),
        },
{
    match as_str(get(config, "request")) {
        Some(r) => if str_eq(r, "launch") {
            Ok(RequestKind::Launch)
        } else if str_eq(r, "attach") {
            Ok(RequestKind::Attach)
        } else {
            Err(concat("Unknown request type: ", r))
        },
        None => Err(owned("Missing 'request' field in debug configuration")),
    }
}

// ── The lldb-dap binary ──

#[verifier::external_type_specification]
#[verifier::external_body]
pub struct ExWorktree(zed_extension_api::Worktree);

/// `Worktree::which`: the path of a binary on the worktree's `$PATH`. What
/// it finds depends on the machine, so nothing is stated of it.
#[verifier::external_body]
fn worktree_which(worktree: &zed_extension_api::Worktree, name: &str) -> Option<String> {
    worktree.which(name)
}

pub open spec fn lldb_dap_missing_msg() -> Seq<char> {
    "lldb-dap not found. Install Xcode Command Line Tools or set a custom debug adapter path."@
}

/// The lldb-dap command and its arguments: the user's path first; else
/// `xcrun lldb-dap` when `xcrun` is on the path; else `lldb-dap` found on
/// the path; else an error.
pub open spec fn choose_dap_binary_of(user_path: Option<Seq<char>>, has_xcrun: bool, lldb_dap: Option<Seq<char>>) -> Result<
    (Seq<char>, Seq<Seq<char>>),
    Seq<char>,
> {
    match user_path {
        Some(p) => Ok((p, Seq::empty())),
        None => if has_xcrun {
            Ok(("xcrun"@, seq!["lldb-dap"@]))
        } else {
            match lldb_dap {
                Some(p) => Ok((p, Seq::empty())),
                None => Err(lldb_dap_missing_msg()),
            }
        },
    }
}

/// The view of a command and its arguments.
pub open spec fn command_view(c: Result<(String, Vec<String>), String>) -> Result<(Seq<char>, Seq<Seq<char>>), Seq<char>> {
    match c {
        Ok((cmd, args)) => Ok((cmd@, strs_view(args@))),
        Err(e) => Err(e@),
    }
}

/// The lldb-dap command chosen from the user's path and what was found on
/// the path.
pub fn choose_dap_binary(user_path: Option<String>, has_xcrun: bool, lldb_dap: Option<String>) -> (r: Result<
    (String, Vec<String>),
    String,
>)
    ensures
        command_view(r) == choose_dap_binary_of(opt_text(user_path), has_xcrun, opt_text(lldb_dap)),
{
    let none: Vec<String> = Vec::new();
    assert(strs_view(none@) =~= Seq::<Seq<char>>::empty());
    match user_path {
        Some(p) => Ok((p, none)),
        None => if has_xcrun {
            let a = vec![owned("lldb-dap")];
            assert(strs_view(a@) =~= seq!["lldb-dap"@]);
            Ok((owned("xcrun"), a))
        } else {
            match lldb_dap {
                Some(p) => Ok((p, none)),
                None => Err(
                    owned(
                        "lldb-dap not found. Install Xcode Command Line Tools or set a custom debug adapter path.",
                    ),
                ),
            }
        },
    }
}

/// The `$PATH` lookups of a binary resolution: each name asked for and what
/// was found.
pub type Lookups = Seq<(Seq<char>, Option<Seq<char>>)>;

/// The lookups owed: none with a user path; else `xcrun` first, then
/// `lldb-dap` only when no `xcrun` was found.
pub open spec fn lookups_in_order(user_path: Option<Seq<char>>, t: Lookups) -> bool {
    match user_path {
        Some(_) => t.len() == 0,
        None => {
            &&& t.len() >= 1
            &&& t[0].0 == "xcrun"@
            &&& if t[0].1 is Some {
                t.len() == 1
            } else {
                t.len() == 2 && t[1].0 == "lldb-dap"@
            }
        },
    }
}

/// The command chosen from the user's path and the lookups made.
pub open spec fn command_from_lookups(user_path: Option<Seq<char>>, t: Lookups) -> Result<
    (Seq<char>, Seq<Seq<char>>),
    Seq<char>,
> {
    choose_dap_binary_of(
        user_path,
        t.len() > 0 && t[0].1 is Some,
        if t.len() > 1 {
            t[1].1
        } else {
            None
        },
    )
}

/// Resolve the lldb-dap command: the user-provided path takes priority, then
/// `xcrun lldb-dap` (Xcode's own), then a bare `lldb-dap` on the path. The
/// second result records the lookups made, in order, with what each found.
pub fn resolve_dap_binary(user_path: Option<String>, worktree: &zed_extension_api::Worktree) -> (r: (
    Result<(String, Vec<String>), String>,
    Ghost<Lookups>,
))
    ensures
        lookups_in_order(opt_text(user_path), r.1@),
        command_view(r.0) == command_from_lookups(opt_text(user_path), r.1@),
{
    let ghost up = opt_text(user_path);
    proof {
        reveal_strlit("xcrun");
        reveal_strlit("lldb-dap");
    }
    if user_path.is_some() {
        let r = choose_dap_binary(user_path, false, None);
        return (r, Ghost(Seq::empty()));
    }
    let xcrun = worktree_which(worktree, "xcrun");
    let ghost t1: Lookups = seq![("xcrun"@, opt_text(xcrun))];
    if xcrun.is_some() {
        let r = choose_dap_binary(user_path, true, None);
        return (r, Ghost(t1));
    }
    let lldb = worktree_which(worktree, "lldb-dap");
    let ghost t2: Lookups = t1.push(("lldb-dap"@, opt_text(lldb)));
    let ghost lv = opt_text(lldb);
    let r = choose_dap_binary(user_path, false, lldb);
    assert(t2[1].1 == lv);
    (r, Ghost(t2))
}

/// What lldb-dap is started with.
pub struct DapBinary {
    pub command: String,
    pub arguments: Vec<String>,
    pub cwd: String,
    pub configuration: String,
    pub request: RequestKind,
}

/// The request kind of a validated request text.
pub open spec fn start_kind_of(request: Seq<char>) -> Result<RequestKind, Seq<char>> {
    if request == "launch"@ {
        Ok(RequestKind::Launch)
    } else if request == "attach"@ {
        Ok(RequestKind::Attach)
    } else {
        Err("Invalid request type: "@ + request)
    }
}

/// How to start lldb-dap for a debug task: refuse another adapter, report a
/// configuration that did not parse (`parsed` is serde's outcome on the
/// task's JSON), validate it, then choose the binary (see
/// `resolve_dap_binary`; the second result records its `$PATH` lookups);
/// the working directory is the configured one, or `worktree_root`.
pub fn get_dap_binary(
    adapter_name: &str,
    parsed: Result<XcodeDebugConfig, String>,
    user_provided_debug_adapter_path: Option<String>,
    worktree: &zed_extension_api::Worktree,
    worktree_root: &str,
) -> (r: (Result<DapBinary, String>, Ghost<Lookups>))
    ensures
        adapter_name@ != ADAPTER_NAME@ ==> (r.0 matches Err(e) && e@ == "Unknown adapter: "@ + adapter_name@)
            && r.1@.len() == 0,
        adapter_name@ == ADAPTER_NAME@ ==> match parsed {
            Err(pe) => r.0 matches Err(e) && e@ == "Config parse error: "@ + pe@ && r.1@.len() == 0,
            Ok(c) => match validate_of(c) {
                Err(ve) => r.0 matches Err(e) && e@ == ve && r.1@.len() == 0,
                Ok(()) => {
                    let up = opt_text(user_provided_debug_adapter_path);
                    &&& start_kind_of(c.request@) is Ok
                    &&& lookups_in_order(up, r.1@)
                    &&& match command_from_lookups(up, r.1@) {
                        Ok((cmd, args)) => r.0 matches Ok(b) && b.command@ == cmd && strs_view(b.arguments@) == args
                            && b.request == start_kind_of(c.request@)->Ok_0
                            && b.configuration@ == spec_json_to_string(dap_configuration_of(c))
                            && b.cwd@ == resolve_cwd_of(opt_text(c.cwd), worktree_root@),
                        Err(m) => r.0 matches Err(e) && e@ == m,
                    }
                },
            },
        },
{
    proof {
        reveal_strlit("xcode-debug");
    }
    let none: Ghost<Lookups> = Ghost(Seq::empty());
    if !str_eq(adapter_name, ADAPTER_NAME) {
        return (Err(concat("Unknown adapter: ", adapter_name)), none);
    }
    let config = match parsed {
        Ok(c) => c,
        Err(e) => {
            return (Err(concat("Config parse error: ", e.as_str())), none);
        },
    };
    match validate_config(&config) {
        Ok(()) => {},
        Err(e) => {
            return (Err(e), none);
        },
    }
    let request = if str_eq(config.request.as_str(), "launch") {
        RequestKind::Launch
    } else if str_eq(config.request.as_str(), "attach") {
        RequestKind::Attach
    } else {
        return (Err(concat("Invalid request type: ", config.request.as_str())), none);
    };
    let (found, lookups) = resolve_dap_binary(user_provided_debug_adapter_path, worktree);
    let (command, arguments) = match found {
        Ok(x) => x,
        Err(e) => {
            return (Err(e), lookups);
        },
    };
    let configuration = match build_dap_configuration(&config) {
        Ok(s) => s,
        Err(e) => {
            return (Err(e), lookups);
        },
    };
    let cwd = match &config.cwd {
        Some(c) => resolve_cwd(Some(c.as_str()), worktree_root),
        None => resolve_cwd(None, worktree_root),
    };
    (Ok(DapBinary { command, arguments, cwd, configuration, request }), lookups)
}

// ── Scenarios ──

/// What the editor's new-session dialog asks for.
pub enum ScenarioRequest {
    Launch { program: String, cwd: Option<String>, args: Vec<String>, envs: Vec<(String, String)> },
    Attach { process_id: Option<u32> },
}

/// `KEY=VALUE`, or the bare key when the value is empty.
pub open spec fn env_entry_of(k: Seq<char>, v: Seq<char>) -> Seq<char> {
    if v.len() == 0 {
        k
    } else {
        k + "="@ + v
    }
}

/// The environment entries of a launch.
pub open spec fn env_entries_of(envs: Seq<(String, String)>) -> Seq<Seq<char>> {
    envs.map_values(|e: (String, String)| env_entry_of(e.0@, e.1@))
}

/// The environment as lldb-dap's `env` list.
pub fn env_entries(envs: &Vec<(String, String)>) -> (r: Vec<String>)
    ensures
        strs_view(r@) == env_entries_of(envs@),
{
    let mut out: Vec<String> = Vec::new();
    let mut i: usize = 0;
    while i < envs.len()
        invariant
            i <= envs@.len(),
            strs_view(out@) == env_entries_of(envs@.take(i as int)),
        decreases envs@.len() - i,
    {
        let (k, v) = &envs[i];
        let e = if is_empty_str(v.as_str()) {
            k.clone()
        } else {
            let a = concat(k.as_str(), "=");
            concat(a.as_str(), v.as_str())
        };
        let ghost before = strs_view(out@);
        let ghost ev = e@;
        out.push(e);
        assert(strs_view(out@) =~= before.push(ev));
        assert(env_entries_of(envs@.take(i + 1)) =~= env_entries_of(envs@.take(i as int)).push(
            env_entry_of(k@, v@),
        ));
        i = i + 1;
    }
    assert(envs@.take(envs@.len() as int) =~= envs@);
    out
}

/// The debug configuration a scenario from the new-session dialog stands for.
pub fn scenario_config(request: ScenarioRequest, stop_on_entry: Option<bool>) -> (r: XcodeDebugConfig)
    ensures
        r.stop_on_entry == stop_on_entry,
        r.wait_for is None,
        match request {
            ScenarioRequest::Launch { program, cwd, args, envs } => {
                &&& r.request@ == "launch"@
                &&& opt_text(r.program) == Some(program@)
                &&& opt_text(r.cwd) == opt_text(cwd)
                &&& strs_view(r.args@) == strs_view(args@)
                &&& strs_view(r.env@) == env_entries_of(envs@)
                &&& r.pid is None
            },
            ScenarioRequest::Attach { process_id } => {
                &&& r.request@ == "attach"@
                &&& r.program is None
                &&& r.cwd is None
                &&& r.args@.len() == 0
                &&& r.env@.len() == 0
                &&& r.pid == process_id
            },
        },
{
    match request {
        ScenarioRequest::Launch { program, cwd, args, envs } => {
            let env = env_entries(&envs);
            XcodeDebugConfig {
                request: owned("launch"),
                program: Some(program),
                cwd,
                args,
                env,
                pid: None,
                stop_on_entry,
                wait_for: None,
            }
        },
        ScenarioRequest::Attach { process_id } => XcodeDebugConfig {
            request: owned("attach"),
            program: None,
            cwd: None,
            args: Vec::new(),
            env: Vec::new(),
            pid: process_id,
            stop_on_entry,
            wait_for: None,
        },
    }
}

} // verus!
