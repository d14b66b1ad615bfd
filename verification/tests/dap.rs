use xcode_tools::dap::{
    build_dap_configuration, choose_dap_binary, dap_request_kind, resolve_cwd, scenario_config,
    validate_config, RequestKind, ScenarioRequest, XcodeDebugConfig,
};
use xcode_tools::json::{as_str, get, parse_json, JsonValue};

fn config(request: &str) -> XcodeDebugConfig {
    XcodeDebugConfig {
        request: request.to_string(),
        program: None,
        cwd: None,
        args: vec![],
        env: vec![],
        pid: None,
        stop_on_entry: None,
        wait_for: None,
    }
}

fn parsed(c: &XcodeDebugConfig) -> JsonValue {
    parse_json(&build_dap_configuration(c).unwrap()).unwrap()
}

fn item(v: &JsonValue, i: usize) -> Option<&JsonValue> {
    match v {
        JsonValue::Array(a) => a.get(i),
        _ => None,
    }
}

#[test]
fn dap_config_excludes_request() {
    let mut c = config("launch");
    c.program = Some("/tmp/a.out".to_string());
    c.env = vec!["PATH=/usr/bin".to_string()];
    c.stop_on_entry = Some(false);
    let value = parsed(&c);
    assert!(get(&value, "request").is_none(), "request must be excluded");
    assert_eq!(as_str(get(&value, "program")), Some("/tmp/a.out"));
    assert_eq!(as_str(item(get(&value, "env").unwrap(), 0)), Some("PATH=/usr/bin"));
}

#[test]
fn dap_config_roundtrip_camel_case() {
    let mut c = config("attach");
    c.pid = Some(999);
    c.stop_on_entry = Some(true);
    c.wait_for = Some(true);
    let value = parsed(&c);
    assert_eq!(get(&value, "pid"), Some(&JsonValue::Number("999".to_string())));
    assert_eq!(get(&value, "stopOnEntry"), Some(&JsonValue::Bool(true)));
    assert_eq!(get(&value, "waitFor"), Some(&JsonValue::Bool(true)));
    assert!(get(&value, "stop_on_entry").is_none());
    assert!(get(&value, "wait_for").is_none());
}

#[test]
fn serialized_env_is_string_array() {
    let mut c = config("launch");
    c.program = Some("/app".to_string());
    c.env = vec!["A=1".to_string(), "B=2".to_string()];
    let value = parsed(&c);
    assert!(matches!(get(&value, "env"), Some(JsonValue::Array(_))));
    assert_eq!(as_str(item(get(&value, "env").unwrap(), 0)), Some("A=1"));
    assert_eq!(as_str(item(get(&value, "env").unwrap(), 1)), Some("B=2"));
}

#[test]
fn launch_serialized_omits_pid_and_wait_for() {
    let mut c = config("launch");
    c.program = Some("/tmp/a.out".to_string());
    let value = parsed(&c);
    assert!(get(&value, "pid").is_none());
    assert!(get(&value, "waitFor").is_none());
}

#[test]
fn attach_serialized_omits_program_args_env() {
    let mut c = config("attach");
    c.pid = Some(12345);
    let value = parsed(&c);
    assert!(get(&value, "program").is_none());
    assert!(get(&value, "args").is_none());
    assert!(get(&value, "env").is_none());
}

#[test]
fn empty_args_and_env_are_omitted() {
    let mut c = config("launch");
    c.program = Some("/app".to_string());
    let value = parsed(&c);
    assert!(get(&value, "args").is_none());
    assert!(get(&value, "env").is_none());
}

#[test]
fn dap_configuration_text_is_compact_in_key_order() {
    let mut c = config("launch");
    c.program = Some("/a b".to_string());
    c.args = vec!["-v".to_string()];
    c.cwd = Some("/w".to_string());
    assert_eq!(
        build_dap_configuration(&c).unwrap(),
        r#"{"args":["-v"],"cwd":"/w","program":"/a b"}"#
    );
}

#[test]
fn validate_launch_requires_program() {
    let c = config("launch");
    assert!(validate_config(&c).is_err());
}

#[test]
fn validate_launch_rejects_empty_program() {
    let mut c = config("launch");
    c.program = Some(String::new());
    assert!(validate_config(&c).is_err());
}

#[test]
fn validate_launch_accepts_valid_program() {
    let mut c = config("launch");
    c.program = Some("/tmp/a.out".to_string());
    assert!(validate_config(&c).is_ok());
}

#[test]
fn validate_attach_requires_pid_or_program() {
    let c = config("attach");
    assert!(validate_config(&c).is_err());
}

#[test]
fn validate_attach_accepts_pid() {
    let mut c = config("attach");
    c.pid = Some(12345);
    assert!(validate_config(&c).is_ok());
}

#[test]
fn validate_attach_accepts_program_and_wait_for_true() {
    let mut c = config("attach");
    c.program = Some("MyApp".to_string());
    c.wait_for = Some(true);
    assert!(validate_config(&c).is_ok());
}

#[test]
fn validate_attach_rejects_pid_and_wait_for_true() {
    let mut c = config("attach");
    c.pid = Some(12345);
    c.wait_for = Some(true);
    assert!(validate_config(&c).is_err());
}

#[test]
fn validate_error_texts() {
    assert_eq!(
        validate_config(&config("run")).unwrap_err(),
        "xcode-debug: invalid 'request' value: run (expected \"launch\" or \"attach\")"
    );
    assert_eq!(
        validate_config(&config("attach")).unwrap_err(),
        "xcode-debug: attach requires either 'pid' (integer process ID) or 'program' (executable path or name)."
    );
}

#[test]
fn cwd_uses_parsed_when_present() {
    assert_eq!(resolve_cwd(Some("/custom"), "/root"), "/custom");
}

#[test]
fn cwd_falls_back_to_worktree_root() {
    assert_eq!(resolve_cwd(None, "/root"), "/root");
}

#[test]
fn cwd_empty_string_falls_back_to_worktree_root() {
    assert_eq!(resolve_cwd(Some(""), "/root"), "/root");
}

#[test]
fn request_kind_of_configuration() {
    let launch = parse_json(r#"{"request":"launch"}"#).unwrap();
    assert_eq!(dap_request_kind(&launch), Ok(RequestKind::Launch));
    let attach = parse_json(r#"{"request":"attach"}"#).unwrap();
    assert_eq!(dap_request_kind(&attach), Ok(RequestKind::Attach));
    let other = parse_json(r#"{"request":"run"}"#).unwrap();
    assert_eq!(dap_request_kind(&other), Err("Unknown request type: run".to_string()));
    let none = parse_json(r#"{}"#).unwrap();
    assert_eq!(
        dap_request_kind(&none),
        Err("Missing 'request' field in debug configuration".to_string())
    );
}

#[test]
fn dap_binary_choice_order() {
    assert_eq!(
        choose_dap_binary(Some("/my/lldb-dap".to_string()), true, None),
        Ok(("/my/lldb-dap".to_string(), vec![]))
    );
    assert_eq!(
        choose_dap_binary(None, true, Some("/usr/bin/lldb-dap".to_string())),
        Ok(("xcrun".to_string(), vec!["lldb-dap".to_string()]))
    );
    assert_eq!(
        choose_dap_binary(None, false, Some("/usr/bin/lldb-dap".to_string())),
        Ok(("/usr/bin/lldb-dap".to_string(), vec![]))
    );
    assert!(choose_dap_binary(None, false, None).unwrap_err().starts_with("lldb-dap not found."));
}

#[test]
fn scenario_from_launch_and_attach() {
    let c = scenario_config(
        ScenarioRequest::Launch {
            program: "/a".to_string(),
            cwd: None,
            args: vec!["x".to_string()],
            envs: vec![("K".to_string(), "V".to_string()), ("E".to_string(), String::new())],
        },
        Some(true),
    );
    assert_eq!(c.request, "launch");
    assert_eq!(c.env, vec!["K=V".to_string(), "E".to_string()]);
    assert_eq!(c.stop_on_entry, Some(true));
    let a = scenario_config(ScenarioRequest::Attach { process_id: Some(42) }, None);
    assert_eq!(a.request, "attach");
    assert_eq!(a.pid, Some(42));
    assert!(a.program.is_none());
}
