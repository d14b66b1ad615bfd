use xcode_tools::json::{as_str, get, json_to_string, parse_json, JsonValue};
use xcode_tools::protocol::{
    did_change_notification, error_response, frame_message, handle_message, header_step,
    parse_synth_args, parse_usize, read_frame, Dispatch,
    FrameError, HeaderStep,
};
use xcode_tools::state::ServerState;
use xcode_tools::uri::uri_to_path;

fn s(x: &str) -> JsonValue {
    JsonValue::Str(x.to_string())
}

fn obj(m: Vec<(&str, JsonValue)>) -> JsonValue {
    JsonValue::Object(m.into_iter().map(|(k, v)| (k.to_string(), v)).collect())
}

fn request(method: &str, params: JsonValue) -> JsonValue {
    obj(vec![
        ("jsonrpc", s("2.0")),
        ("id", JsonValue::Number("1".to_string())),
        ("method", s(method)),
        ("params", params),
    ])
}

fn reply(d: Dispatch) -> JsonValue {
    match d {
        Dispatch::Reply(v) => v,
        _ => panic!("expected a reply"),
    }
}

#[test]
fn round_trip_message() {
    let msg = obj(vec![
        ("jsonrpc", s("2.0")),
        ("id", JsonValue::Number("3".to_string())),
        ("result", JsonValue::Null),
    ]);
    let framed = frame_message(&msg);
    let bytes = framed.as_bytes();
    let (body, used) = read_frame(bytes).unwrap().unwrap();
    assert_eq!(used, bytes.len());
    let decoded = parse_json(std::str::from_utf8(&body).unwrap()).unwrap();
    assert_eq!(json_to_string(&decoded), json_to_string(&msg));
    assert_eq!(get(&decoded, "id"), Some(&JsonValue::Number("3".to_string())));
    assert_eq!(get(&decoded, "result"), Some(&JsonValue::Null));
    // Nothing left → clean EOF.
    assert_eq!(read_frame(&bytes[used..]), Ok(None));
}

#[test]
fn read_frame_ignores_extra_headers() {
    let raw = b"Content-Type: application/vscode-jsonrpc\r\nContent-Length: 2\r\n\r\n{}";
    let (body, _) = read_frame(raw).unwrap().unwrap();
    assert_eq!(body, b"{}");
}

#[test]
fn read_frame_errors() {
    assert_eq!(read_frame(b"Content-Length: 2\r\n"), Err(FrameError::UnexpectedEof));
    assert_eq!(read_frame(b"Content-Type: x\r\n\r\n{}"), Err(FrameError::MissingContentLength));
    assert_eq!(read_frame(b"Content-Length: x\r\n\r\n"), Err(FrameError::InvalidContentLength));
    assert_eq!(read_frame(b"Content-Length: 67108865\r\n\r\n"), Err(FrameError::TooLarge));
    assert_eq!(read_frame(b"Content-Length: 5\r\n\r\n{}"), Err(FrameError::ShortBody));
    assert_eq!(read_frame(b"\xff\r\n"), Err(FrameError::InvalidUtf8));
    assert_eq!(read_frame(b""), Ok(None));
    assert_eq!(FrameError::MissingContentLength.message(), "missing Content-Length header");
}

#[test]
fn header_lines() {
    assert_eq!(header_step(None, "Content-Length: +12\r\n"), HeaderStep::More(Some(12)));
    assert_eq!(header_step(Some(3), "X-Other: 1\r\n"), HeaderStep::More(Some(3)));
    assert_eq!(header_step(Some(3), "\r\n"), HeaderStep::End(3));
    assert_eq!(parse_usize("007"), Some(7));
    assert_eq!(parse_usize("-1"), None);
    assert_eq!(parse_usize("+"), None);
    assert_eq!(parse_usize("99999999999999999999999"), None);
}

#[test]
fn content_length_is_utf8_byte_count() {
    // Path with Korean + emoji: char count != UTF-8 byte count.
    let msg = obj(vec![("path", s("/Users/me/프로젝트/📁/A.swift"))]);
    let text = frame_message(&msg);
    let (header, body) = text.split_once("\r\n\r\n").unwrap();
    let declared: usize = header
        .strip_prefix("Content-Length:")
        .unwrap()
        .trim()
        .parse()
        .unwrap();
    assert_eq!(declared, body.len());
    assert!(body.len() > body.chars().count());
}

#[test]
fn pre_init_request_errors_123() {
    let resp = reply(handle_message(false, "", &request("workspace/buildTargets", JsonValue::Null)));
    let err = get(&resp, "error").unwrap();
    assert_eq!(get(err, "code"), Some(&JsonValue::Number("123".to_string())));
    assert!(get(&resp, "result").is_none());
}

#[test]
fn initialize_advertises_sourcekit() {
    let msg = request("build/initialize", obj(vec![("rootUri", s("file:///tmp/x"))]));
    let mut st = ServerState::empty();
    let (id, root_uri) = match handle_message(st.initialized, &st.root, &msg) {
        Dispatch::Initialize(id, u) => (id, u),
        _ => panic!("expected initialize"),
    };
    assert_eq!(root_uri, "file:///tmp/x");
    // A root with no buildServer.json and no project.
    st = ServerState::init_from_root(&uri_to_path(&root_uri), None, None);
    let resp = st.complete_initialize(&id, &root_uri, "0.1.0", None, Some("/c/db".to_string()));
    let r = get(&resp, "result").unwrap();
    assert_eq!(as_str(get(r, "dataKind")), Some("sourceKit"));
    let data = get(r, "data").unwrap();
    assert_eq!(get(data, "sourceKitOptionsProvider"), Some(&JsonValue::Bool(true)));
    assert!(get(data, "indexStorePath").is_none());
    assert_eq!(as_str(get(data, "indexDatabasePath")), Some("/c/db"));
    assert_eq!(as_str(get(r, "bspVersion")), Some("2.2.0"));
    assert_eq!(as_str(get(r, "rootUri")), Some("file:///tmp/x"));
    assert!(st.initialized);
    assert_eq!(st.root, "/tmp/x");
}

/// The server's answer to a sourceKitOptions message on a session where
/// nothing needs loading (no project known).
fn source_kit_answer(st: &ServerState, msg: &JsonValue) -> JsonValue {
    match handle_message(st.initialized, &st.root, msg) {
        Dispatch::SourceKitOptions(id, uri) => st.source_kit_answer(&id, uri.as_deref()),
        _ => panic!("expected sourceKitOptions"),
    }
}

fn initialized_state() -> ServerState {
    let mut st = ServerState::empty();
    st.initialized = true;
    st
}

#[test]
fn both_source_kit_options_names_route_to_same_handler() {
    let params = obj(vec![("textDocument", obj(vec![("uri", s("file:///x/A.m"))]))]);
    for method in ["textDocument/sourceKitOptions", "sourcekit/textDocument/sourceKitOptions"] {
        let st = initialized_state();
        let resp = source_kit_answer(&st, &request(method, clone_params(&params)));
        assert!(get(&resp, "result").is_some(), "{method} should reach the handler");
        assert_eq!(get(&resp, "result"), Some(&JsonValue::Null));
        assert!(get(&resp, "error").is_none());
    }
}

fn clone_params(p: &JsonValue) -> JsonValue {
    parse_json(&json_to_string(p)).unwrap()
}

#[test]
fn swift_uri_returns_null() {
    let st = initialized_state();
    let params = obj(vec![("textDocument", obj(vec![("uri", s("file:///x/A.swift"))]))]);
    let resp = source_kit_answer(&st, &request("textDocument/sourceKitOptions", params));
    assert_eq!(get(&resp, "result"), Some(&JsonValue::Null));
}

#[test]
fn unknown_method_errors_123() {
    let resp = reply(handle_message(true, "", &request("frob/nonsense", JsonValue::Null)));
    let err = get(&resp, "error").unwrap();
    assert_eq!(get(err, "code"), Some(&JsonValue::Number("123".to_string())));
    assert_eq!(as_str(get(err, "message")), Some("unhandled method frob/nonsense"));
}

#[test]
fn did_change_notification_has_null_changes_and_no_id() {
    let n = did_change_notification();
    assert_eq!(as_str(get(&n, "jsonrpc")), Some("2.0"));
    assert_eq!(as_str(get(&n, "method")), Some("buildTarget/didChange"));
    assert_eq!(get(get(&n, "params").unwrap(), "changes"), Some(&JsonValue::Null));
    assert!(get(&n, "id").is_none());
}

#[test]
fn shutdown_returns_null() {
    let resp = reply(handle_message(true, "", &request("build/shutdown", JsonValue::Null)));
    assert_eq!(get(&resp, "result"), Some(&JsonValue::Null));
    assert!(get(&resp, "error").is_none());
}

#[test]
fn notifications_return_none() {
    let notif = obj(vec![("jsonrpc", s("2.0")), ("method", s("build/initialized")), ("params", obj(vec![]))]);
    assert!(matches!(handle_message(true, "", &notif), Dispatch::Silent));
    let cancel = obj(vec![("jsonrpc", s("2.0")), ("method", s("$/cancelRequest")), ("params", obj(vec![]))]);
    assert!(matches!(handle_message(true, "", &cancel), Dispatch::Silent));
}

#[test]
fn sources_reply_carries_root_uri() {
    let resp = reply(handle_message(true, "/My Root", &request("buildTarget/sources", JsonValue::Null)));
    let text = json_to_string(&resp);
    assert!(text.contains("file:///My%20Root"));
    assert!(text.contains("\"kind\":2"));
}

#[test]
fn build_targets_reply_lists_languages() {
    let resp = reply(handle_message(true, "", &request("workspace/buildTargets", JsonValue::Null)));
    let text = json_to_string(&resp);
    assert!(text.contains("\"languageIds\":[\"c\",\"cpp\",\"objective-c\",\"objective-cpp\",\"swift\"]"));
    assert!(text.contains("dummy://dummy"));
}

#[test]
fn error_response_shape() {
    let e = error_response(&JsonValue::Null, -32700, "parse error");
    assert_eq!(json_to_string(&e), r#"{"error":{"code":-32700,"message":"parse error"},"id":null,"jsonrpc":"2.0"}"#);
}

#[test]
fn synth_command_line() {
    let args: Vec<String> = ["--workspace", "/w/W.xcworkspace", "--scheme", "S", "--file", "/f.m"]
        .iter()
        .map(|x| x.to_string())
        .collect();
    let a = parse_synth_args(&args).unwrap();
    assert_eq!(a.project, "/w/W.xcworkspace");
    assert_eq!(a.project_flag, "-workspace");
    assert_eq!(a.scheme.as_deref(), Some("S"));
    assert_eq!(a.file, "/f.m");
    let missing = vec!["--file".to_string()];
    assert_eq!(parse_synth_args(&missing).err().unwrap(), "missing value for --file");
    let unknown = vec!["--nope".to_string()];
    assert_eq!(parse_synth_args(&unknown).err().unwrap(), "unknown synth arg: --nope");
    let no_project = vec!["--file".to_string(), "/f.m".to_string()];
    assert_eq!(
        parse_synth_args(&no_project).err().unwrap(),
        "synth: --project or --workspace is required"
    );
    let no_file = vec!["--project".to_string(), "/p.xcodeproj".to_string()];
    assert_eq!(parse_synth_args(&no_file).err().unwrap(), "synth: --file is required");
}

#[test]
fn frame_errors_at_end_of_input() {
    assert!(FrameError::UnexpectedEof.is_early_end());
    assert!(FrameError::ShortBody.is_early_end());
    assert!(!FrameError::MissingContentLength.is_early_end());
    assert!(!FrameError::InvalidContentLength.is_early_end());
    assert!(!FrameError::TooLarge.is_early_end());
}
