use xcode_tools::workspace::{
    build_server_config, detect_project, extract_locations, iter_tags, resolve_location,
    resolve_workspace_members, tag_location,
};

const WS_XML: &str = r#"<?xml version="1.0" encoding="UTF-8"?>
<Workspace version = "1.0">
   <FileRef location = "group:common"></FileRef>
   <FileRef location = "group:RVmacRXViewerManager/RVmacRXViewerManager.xcodeproj"></FileRef>
   <FileRef location = "group:RVmacRXViewerDisplay/RVmacRXViewerDisplay.xcodeproj"></FileRef>
   <FileRef location = "group:RVmacRXViewerStarter/RVmacRXViewerStarter.xcodeproj"></FileRef>
</Workspace>"#;

#[test]
fn workspace_members_classify_projects_and_shared_dirs() {
    let (projs, shared) = resolve_workspace_members("/ws", WS_XML);
    assert_eq!(
        projs,
        vec![
            "/ws/RVmacRXViewerManager/RVmacRXViewerManager.xcodeproj".to_string(),
            "/ws/RVmacRXViewerDisplay/RVmacRXViewerDisplay.xcodeproj".to_string(),
            "/ws/RVmacRXViewerStarter/RVmacRXViewerStarter.xcodeproj".to_string(),
        ]
    );
    // group:common (a dir, not .xcodeproj) → shared, not a project.
    assert_eq!(shared, vec!["/ws/common".to_string()]);
}

#[test]
fn extract_locations_handles_location_substring_in_path() {
    // A path segment literally containing "location" must not truncate/drop.
    let xml = r#"<FileRef location = "group:my_location/App.xcodeproj"></FileRef>"#;
    assert_eq!(extract_locations(xml), vec!["group:my_location/App.xcodeproj".to_string()]);
}

#[test]
fn nested_group_resolves_project_to_nested_path() {
    let xml = r#"<?xml version="1.0"?><Workspace version="1.0">
      <Group location = "group:sub">
        <Group location = "group:deep">
          <FileRef location = "group:App.xcodeproj"></FileRef>
        </Group>
      </Group>
    </Workspace>"#;
    let (projs, _) = resolve_workspace_members("/ws", xml);
    assert_eq!(projs, vec!["/ws/sub/deep/App.xcodeproj".to_string()]);
}

#[test]
fn container_scheme_ignores_group_nesting() {
    let xml = r#"<Workspace>
      <Group location = "group:sub">
        <FileRef location = "container:Top/C.xcodeproj"></FileRef>
        <FileRef location = "group:G.xcodeproj"></FileRef>
      </Group>
    </Workspace>"#;
    let (projs, _) = resolve_workspace_members("/ws", xml);
    assert!(projs.contains(&"/ws/Top/C.xcodeproj".to_string()));
    assert!(projs.contains(&"/ws/sub/G.xcodeproj".to_string()));
}

#[test]
fn self_closing_group_does_not_nest_siblings() {
    let xml = r#"<Workspace>
      <Group location = "group:sub" />
      <FileRef location = "group:App.xcodeproj" />
    </Workspace>"#;
    let (projs, _) = resolve_workspace_members("/ws", xml);
    assert_eq!(projs, vec!["/ws/App.xcodeproj".to_string()]);
}

#[test]
fn flat_workspace_still_resolves_identically() {
    let (projs, shared) = resolve_workspace_members("/ws", WS_XML);
    assert_eq!(projs.len(), 3);
    assert_eq!(shared, vec!["/ws/common".to_string()]);
}

#[test]
fn tags_and_locations_scan() {
    assert_eq!(iter_tags("a<b>c<d e>f<g"), vec!["b".to_string(), "d e".to_string()]);
    assert_eq!(tag_location(r#"FileRef location="self:" x"#).as_deref(), Some("self:"));
    assert_eq!(tag_location("FileRef"), None);
    // `location` not followed by `=` is skipped.
    assert_eq!(
        extract_locations(r#"location x location="a" location ="b""#),
        vec!["a".to_string(), "b".to_string()]
    );
}

#[test]
fn location_schemes_resolve() {
    assert_eq!(resolve_location("absolute:/x/../y/P.xcodeproj", "/ws", "/ws/g"), "/y/P.xcodeproj");
    assert_eq!(resolve_location("self:Top", "/ws", "/ws/g"), "/ws/Top");
    assert_eq!(resolve_location("container:a/./b", "/ws", "/ws/g"), "/ws/a/b");
    assert_eq!(resolve_location("group:c", "/ws", "/ws/g"), "/ws/g/c");
    assert_eq!(resolve_location("plain", "/ws", "/ws/g"), "/ws/g/plain");
}

#[test]
fn build_server_json_configuration() {
    let c = build_server_config(r#"{"workspace":"/p/W.xcworkspace","scheme":"S"}"#).unwrap();
    assert_eq!(c, ("-workspace".to_string(), "/p/W.xcworkspace".to_string(), Some("S".to_string())));
    let d = build_server_config(r#"{"project":"/p/A.xcodeproj","workspace":"/p/W.xcworkspace"}"#)
        .unwrap();
    assert_eq!(d, ("-project".to_string(), "/p/A.xcodeproj".to_string(), None));
    let e = build_server_config(r#"{"project":"/p/A.xcodeproj","project_flag":"-workspace"}"#)
        .unwrap();
    assert_eq!(e.0, "-workspace");
    assert_eq!(build_server_config(r#"{"scheme":"S"}"#), None);
    assert_eq!(build_server_config("nope"), None);
}

#[test]
fn detect_project_prefers_single_workspace() {
    let entries = vec![
        "/r/A.xcodeproj".to_string(),
        "/r/W.xcworkspace".to_string(),
        "/r/README.md".to_string(),
    ];
    assert_eq!(
        detect_project(&entries),
        Some(("-workspace".to_string(), "/r/W.xcworkspace".to_string()))
    );
    let two = vec!["/r/A.xcodeproj".to_string(), "/r/B.xcodeproj".to_string()];
    assert_eq!(detect_project(&two), None);
    let one = vec!["/r/A.xcodeproj".to_string()];
    assert_eq!(detect_project(&one), Some(("-project".to_string(), "/r/A.xcodeproj".to_string())));
}
