use xcode_tools::build_settings::parse_build_settings_for_target;
use xcode_tools::json::{get, json_to_string, JsonValue};
use xcode_tools::state::{
    deriveddata_name_matches, keep_scheme_settings, pick_largest, settings_belong_to,
    source_kit_file, ServerState, Stamp, TargetKey,
};

fn key(p: &str, t: &str) -> TargetKey {
    (p.to_string(), t.to_string())
}

// Build a ServerState with an injected enumeration for routing/scope tests.
fn state_with(
    workspace_root: &str,
    project_dirs: &[&str],
    shared_dirs: &[&str],
    file_to_targets: &[(&str, &[(&str, &str)])],
    target_sources: &[((&str, &str), &[&str])],
) -> ServerState {
    let mut st = ServerState::empty();
    st.enumerated = true;
    st.workspace_root = workspace_root.to_string();
    st.project_dirs = project_dirs.iter().map(|s| s.to_string()).collect();
    st.shared_dirs = shared_dirs.iter().map(|s| s.to_string()).collect();
    for (f, tks) in file_to_targets {
        let v: Vec<TargetKey> = tks.iter().map(|(p, t)| key(p, t)).collect();
        st.file_to_targets.push((f.to_string(), v));
    }
    for ((p, t), srcs) in target_sources {
        st.ordered_targets.push(key(p, t));
        st.target_sources.push((key(p, t), srcs.iter().map(|s| s.to_string()).collect()));
    }
    st
}

fn rvmac_state() -> ServerState {
    let d = "/ws/RVmacRXViewerDisplay/RVmacRXViewerDisplay.xcodeproj";
    let m = "/ws/RVmacRXViewerManager/RVmacRXViewerManager.xcodeproj";
    state_with(
        "/ws",
        &["/ws/RVmacRXViewerDisplay", "/ws/RVmacRXViewerManager", "/ws/RVmacRXViewerStarter"],
        &["/ws/common"],
        &[
            // a common/ file compiled by BOTH Display and Manager
            ("/ws/common/shared.m", &[(m, "Manager"), (d, "Display")]),
            // a Display-only project file
            ("/ws/RVmacRXViewerDisplay/RVmacRXViewerDisplay/main.m", &[(d, "Display")]),
        ],
        &[
            (
                (m, "Manager"),
                &["/ws/common/shared.m"],
            ),
            (
                (d, "Display"),
                &["/ws/common/shared.m", "/ws/RVmacRXViewerDisplay/RVmacRXViewerDisplay/main.m"],
            ),
        ],
    )
}

#[test]
fn multimap_common_file_maps_to_two_targets() {
    let st = rvmac_state();
    let targets = &st
        .file_to_targets
        .iter()
        .find(|(f, _)| f == "/ws/common/shared.m")
        .unwrap()
        .1;
    assert_eq!(targets.len(), 2);
}

#[test]
fn route_common_picks_deterministic_primary() {
    let st = rvmac_state();
    // Display sorts before Manager by project path → Display wins, every time.
    let key = st.route("/ws/common/shared.m").unwrap();
    assert_eq!(key.1, "Display");
}

#[test]
fn route_project_file_picks_its_target() {
    let st = rvmac_state();
    let key = st.route("/ws/RVmacRXViewerDisplay/RVmacRXViewerDisplay/main.m").unwrap();
    assert_eq!(key.1, "Display");
}

#[test]
fn route_unknown_file_prefix_matches_project_dir() {
    let st = rvmac_state();
    let key = st.route("/ws/RVmacRXViewerManager/RVmacRXViewerManager/NewFile.m").unwrap();
    assert_eq!(key.1, "Manager");
}

#[test]
fn route_falls_back_to_primary_and_none() {
    let st = rvmac_state();
    let key = st.route("/elsewhere/x.m").unwrap();
    assert_eq!(key.1, "Display");
    assert_eq!(ServerState::empty().route("/x.m"), None);
    assert_eq!(st.primary_target().unwrap().1, "Display");
}

#[test]
fn scan_roots_scope_project_plus_common_excluding_siblings() {
    let st = rvmac_state();
    let d = "/ws/RVmacRXViewerDisplay/RVmacRXViewerDisplay.xcodeproj";
    let roots = st.scan_roots_for(&key(d, "Display"));
    assert!(roots.contains(&"/ws/RVmacRXViewerDisplay".to_string()));
    assert!(roots.contains(&"/ws/common".to_string()));
    assert!(!roots.contains(&"/ws/RVmacRXViewerManager".to_string()));
    assert!(!roots.contains(&"/ws/RVmacRXViewerStarter".to_string()));
}

#[test]
fn scan_roots_excludes_workspace_root_ancestor_shared_dir() {
    let d = "/ws/RVmacRXViewerDisplay/RVmacRXViewerDisplay.xcodeproj";
    let mut st = state_with(
        "/ws",
        &["/ws/RVmacRXViewerDisplay", "/ws/RVmacRXViewerManager"],
        &["/ws"],
        &[],
        &[((d, "Display"), &[])],
    );
    st.shared_dirs = vec!["/ws".to_string()];
    let roots = st.scan_roots_for(&key(d, "Display"));
    assert_eq!(roots, vec!["/ws/RVmacRXViewerDisplay".to_string()]);
}

#[test]
fn enumeration_builds_file_map_once_per_target() {
    let mut st = ServerState::empty();
    st.project_path = "/ws/W.xcworkspace".to_string();
    st.project_flag = "-workspace".to_string();
    assert!(st.needs_enumeration());
    st.begin_enumeration(
        vec!["/ws/A/A.xcodeproj".to_string(), "/ws/B/B.xcodeproj".to_string()],
        vec!["/ws/common".to_string()],
    );
    assert_eq!(st.workspace_root, "/ws");
    assert_eq!(st.project_dirs, vec!["/ws/A".to_string(), "/ws/B".to_string()]);
    st.add_project_targets(
        "/ws/B/B.xcodeproj",
        &vec![("B".to_string(), vec!["/ws/common/c.m".to_string(), "/ws/B/b.m".to_string()])],
    );
    st.add_project_targets(
        "/ws/A/A.xcodeproj",
        &vec![("A".to_string(), vec!["/ws/common//c.m".to_string()])],
    );
    st.finish_enumeration(vec![]);
    assert!(st.enumerated);
    assert!(!st.needs_enumeration());
    // `/ws/common//c.m` is the same path as `/ws/common/c.m`.
    assert_eq!(st.file_to_targets.len(), 2);
    assert_eq!(st.route("/ws/common/c.m").unwrap(), key("/ws/A/A.xcodeproj", "A"));
    assert_eq!(st.ordered_targets.len(), 2);
}

#[test]
fn empty_project_path_stays_unenumerated_for_retry() {
    let st = ServerState::empty();
    assert!(st.project_path.is_empty());
    assert!(!st.needs_enumeration());
    assert!(!st.enumerated);
}

#[test]
fn watched_changed_detects_mtime_appearance_disappearance() {
    let real = Stamp { after_epoch: true, secs: 1000, nanos: 5 };
    let older = Stamp { after_epoch: true, secs: 900, nanos: 5 };
    let mut st = ServerState::empty();
    st.watched = vec![("/p/project.pbxproj".to_string(), Some(real))];
    assert!(!st.watched_changed(&vec![Some(real)]));
    st.watched = vec![("/p/project.pbxproj".to_string(), Some(older))];
    assert!(st.watched_changed(&vec![Some(real)]));
    // Appearance.
    st.watched = vec![("/p/Package.resolved".to_string(), None)];
    assert!(!st.watched_changed(&vec![None]));
    assert!(st.watched_changed(&vec![Some(real)]));
    // Disappearance.
    st.watched = vec![("/p/project.pbxproj".to_string(), Some(real))];
    assert!(st.watched_changed(&vec![None]));
}

#[test]
fn refresh_if_stale_is_noop_before_enumeration() {
    let mut st = ServerState::empty();
    st.enumerated = false;
    st.watched = vec![("/nope/project.pbxproj".to_string(), Some(Stamp { after_epoch: true, secs: 1, nanos: 0 }))];
    assert!(!st.refresh_needed(&vec![None]));
    st.enumerated = true;
    assert!(st.refresh_needed(&vec![None]));
}

#[test]
fn collect_watched_keeps_presampled_pbxproj_mtime() {
    let stale = Some(Stamp { after_epoch: true, secs: 500, nanos: 0 });
    let fresh = Some(Stamp { after_epoch: true, secs: 1000, nanos: 0 });
    let mut st = ServerState::empty();
    st.finish_enumeration(vec![
        ("/p/project.pbxproj".to_string(), stale),
        ("/p/x.xcconfig".to_string(), fresh),
        ("/p//project.pbxproj".to_string(), fresh),
    ]);
    assert_eq!(st.watched.len(), 2);
    let got = st.watched.iter().find(|(p, _)| p == "/p/project.pbxproj").map(|(_, m)| *m);
    assert_eq!(got, Some(stale), "pre-sampled pbxproj mtime must be preserved");
}

#[test]
fn invalidate_keeps_identity() {
    let mut st = rvmac_state();
    st.root = "/ws".to_string();
    st.project_path = "/ws/W.xcworkspace".to_string();
    st.invalidate();
    assert!(!st.enumerated);
    assert_eq!(st.root, "/ws");
    assert_eq!(st.project_path, "/ws/W.xcworkspace");
    assert!(st.ordered_targets.is_empty());
    assert_eq!(st.route("/ws/common/shared.m"), None);
}

#[test]
fn settings_belong_to_matches_project_dir() {
    let json = r#"[{"target":"T","buildSettings":{"PROJECT_DIR":"/ws/ProjA"}}]"#;
    let s = parse_build_settings_for_target(json, None).unwrap();
    assert!(settings_belong_to(&s, "/ws/ProjA"));
    assert!(settings_belong_to(&s, "/ws/ProjA/"));
    assert!(!settings_belong_to(&s, "/ws/ProjB"));
}

#[test]
fn settings_args_for_project_and_workspace() {
    let mut st = ServerState::empty();
    st.project_flag = "-project".to_string();
    st.project_path = "/p/A.xcodeproj".to_string();
    let k = key("/p/A.xcodeproj", "App");
    let (first, direct) = st.settings_args(&k, true);
    assert!(first.is_none());
    assert_eq!(direct, vec!["-showBuildSettings", "-json", "-project", "/p/A.xcodeproj", "-scheme", "App"]);
    let (_, by_target) = st.settings_args(&k, false);
    assert_eq!(by_target, vec!["-showBuildSettings", "-json", "-project", "/p/A.xcodeproj", "-target", "App"]);
    st.scheme = Some("S".to_string());
    let (_, by_scheme) = st.settings_args(&k, false);
    assert_eq!(by_scheme, vec!["-showBuildSettings", "-json", "-project", "/p/A.xcodeproj", "-scheme", "S"]);

    st.project_flag = "-workspace".to_string();
    st.project_path = "/p/W.xcworkspace".to_string();
    let (first, fallback) = st.settings_args(&k, true);
    assert_eq!(
        first.unwrap(),
        vec!["-showBuildSettings", "-json", "-workspace", "/p/W.xcworkspace", "-scheme", "App"]
    );
    assert_eq!(fallback, vec!["-showBuildSettings", "-json", "-project", "/p/A.xcodeproj", "-target", "App"]);
    assert_eq!(st.scheme_list_args(), vec!["-list", "-json", "-workspace", "/p/W.xcworkspace"]);
}

#[test]
fn finish_target_computes_includes_and_swift_args() {
    let mut st = ServerState::empty();
    st.workspace_root = "/ws".to_string();
    let k = key("/ws/A/A.xcodeproj", "A");
    st.target_sources.push((k.clone(), vec!["/ws/A/a.m".to_string(), "/ws/A/b.swift".to_string()]));
    let settings = parse_build_settings_for_target(
        r#"[{"buildSettings":{"HEADER_SEARCH_PATHS":"/ws/A/inc","PRODUCT_MODULE_NAME":"A"}}]"#,
        None,
    )
    .unwrap();
    assert!(!st.settings_loaded(&k));
    st.record_settings(&k, Some(settings));
    assert!(st.settings_loaded(&k));
    assert!(!st.target_processed(&k));
    st.finish_target(
        &k,
        &vec![vec!["/ws/A/inc".to_string(), "/ws/A/src".to_string()]],
        Some("/cache".to_string()),
    );
    assert!(st.target_processed(&k));
    assert_eq!(st.target_includes(&k), vec!["/ws/A/src".to_string()]);
    let swift = st.target_swift_args(&k).unwrap();
    assert_eq!(swift.last().map(String::as_str), Some("/ws/A/b.swift"));
    assert!(swift.windows(2).any(|w| w[0] == "-Xcc" && w[1] == "-I/ws/A/src"));
    assert_eq!(st.swift_sources(&k), vec!["/ws/A/b.swift".to_string()]);

    // The clang answer for a C-family file of the target.
    let resp = st.source_kit_reply(&JsonValue::Number("7".to_string()), &k, "/ws/A/a.m", false);
    let text = json_to_string(&resp);
    assert!(text.contains("\"workingDirectory\":\"/ws\""));
    assert!(text.contains("\"-I\",\"/ws/A/inc\",\"-I\",\"/ws/A/src\""));
    assert_eq!(get(&resp, "id"), Some(&JsonValue::Number("7".to_string())));
}

#[test]
fn target_without_settings_gets_nothing() {
    let mut st = ServerState::empty();
    let k = key("/p/A.xcodeproj", "A");
    st.record_settings(&k, None);
    st.finish_target(&k, &vec![vec!["/p/inc".to_string()]], Some("/c".to_string()));
    assert!(st.target_processed(&k));
    assert!(st.target_includes(&k).is_empty());
    assert!(st.target_swift_args(&k).is_none());
    let resp = st.source_kit_reply(&JsonValue::Number("1".to_string()), &k, "/p/a.m", false);
    assert_eq!(get(&resp, "result"), Some(&JsonValue::Null));
}

#[test]
fn source_kit_file_classifies_extensions() {
    assert_eq!(source_kit_file(Some("file:///x/A.SWIFT")), Some(("/x/A.SWIFT".to_string(), true)));
    assert_eq!(source_kit_file(Some("file:///x/A.hpp")), Some(("/x/A.hpp".to_string(), false)));
    assert_eq!(source_kit_file(Some("file:///x/README.md")), None);
    assert_eq!(source_kit_file(None), None);
}

#[test]
fn index_store_fallback_names_and_largest() {
    let mut st = rvmac_state();
    st.project_path = "/ws/RVmac.xcworkspace".to_string();
    assert_eq!(
        st.index_store_names(),
        vec!["RVmac".to_string(), "RVmacRXViewerManager".to_string(), "RVmacRXViewerDisplay".to_string()]
    );
    let names = vec!["MyApp".to_string()];
    assert!(deriveddata_name_matches(&names, "MyApp-aaaa"));
    assert!(!deriveddata_name_matches(&names, "MyAppX-aaaa"));
    assert!(!deriveddata_name_matches(&names, "MyApp"));
    let c = vec![
        ("/dd/MyApp-aaaa/Index.noindex/DataStore".to_string(), 16u64),
        ("/dd/MyApp-bbbb/Index.noindex/DataStore".to_string(), 4096u64),
        ("/dd/MyApp-cccc/Index.noindex/DataStore".to_string(), 4096u64),
    ];
    assert_eq!(pick_largest(&c).as_deref(), Some("/dd/MyApp-bbbb/Index.noindex/DataStore"));
    assert_eq!(pick_largest(&vec![]), None);
}

#[test]
fn cache_dir_is_sanitized_root() {
    let mut st = ServerState::empty();
    st.root = "/Users/me/My Proj".to_string();
    assert_eq!(
        st.cache_subdir_path("/home", "Library/Caches/xcode-tools-bsp"),
        "/home/Library/Caches/xcode-tools-bsp/-Users-me-My-Proj"
    );
}

#[test]
fn init_from_root_prefers_configuration() {
    let st = ServerState::init_from_root(
        "/r",
        Some(("-project".to_string(), "/r/A.xcodeproj".to_string(), Some("S".to_string()))),
        Some(("-workspace".to_string(), "/r/W.xcworkspace".to_string())),
    );
    assert_eq!(st.project_path, "/r/A.xcodeproj");
    assert_eq!(st.scheme.as_deref(), Some("S"));
    let d = ServerState::init_from_root("/r", None, Some(("-workspace".to_string(), "/r/W.xcworkspace".to_string())));
    assert_eq!(d.project_flag, "-workspace");
    assert!(!d.initialized);
}

#[test]
fn source_kit_answer_routes_and_answers() {
    let mut st = ServerState::empty();
    st.workspace_root = "/ws".to_string();
    let k = key("/ws/A/A.xcodeproj", "A");
    st.ordered_targets.push(k.clone());
    st.file_to_targets.push(("/ws/A/a.m".to_string(), vec![k.clone()]));
    let settings = parse_build_settings_for_target(r#"[{"buildSettings":{"SDKROOT":"/sdk"}}]"#, None).unwrap();
    st.record_settings(&k, Some(settings));
    st.finish_target(&k, &vec![vec![]], None);
    let id = JsonValue::Number("4".to_string());
    let resp = st.source_kit_answer(&id, Some("file:///ws/A/a.m"));
    let text = json_to_string(&resp);
    assert!(text.contains("\"-isysroot\",\"/sdk\""));
    let result = get(&resp, "result").unwrap();
    assert_eq!(get(result, "workingDirectory"), Some(&JsonValue::Str("/ws".to_string())));
    match get(result, "compilerArguments") {
        Some(JsonValue::Array(a)) => assert_eq!(a.last(), Some(&JsonValue::Str("/ws/A/a.m".to_string()))),
        _ => panic!("expected compilerArguments"),
    }
    assert_eq!(get(&resp, "id"), Some(&id));
    // Unsupported extension, and a Swift file without Swift arguments: null.
    let none = st.source_kit_answer(&id, Some("file:///ws/A/notes.txt"));
    assert_eq!(get(&none, "result"), Some(&JsonValue::Null));
    let sw = st.source_kit_answer(&id, Some("file:///ws/A/b.swift"));
    assert_eq!(get(&sw, "result"), Some(&JsonValue::Null));
    assert!(get(&sw, "error").is_none());
    // No URI: null.
    let no_uri = st.source_kit_answer(&id, None);
    assert_eq!(get(&no_uri, "result"), Some(&JsonValue::Null));
}

#[test]
fn synth_output_chooses_swift_or_clang() {
    let mut st = ServerState::empty();
    let k = key("/p/A.xcodeproj", "A");
    assert_eq!(
        st.synth_output(&k, "/p/a.m"),
        Err("synth: settings unavailable for the routed target".to_string())
    );
    assert_eq!(
        st.synth_output(&k, "/p/b.SWIFT"),
        Err("synth: no Swift args (no .swift sources or settings unavailable)".to_string())
    );
    let settings = parse_build_settings_for_target(r#"[{"buildSettings":{}}]"#, None).unwrap();
    st.record_settings(&k, Some(settings));
    let out = st.synth_output(&k, "/p/a.mm").unwrap();
    assert_eq!(&out[..2], &["-x".to_string(), "objective-c++".to_string()]);
    assert_eq!(out.last().map(String::as_str), Some("/p/a.mm"));
}

#[test]
fn watch_candidates_list_xcconfigs_then_package_resolved() {
    let mut st = ServerState::empty();
    st.workspace_root = "/ws".to_string();
    st.project_dirs = vec!["/ws/A".to_string(), "/ws/B".to_string()];
    let entries = vec![
        vec!["/ws/A/Base.xcconfig".to_string(), "/ws/A/A.xcodeproj".to_string()],
        vec!["/ws/B/notes.txt".to_string(), "/ws/B/Debug.xcconfig".to_string()],
    ];
    assert_eq!(
        st.watch_candidates(&entries),
        vec![
            "/ws/A/Base.xcconfig",
            "/ws/B/Debug.xcconfig",
            "/ws/Package.resolved",
            "/ws/A/Package.resolved",
            "/ws/B/Package.resolved",
        ]
    );
}

#[test]
fn scheme_settings_kept_only_for_own_project() {
    let k = key("/ws/A/A.xcodeproj", "App");
    let own = parse_build_settings_for_target(r#"[{"buildSettings":{"PROJECT_DIR":"/ws/A"}}]"#, None).unwrap();
    let other = parse_build_settings_for_target(r#"[{"buildSettings":{"PROJECT_DIR":"/ws/B"}}]"#, None).unwrap();
    assert!(keep_scheme_settings(&k, Some(own)).is_some());
    assert!(keep_scheme_settings(&k, Some(other)).is_none());
    assert!(keep_scheme_settings(&k, None).is_none());
}

#[test]
fn primary_store_candidate_from_primary_settings() {
    let mut st = ServerState::empty();
    assert_eq!(st.primary_store_candidate(), None);
    let a = key("/ws/A/A.xcodeproj", "A");
    let b = key("/ws/B/B.xcodeproj", "B");
    st.ordered_targets = vec![b.clone(), a.clone()];
    let s = parse_build_settings_for_target(
        r#"[{"buildSettings":{"BUILD_DIR":"/dd/A-x/Build/Products"}}]"#,
        None,
    )
    .unwrap();
    st.record_settings(&a, Some(s));
    assert_eq!(st.primary_store_candidate(), Some("/dd/A-x/Index.noindex/DataStore".to_string()));
}

#[test]
fn begin_refresh_invalidates_only_when_stale() {
    let mut st = ServerState::empty();
    st.project_path = "/p/A.xcodeproj".to_string();
    st.enumerated = true;
    let stamp = Stamp { after_epoch: true, secs: 10, nanos: 0 };
    st.watched = vec![("/p/A.xcodeproj/project.pbxproj".to_string(), Some(stamp))];
    assert!(!st.begin_refresh(&vec![Some(stamp)]));
    assert!(st.enumerated);
    assert!(st.begin_refresh(&vec![None]));
    assert!(!st.enumerated);
    assert!(st.watched.is_empty());
    assert_eq!(st.project_path, "/p/A.xcodeproj");
}
