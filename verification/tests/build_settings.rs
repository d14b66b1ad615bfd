use xcode_tools::build_settings::{
    derive_index_store_path, index_store_from_build_root, parse_build_settings_for_target,
    parse_scheme_list, split_multi,
};

#[test]
fn split_multi_handles_whitespace_anomalies_and_dedupe() {
    // Double space, trailing space, and a duplicated entry.
    assert_eq!(split_multi("/a/inc  /b/inc "), vec!["/a/inc", "/b/inc"]);
    assert_eq!(split_multi(" x y x z y "), vec!["x", "y", "z"]);
    assert_eq!(split_multi(""), Vec::<String>::new());
    assert_eq!(split_multi("   "), Vec::<String>::new());
}

#[test]
fn split_multi_splits_on_tabs_and_newlines() {
    assert_eq!(split_multi("a\tb\n\na\r\nc"), vec!["a", "b", "c"]);
}

#[test]
fn parse_build_settings_extracts_target_settings() {
    let json = r#"[
        { "action": "build", "target": "App", "buildSettings": {
            "SDKROOT": "/SDKs/MacOSX.sdk",
            "CLANG_ENABLE_OBJC_ARC": "YES",
            "CLANG_ENABLE_MODULES": "NO",
            "GCC_C_LANGUAGE_STANDARD": "gnu17"
        } }
    ]"#;
    let bs = parse_build_settings_for_target(json, None).unwrap();
    assert_eq!(bs.get("SDKROOT"), Some("/SDKs/MacOSX.sdk"));
    assert!(bs.bool_flag("CLANG_ENABLE_OBJC_ARC"));
    assert!(!bs.bool_flag("CLANG_ENABLE_MODULES"));
    assert_eq!(bs.get("GCC_C_LANGUAGE_STANDARD"), Some("gnu17"));
    assert_eq!(bs.get("MISSING"), None);
}

#[test]
fn parse_build_settings_picks_named_target_else_first() {
    let json = r#"[
        { "target": "A", "buildSettings": { "X": "a" } },
        { "target": "B", "buildSettings": { "X": "b" } }
    ]"#;
    let b = parse_build_settings_for_target(json, Some("B")).unwrap();
    assert_eq!(b.get("X"), Some("b"));
    let none = parse_build_settings_for_target(json, Some("Nope")).unwrap();
    assert_eq!(none.get("X"), Some("a"));
    let first = parse_build_settings_for_target(json, None).unwrap();
    assert_eq!(first.get("X"), Some("a"));
}

#[test]
fn parse_build_settings_errors() {
    let e = parse_build_settings_for_target("not json", None).err().unwrap();
    assert!(e.starts_with("parse -showBuildSettings JSON: "));
    assert_eq!(
        parse_build_settings_for_target("[]", None).err().unwrap(),
        "empty -showBuildSettings array"
    );
    assert_eq!(
        parse_build_settings_for_target("{}", None).err().unwrap(),
        "empty -showBuildSettings array"
    );
    assert_eq!(
        parse_build_settings_for_target(r#"[{"target":"T"}]"#, None).err().unwrap(),
        "missing buildSettings object"
    );
}

#[test]
fn bool_flag_is_exactly_yes() {
    let bs = parse_build_settings_for_target(
        r#"[{"buildSettings":{"A":"YES","B":"yes","C":"1","D":true}}]"#,
        None,
    )
    .unwrap();
    assert!(bs.bool_flag("A"));
    assert!(!bs.bool_flag("B"));
    assert!(!bs.bool_flag("C"));
    assert!(!bs.bool_flag("D"));
    assert_eq!(bs.get("D"), None);
}

#[test]
fn scheme_list_prefers_workspace_then_project() {
    let ws = r#"{"workspace":{"schemes":["A","B"]},"project":{"schemes":["P"]}}"#;
    assert_eq!(parse_scheme_list(ws), vec!["A", "B"]);
    let pr = r#"{"project":{"schemes":["P", 3, "Q"]}}"#;
    assert_eq!(parse_scheme_list(pr), vec!["P", "Q"]);
    assert_eq!(parse_scheme_list("{}"), Vec::<String>::new());
    assert_eq!(parse_scheme_list("garbage"), Vec::<String>::new());
}

#[test]
fn index_store_strips_build_root_to_derived_data() {
    let br = "/Users/me/Library/Developer/Xcode/DerivedData/Proj-abc123/Build/Products";
    assert_eq!(
        index_store_from_build_root(br),
        Some(
            "/Users/me/Library/Developer/Xcode/DerivedData/Proj-abc123/Index.noindex/DataStore"
                .to_string()
        )
    );
    // No "Build" ancestor → None.
    assert_eq!(index_store_from_build_root("/tmp/nope"), None);
}

#[test]
fn index_store_from_build_root_itself_named_build() {
    assert_eq!(
        index_store_from_build_root("/dd/P-x/Build/"),
        Some("/dd/P-x/Index.noindex/DataStore".to_string())
    );
    assert_eq!(
        index_store_from_build_root("Build"),
        Some("Index.noindex/DataStore".to_string())
    );
}

#[test]
fn derive_index_store_path_prefers_build_root() {
    let bs = parse_build_settings_for_target(
        r#"[{"buildSettings":{"SYMROOT":"/a/Build/Products","BUILD_ROOT":"/b/Build/Products"}}]"#,
        None,
    )
    .unwrap();
    assert_eq!(
        derive_index_store_path(&bs),
        Some("/b/Index.noindex/DataStore".to_string())
    );
    let sym = parse_build_settings_for_target(
        r#"[{"buildSettings":{"SYMROOT":"/a/Build/Products"}}]"#,
        None,
    )
    .unwrap();
    assert_eq!(
        derive_index_store_path(&sym),
        Some("/a/Index.noindex/DataStore".to_string())
    );
    let none = parse_build_settings_for_target(r#"[{"buildSettings":{}}]"#, None).unwrap();
    assert_eq!(derive_index_store_path(&none), None);
}
