use xcode_tools::build_settings::{parse_build_settings_for_target, BuildSettings};
use xcode_tools::synth::{
    is_excluded_dir_name, is_header_path, scoped_include_dirs, swift_version_flag,
    synthesize_clang_args, synthesize_swift_args, target_triple,
};

fn fixture_settings() -> BuildSettings {
    // HEADER_SEARCH_PATHS has a double space + a duplicate (real anomalies).
    let json = r#"[
        { "action": "build", "target": "App", "buildSettings": {
            "SDKROOT": "/SDKs/MacOSX.sdk",
            "MACOSX_DEPLOYMENT_TARGET": "11.0",
            "HEADER_SEARCH_PATHS": "/a/inc  /a/inc /b/inc",
            "FRAMEWORK_SEARCH_PATHS": "/F ",
            "GCC_PREPROCESSOR_DEFINITIONS": "DEBUG=1 ",
            "CLANG_ENABLE_MODULES": "YES",
            "CLANG_ENABLE_OBJC_ARC": "YES",
            "GCC_C_LANGUAGE_STANDARD": "gnu17",
            "CLANG_CXX_LANGUAGE_STANDARD": "gnu++20"
        } }
    ]"#;
    parse_build_settings_for_target(json, None).unwrap()
}

fn flag_value<'a>(args: &'a [String], flag: &str) -> Option<&'a str> {
    args.iter().position(|a| a == flag).map(|i| args[i + 1].as_str())
}

#[test]
fn objc_file_gets_expected_core_flags() {
    let bs = fixture_settings();
    let args = synthesize_clang_args(&bs, "/proj/App/A.m", &vec![]);

    assert_eq!(flag_value(&args, "-x"), Some("objective-c"));
    assert!(args.contains(&"-std=gnu17".to_string()));
    assert!(args.contains(&"-fobjc-arc".to_string()));
    assert!(args.contains(&"-fmodules".to_string()));
    assert_eq!(flag_value(&args, "-isysroot"), Some("/SDKs/MacOSX.sdk"));
    assert_eq!(flag_value(&args, "-target"), Some("aarch64-apple-macos11.0"));
    assert!(args.contains(&"-DDEBUG=1".to_string()));
    // File path is last.
    assert_eq!(args.last().map(String::as_str), Some("/proj/App/A.m"));
}

#[test]
fn header_search_paths_are_deduped() {
    let bs = fixture_settings();
    let args = synthesize_clang_args(&bs, "/proj/A.m", &vec![]);
    let dup_count = args
        .windows(2)
        .filter(|w| w[0] == "-I" && w[1] == "/a/inc")
        .count();
    assert_eq!(dup_count, 1, "duplicated HSP entry must collapse to one -I");
}

#[test]
fn cpp_file_uses_cxx_language_and_standard() {
    let bs = fixture_settings();
    let args = synthesize_clang_args(&bs, "/proj/A.mm", &vec![]);
    assert_eq!(flag_value(&args, "-x"), Some("objective-c++"));
    assert!(args.contains(&"-std=gnu++20".to_string()));
    assert_eq!(args.last().map(String::as_str), Some("/proj/A.mm"));
}

#[test]
fn clang_args_exact_order() {
    let bs = fixture_settings();
    let args = synthesize_clang_args(&bs, "/p/X.C", &vec!["/aug".to_string()]);
    let expected: Vec<String> = [
        "-x", "objective-c", "-std=gnu17", "-target", "aarch64-apple-macos11.0", "-fobjc-arc",
        "-isysroot", "/SDKs/MacOSX.sdk", "-I", "/a/inc", "-I", "/b/inc", "-I", "/aug", "-F", "/F",
        "-DDEBUG=1", "-fmodules", "/p/X.C",
    ]
    .iter()
    .map(|s| s.to_string())
    .collect();
    assert_eq!(args, expected);
}

#[test]
fn clang_args_defaults_without_settings() {
    let bs = parse_build_settings_for_target(r#"[{"buildSettings":{"SDKROOT":""}}]"#, None).unwrap();
    let args = synthesize_clang_args(&bs, "/p/a.CPP", &vec![]);
    let expected: Vec<String> = [
        "-x", "objective-c++", "-std=gnu++20", "-target", "aarch64-apple-macos11.0", "/p/a.CPP",
    ]
    .iter()
    .map(|s| s.to_string())
    .collect();
    assert_eq!(args, expected);
}

#[test]
fn scoped_include_dirs_union_sorted_without_existing() {
    let found = vec![
        vec!["/p/b".to_string(), "/p/a".to_string()],
        vec!["/c".to_string(), "/p/a".to_string()],
    ];
    let existing = vec!["/p/b".to_string()];
    assert_eq!(
        scoped_include_dirs(&found, &existing),
        vec!["/c".to_string(), "/p/a".to_string()]
    );
    assert_eq!(scoped_include_dirs(&vec![], &vec![]), Vec::<String>::new());
}

#[test]
fn header_scan_predicates() {
    assert!(is_excluded_dir_name(".git"));
    assert!(is_excluded_dir_name("DerivedData"));
    assert!(is_excluded_dir_name("App.xcodeproj"));
    assert!(is_excluded_dir_name("Build"));
    assert!(!is_excluded_dir_name("src"));
    assert!(is_header_path("/x/a.h"));
    assert!(is_header_path("/x/a.hpp"));
    assert!(is_header_path("/x/a.hh"));
    assert!(!is_header_path("/x/a.H"));
    assert!(!is_header_path("/x/a.m"));
}

#[test]
fn swift_version_flag_strip_rule() {
    assert_eq!(swift_version_flag("5.0"), Some("5".to_string()));
    assert_eq!(swift_version_flag("4.2"), Some("4.2".to_string()));
    assert_eq!(swift_version_flag("5"), Some("5".to_string()));
    assert_eq!(swift_version_flag("6"), Some("6".to_string()));
    assert_eq!(swift_version_flag(""), None);
    assert_eq!(swift_version_flag("  "), None);
}

fn settings_from(json: &str) -> BuildSettings {
    parse_build_settings_for_target(json, None).unwrap()
}

#[test]
fn target_triple_macos_and_ios() {
    let macos = settings_from(
        r#"[{"buildSettings":{"PLATFORM_NAME":"macosx","MACOSX_DEPLOYMENT_TARGET":"10.15","NATIVE_ARCH":"arm64"}}]"#,
    );
    assert_eq!(target_triple(&macos), "arm64-apple-macos10.15");

    let ios = settings_from(
        r#"[{"buildSettings":{"PLATFORM_NAME":"iphoneos","IPHONEOS_DEPLOYMENT_TARGET":"17.0","NATIVE_ARCH":"arm64"}}]"#,
    );
    assert_eq!(target_triple(&ios), "arm64-apple-ios17.0");
}

#[test]
fn target_triple_simulators_and_defaults() {
    let sim = settings_from(
        r#"[{"buildSettings":{"PLATFORM_NAME":"watchsimulator","NATIVE_ARCH":""}}]"#,
    );
    assert_eq!(target_triple(&sim), "arm64-apple-watchos10.0-simulator");
    let none = settings_from(r#"[{"buildSettings":{}}]"#);
    assert_eq!(target_triple(&none), "arm64-apple-macos11.0");
}

fn swift_fixture_settings() -> BuildSettings {
    settings_from(
        r#"[{ "buildSettings": {
            "PRODUCT_MODULE_NAME": "MyApp",
            "SDKROOT": "/SDKs/MacOSX.sdk",
            "PLATFORM_NAME": "macosx",
            "MACOSX_DEPLOYMENT_TARGET": "12.0",
            "NATIVE_ARCH": "arm64",
            "SWIFT_VERSION": "5.0",
            "SWIFT_OBJC_BRIDGING_HEADER": "MyApp/Bridge.h",
            "HEADER_SEARCH_PATHS": "/hsp/one"
        } }]"#,
    )
}

#[test]
fn swift_args_have_whole_module_recipe() {
    let bs = swift_fixture_settings();
    let files = vec!["/proj/App/A.swift".to_string(), "/proj/App/B.swift".to_string()];
    let xcc = vec!["/aug/dir".to_string()];
    let args = synthesize_swift_args(&bs, &files, "/proj", &xcc, "/tmp/modcache-xyz");

    let pos = |flag: &str| args.iter().position(|a| a == flag);
    let val = |flag: &str| pos(flag).map(|i| args[i + 1].as_str());

    assert_eq!(val("-module-name"), Some("MyApp"));
    assert_eq!(val("-sdk"), Some("/SDKs/MacOSX.sdk"));
    assert_eq!(val("-target"), Some("arm64-apple-macos12.0"));
    assert_eq!(val("-swift-version"), Some("5"));
    assert_eq!(val("-module-cache-path"), Some("/tmp/modcache-xyz"));
    assert_eq!(val("-import-objc-header"), Some("/proj/MyApp/Bridge.h"));

    assert!(args.windows(2).any(|w| w[0] == "-Xcc" && w[1] == "-I/hsp/one"));
    assert!(args.windows(2).any(|w| w[0] == "-Xcc" && w[1] == "-I/aug/dir"));

    assert!(args.contains(&"/proj/App/A.swift".to_string()));
    assert!(args.contains(&"/proj/App/B.swift".to_string()));
    assert_eq!(args.last().map(String::as_str), Some("/proj/App/B.swift"));
}

#[test]
fn swift_args_omit_bridging_when_absent() {
    let bs = settings_from(
        r#"[{"buildSettings":{"PRODUCT_MODULE_NAME":"M","SDKROOT":"/S","SWIFT_VERSION":"5.0"}}]"#,
    );
    let args = synthesize_swift_args(&bs, &vec!["/p/A.swift".to_string()], "/p", &vec![], "/tmp/mc");
    assert!(!args.iter().any(|a| a == "-import-objc-header"));
}

#[test]
fn swift_args_absolute_bridging_header_kept() {
    let bs = settings_from(
        r#"[{"buildSettings":{"SWIFT_OBJC_BRIDGING_HEADER":"/abs/B.h","SWIFT_ACTIVE_COMPILATION_CONDITIONS":"DEBUG X","OTHER_SWIFT_FLAGS":"-Onone"}}]"#,
    );
    let args = synthesize_swift_args(&bs, &vec![], "/p", &vec![], "/mc");
    let expected: Vec<String> = [
        "-target", "arm64-apple-macos11.0", "-module-cache-path", "/mc", "-import-objc-header",
        "/abs/B.h", "-DDEBUG", "-DX", "-Onone",
    ]
    .iter()
    .map(|s| s.to_string())
    .collect();
    assert_eq!(args, expected);
}
