use xcode_tools::pbxproj::parse_targets;

const FIXTURE: &str = r#"{
  "rootObject": "PROJ",
  "objects": {
    "PROJ": { "isa": "PBXProject", "mainGroup": "MG", "targets": ["TGT"] },
    "TGT": { "isa": "PBXNativeTarget", "name": "App", "buildPhases": ["SRC"] },
    "SRC": { "isa": "PBXSourcesBuildPhase", "files": ["BF1", "BF2"] },
    "BF1": { "isa": "PBXBuildFile", "fileRef": "FR1" },
    "BF2": { "isa": "PBXBuildFile", "fileRef": "FR2" },
    "FR1": { "isa": "PBXFileReference", "path": "main.m", "sourceTree": "<group>" },
    "FR2": { "isa": "PBXFileReference", "path": "util.m", "sourceTree": "<group>" },
    "MG": { "isa": "PBXGroup", "sourceTree": "<group>", "children": ["GROOT"] },
    "GROOT": { "isa": "PBXGroup", "path": "App", "sourceTree": "<group>", "children": ["GSUB", "FR2"] },
    "GSUB": { "isa": "PBXGroup", "path": "sub", "sourceTree": "<group>", "children": ["FR1"] }
  }
}"#;

fn sources_of(json: &str, target: &str, srcroot: &str) -> Vec<String> {
    let targets = parse_targets(json, srcroot).unwrap();
    let mut got = targets
        .into_iter()
        .find(|(name, _)| name == target)
        .map(|(_, s)| s)
        .unwrap_or_default();
    got.sort();
    got
}

#[test]
fn resolves_nested_group_paths_via_parent_chain() {
    let got = sources_of(FIXTURE, "App", "/proj");
    assert_eq!(
        got,
        vec!["/proj/App/sub/main.m".to_string(), "/proj/App/util.m".to_string()]
    );
}

#[test]
fn parse_targets_returns_target_with_all_sources() {
    let targets = parse_targets(FIXTURE, "/proj").unwrap();
    assert_eq!(targets.len(), 1);
    assert_eq!(targets[0].0, "App");
    assert_eq!(targets[0].1.len(), 2);
}

#[test]
fn cyclic_group_graph_terminates() {
    // GA and GB are each other's parent (broken pbxproj). Must return, not hang.
    const CYCLE: &str = r#"{
      "objects": {
        "TGT": { "isa": "PBXNativeTarget", "name": "App", "buildPhases": ["SRC"] },
        "SRC": { "isa": "PBXSourcesBuildPhase", "files": ["BF"] },
        "BF": { "isa": "PBXBuildFile", "fileRef": "FR" },
        "FR": { "isa": "PBXFileReference", "path": "a.m", "sourceTree": "<group>" },
        "GA": { "isa": "PBXGroup", "path": "A", "sourceTree": "<group>", "children": ["FR", "GB"] },
        "GB": { "isa": "PBXGroup", "path": "B", "sourceTree": "<group>", "children": ["GA"] }
      }
    }"#;
    let got = sources_of(CYCLE, "App", "/proj");
    assert_eq!(got.len(), 1);
}

#[test]
fn source_trees_decide_resolution() {
    let json = r#"{
      "objects": {
        "T": { "isa": "PBXNativeTarget", "name": "T", "buildPhases": ["S", "R"] },
        "R": { "isa": "PBXResourcesBuildPhase", "files": ["B9"] },
        "S": { "isa": "PBXSourcesBuildPhase", "files": ["B1", "B2", "B3", "B4", "B5"] },
        "B1": { "fileRef": "F1" }, "B2": { "fileRef": "F2" }, "B3": { "fileRef": "F3" },
        "B4": { "fileRef": "F4" }, "B5": { "fileRef": "F5" }, "B9": { "fileRef": "F1" },
        "F1": { "path": "/abs/x.m", "sourceTree": "<absolute>" },
        "F2": { "path": "src/../y.m", "sourceTree": "SOURCE_ROOT" },
        "F3": { "path": "z.m", "sourceTree": "SDKROOT" },
        "F4": { "path": "w.m" },
        "F5": { "path": "v.m", "sourceTree": "<group>" },
        "G": { "isa": "PBXGroup", "path": "Lib", "sourceTree": "DEVELOPER_DIR", "children": ["F5"] }
      }
    }"#;
    let t = parse_targets(json, "/root").unwrap();
    assert_eq!(t.len(), 1);
    assert_eq!(
        t[0].1,
        vec!["/abs/x.m".to_string(), "/root/y.m".to_string(), "/root/w.m".to_string()]
    );
}

#[test]
fn parse_targets_errors() {
    assert!(parse_targets("{", "/p").err().unwrap().starts_with("parse pbxproj json: "));
    assert_eq!(parse_targets("{}", "/p").err().unwrap(), "pbxproj: missing 'objects'");
}
