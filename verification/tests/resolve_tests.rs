use bazel_bsp::query::{Action, Artifact, DepSetOfFiles, PathFragment, QueryResult, RuleClass, Target};
use bazel_bsp::resolve::{bazel_to_uri, dedup_targets, resolve_targets, BazelTarget};

fn strs(items: &[&str]) -> Vec<String> {
    items.iter().map(|s| s.to_string()).collect()
}

fn two_action_graph() -> QueryResult {
    QueryResult {
        artifacts: vec![
            Artifact { id: 11, path_fragment_id: 1, is_tree_artifact: None },
            Artifact { id: 12, path_fragment_id: 4, is_tree_artifact: None },
        ],
        actions: vec![
            Action {
                target_id: 2,
                action_key: "a1".to_string(),
                mnemonic: "SwiftCompile".to_string(),
                configuration_id: 1,
                arguments: strs(&[
                    "swiftc",
                    "-sdk",
                    "__BAZEL_XCODE_SDKROOT__",
                    "Sources/Components/Button.swift",
                ]),
                environment_variables: vec![],
                input_dep_set_ids: vec![1],
            },
            Action {
                target_id: 1,
                action_key: "a2".to_string(),
                mnemonic: "SwiftCompile".to_string(),
                configuration_id: 1,
                arguments: strs(&["swiftc", "-g", "Sources/Utils/Util.swift"]),
                environment_variables: vec![],
                input_dep_set_ids: vec![2],
            },
        ],
        targets: vec![
            Target { id: 1, label: "//Sources/Utils".to_string(), rule_class_id: 1 },
            Target { id: 2, label: "//Sources/Components".to_string(), rule_class_id: 1 },
        ],
        rule_classes: vec![RuleClass { id: 1, name: "swift_library".to_string() }],
        dep_set_of_files: vec![
            DepSetOfFiles { id: 1, direct_artifact_ids: Some(vec![11]), transitive_dep_set_ids: None },
            DepSetOfFiles { id: 2, direct_artifact_ids: Some(vec![12]), transitive_dep_set_ids: None },
        ],
        path_fragments: vec![
            PathFragment { id: 1, label: "Button.swift".to_string(), parent_id: Some(2) },
            PathFragment { id: 2, label: "Components".to_string(), parent_id: Some(3) },
            PathFragment { id: 3, label: "Sources".to_string(), parent_id: None },
            PathFragment { id: 4, label: "Util.swift".to_string(), parent_id: Some(5) },
            PathFragment { id: 5, label: "Utils".to_string(), parent_id: Some(6) },
            PathFragment { id: 6, label: "Sources".to_string(), parent_id: None },
        ],
    }
}

#[test]
fn target_uri_is_a_file_url_of_root_label_and_id() {
    let uri = bazel_to_uri("/root", &"//Sources/Components".to_string(), &2).unwrap();
    assert_eq!(uri, "file:///root/Sources/Components/2");
}

#[test]
fn relative_root_cannot_form_a_target_uri() {
    let err = bazel_to_uri("relative/root", &"//Sources/Components".to_string(), &2);
    assert!(err.is_err());
}

#[test]
fn resolution_produces_one_target_per_action() {
    let got = resolve_targets(two_action_graph(), "/root", "/xr", "/SDK", &vec![], &vec![])
        .unwrap();
    assert_eq!(got.len(), 2);
    assert_eq!(got[0].id, 2);
    assert_eq!(got[0].uri, "file:///root/Sources/Components/2");
    assert_eq!(got[0].label, "//Sources/Components");
    assert_eq!(
        got[0].input_files,
        strs(&["file:///root/Sources/Components/Button.swift"])
    );
    assert_eq!(
        got[0].compiler_arguments,
        strs(&["-sdk", "/SDK", "Sources/Components/Button.swift"])
    );
    assert_eq!(got[1].id, 1);
    assert_eq!(got[1].uri, "file:///root/Sources/Utils/1");
    assert_eq!(got[1].input_files, strs(&["file:///root/Sources/Utils/Util.swift"]));
}

#[test]
fn resolving_the_same_document_twice_yields_equal_target_sets() {
    let a = resolve_targets(two_action_graph(), "/root", "/xr", "/SDK", &vec![], &vec![])
        .unwrap();
    let b = resolve_targets(two_action_graph(), "/root", "/xr", "/SDK", &vec![], &vec![])
        .unwrap();
    let keys_a: Vec<(String, u32)> = a.iter().map(|t| (t.uri.clone(), t.id)).collect();
    let keys_b: Vec<(String, u32)> = b.iter().map(|t| (t.uri.clone(), t.id)).collect();
    assert_eq!(keys_a, keys_b);
}

#[test]
fn two_actions_sharing_a_key_collapse_to_one_target() {
    let mut graph = two_action_graph();
    // a second compile action of the same target: same (uri, id) key
    graph.artifacts.push(Artifact { id: 13, path_fragment_id: 4, is_tree_artifact: None });
    graph.dep_set_of_files.push(DepSetOfFiles {
        id: 3,
        direct_artifact_ids: Some(vec![13]),
        transitive_dep_set_ids: None,
    });
    graph.actions.push(Action {
        target_id: 2,
        action_key: "a3".to_string(),
        mnemonic: "SwiftCompile".to_string(),
        configuration_id: 1,
        arguments: strs(&["-module-name", "Components"]),
        environment_variables: vec![],
        input_dep_set_ids: vec![3],
    });
    let got = resolve_targets(graph, "/root", "/xr", "/SDK", &vec![], &vec![]).unwrap();
    assert_eq!(got.len(), 2);
    let comp = got.iter().find(|t| t.id == 2).unwrap();
    // union of input files across the two actions, later arguments win
    assert_eq!(
        comp.input_files,
        strs(&[
            "file:///root/Sources/Components/Button.swift",
            "file:///root/Sources/Utils/Util.swift",
        ])
    );
    assert_eq!(comp.compiler_arguments, strs(&["-module-name", "Components"]));
}

#[test]
fn non_swift_inputs_are_filtered_out() {
    let mut graph = two_action_graph();
    graph.path_fragments.push(PathFragment {
        id: 7,
        label: "config.json".to_string(),
        parent_id: Some(3),
    });
    graph.artifacts.push(Artifact { id: 14, path_fragment_id: 7, is_tree_artifact: None });
    graph.dep_set_of_files[0].direct_artifact_ids = Some(vec![11, 14]);
    let got = resolve_targets(graph, "/root", "/xr", "/SDK", &vec![], &vec![]).unwrap();
    assert_eq!(
        got[0].input_files,
        strs(&["file:///root/Sources/Components/Button.swift"])
    );
}

#[test]
fn extra_search_paths_are_appended_after_rewriting() {
    let got = resolve_targets(
        two_action_graph(),
        "/root",
        "/xr",
        "/SDK",
        &strs(&["/mods"]),
        &strs(&["/fw"]),
    )
    .unwrap();
    assert_eq!(
        got[0].compiler_arguments,
        strs(&["-sdk", "/SDK", "Sources/Components/Button.swift", "-I/mods", "-F/fw"])
    );
}

#[test]
fn missing_target_entry_fails_the_resolution() {
    let mut graph = two_action_graph();
    graph.targets.clear();
    let err = resolve_targets(graph, "/root", "/xr", "/SDK", &vec![], &vec![]);
    assert!(err.is_err());
}

#[test]
fn deduplication_is_idempotent_on_values() {
    let t1 = BazelTarget {
        id: 2,
        uri: "file:///root/Sources/Components/2".to_string(),
        label: "//Sources/Components".to_string(),
        input_files: strs(&["file:///root/a.swift"]),
        compiler_arguments: strs(&["-g"]),
    };
    let t2 = BazelTarget {
        id: 2,
        uri: "file:///root/Sources/Components/2".to_string(),
        label: "//Sources/Components".to_string(),
        input_files: strs(&["file:///root/a.swift", "file:///root/b.swift"]),
        compiler_arguments: strs(&["-O"]),
    };
    let once = dedup_targets(vec![t1, t2]);
    assert_eq!(once.len(), 1);
    assert_eq!(
        once[0].input_files,
        strs(&["file:///root/a.swift", "file:///root/b.swift"])
    );
    assert_eq!(once[0].compiler_arguments, strs(&["-O"]));
    let again = dedup_targets(once.clone());
    assert_eq!(again.len(), once.len());
    assert_eq!(again[0].input_files, once[0].input_files);
    assert_eq!(again[0].compiler_arguments, once[0].compiler_arguments);
}
#[test]
fn target_equality_goes_by_uri_and_id_alone() {
    let a = BazelTarget {
        id: 2,
        uri: "file:///root/Sources/Components/2".to_string(),
        label: "//Sources/Components".to_string(),
        input_files: strs(&["file:///root/a.swift"]),
        compiler_arguments: strs(&["-g"]),
    };
    let b = BazelTarget {
        id: 2,
        uri: "file:///root/Sources/Components/2".to_string(),
        label: "renamed".to_string(),
        input_files: vec![],
        compiler_arguments: strs(&["-O"]),
    };
    assert!(a == b);
    let c = BazelTarget { id: 3, ..b };
    assert!(a != c);
}
