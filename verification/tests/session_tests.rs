use bazel_bsp::config::{config_path, has_target, BuildServerConfig};
use bazel_bsp::dispatch::{
    aquery_command_args, build_command_args, dispatch, Directive, ServerState,
};
use bazel_bsp::error::{is_request_local, BSPError, ConfigError};
use bazel_bsp::messages::{
    initialize_response, BuildTargetIdentifier, BuildTargetSourcesRequest,
    FileOptionsChangedNotification, TextDocumentIdentifier, TextDocumentSourceKitOptionsRequest,
};
use bazel_bsp::methods::RequestMethod;
use bazel_bsp::query::{Action, Artifact, DepSetOfFiles, PathFragment, QueryResult, RuleClass, Target};
use bazel_bsp::resolve::resolve_targets;
use bazel_bsp::session::Session;

fn strs(items: &[&str]) -> Vec<String> {
    items.iter().map(|s| s.to_string()).collect()
}

fn test_config() -> BuildServerConfig {
    BuildServerConfig {
        name: "bazel-build-server".to_string(),
        argv: vec![],
        version: "1.0.0".to_string(),
        bsp_version: "2.0".to_string(),
        languages: strs(&["swift"]),
        target: "//Sources/Components".to_string(),
        sdk: "/SDK".to_string(),
        index_store_path: "/root/.index/store".to_string(),
        index_database_path: "/root/.index/db".to_string(),
        execution_root: "/xr".to_string(),
        aquery_args: vec![],
        extra_includes: vec![],
        extra_frameworks: vec![],
    }
}

fn two_action_graph() -> QueryResult {
    QueryResult {
        artifacts: vec![
            Artifact { id: 11, path_fragment_id: 1, is_tree_artifact: None },
            Artifact { id: 12, path_fragment_id: 4, is_tree_artifact: None },
        ],
        actions: vec![
            Action {
                target_id: 2,
                action_key: "a1".to_string(),
                mnemonic: "SwiftCompile".to_string(),
                configuration_id: 1,
                arguments: strs(&[
                    "swiftc",
                    "-sdk",
                    "__BAZEL_XCODE_SDKROOT__",
                    "Sources/Components/Button.swift",
                ]),
                environment_variables: vec![],
                input_dep_set_ids: vec![1],
            },
            Action {
                target_id: 1,
                action_key: "a2".to_string(),
                mnemonic: "SwiftCompile".to_string(),
                configuration_id: 1,
                arguments: strs(&["swiftc", "-g", "Sources/Utils/Util.swift"]),
                environment_variables: vec![],
                input_dep_set_ids: vec![2],
            },
        ],
        targets: vec![
            Target { id: 1, label: "//Sources/Utils".to_string(), rule_class_id: 1 },
            Target { id: 2, label: "//Sources/Components".to_string(), rule_class_id: 1 },
        ],
        rule_classes: vec![RuleClass { id: 1, name: "swift_library".to_string() }],
        dep_set_of_files: vec![
            DepSetOfFiles { id: 1, direct_artifact_ids: Some(vec![11]), transitive_dep_set_ids: None },
            DepSetOfFiles { id: 2, direct_artifact_ids: Some(vec![12]), transitive_dep_set_ids: None },
        ],
        path_fragments: vec![
            PathFragment { id: 1, label: "Button.swift".to_string(), parent_id: Some(2) },
            PathFragment { id: 2, label: "Components".to_string(), parent_id: Some(3) },
            PathFragment { id: 3, label: "Sources".to_string(), parent_id: None },
            PathFragment { id: 4, label: "Util.swift".to_string(), parent_id: Some(5) },
            PathFragment { id: 5, label: "Utils".to_string(), parent_id: Some(6) },
            PathFragment { id: 6, label: "Sources".to_string(), parent_id: None },
        ],
    }
}

fn initialized_session_with_targets() -> Session {
    let mut session = Session::initialize(test_config(), "/root".to_string());
    let targets =
        resolve_targets(two_action_graph(), "/root", "/xr", "/SDK", &vec![], &vec![]).unwrap();
    session.set_targets(targets);
    session
}

#[test]
fn end_to_end_scenario() {
    // initialize, resolve a two-action graph, then serve the three queries
    let session = initialized_session_with_targets();

    // workspace/buildTargets: exactly the two resolved targets
    let wire = session.build_targets_response();
    assert_eq!(wire.len(), 2);
    assert_eq!(wire[0].id.uri, "file:///root/Sources/Components/2");
    assert_eq!(wire[0].display_name, Some("//Sources/Components".to_string()));
    assert_eq!(wire[1].id.uri, "file:///root/Sources/Utils/1");

    // buildTarget/sources for the Components target: exactly its one file
    let request = BuildTargetSourcesRequest {
        targets: vec![BuildTargetIdentifier {
            uri: "file:///root/Sources/Components/2".to_string(),
        }],
    };
    let resp = session.build_target_sources(&request).unwrap();
    assert_eq!(resp.items.len(), 1);
    assert_eq!(resp.items[0].sources.len(), 1);
    assert_eq!(
        resp.items[0].sources[0].uri,
        "file:///root/Sources/Components/Button.swift"
    );
    assert_eq!(resp.items[0].sources[0].kind, 1);
    assert!(!resp.items[0].sources[0].generated);

    // textDocument/sourceKitOptions: the rewritten arguments, SDK resolved
    let opts_request = TextDocumentSourceKitOptionsRequest {
        text_document: TextDocumentIdentifier {
            uri: "file:///root/Sources/Components/Button.swift".to_string(),
        },
        target: BuildTargetIdentifier {
            uri: "file:///root/Sources/Components/2".to_string(),
        },
        language: "swift".to_string(),
    };
    let opts = session.sourcekit_options(&opts_request).unwrap();
    assert_eq!(
        opts.compiler_arguments,
        strs(&["-sdk", "/SDK", "Sources/Components/Button.swift"])
    );
    assert_eq!(opts.working_directory, Some("/root".to_string()));
}

#[test]
fn unknown_target_uri_is_a_target_not_found_error() {
    let session = initialized_session_with_targets();
    let request = BuildTargetSourcesRequest {
        targets: vec![BuildTargetIdentifier {
            uri: "file:///root/Sources/Missing/9".to_string(),
        }],
    };
    let err = session.build_target_sources(&request).unwrap_err();
    assert!(matches!(err, BSPError::TargetNotFound(_)));
    // the session survives the failed lookup
    let ok = session.build_target_sources(&BuildTargetSourcesRequest {
        targets: vec![BuildTargetIdentifier {
            uri: "file:///root/Sources/Utils/1".to_string(),
        }],
    });
    assert!(ok.is_ok());
}

#[test]
fn unknown_options_target_is_a_target_not_found_error() {
    let session = initialized_session_with_targets();
    let request = TextDocumentSourceKitOptionsRequest {
        text_document: TextDocumentIdentifier { uri: "file:///root/x.swift".to_string() },
        target: BuildTargetIdentifier { uri: "file:///root/Sources/Missing/9".to_string() },
        language: "swift".to_string(),
    };
    let err = session.sourcekit_options(&request).unwrap_err();
    assert!(matches!(err, BSPError::TargetNotFound(_)));
}

#[test]
fn register_for_changes_matches_a_watched_file() {
    let session = initialized_session_with_targets();
    let n: FileOptionsChangedNotification = session.register_changes_notification(
        "file:///root/Sources/Components/Button.swift".to_string(),
    );
    assert_eq!(n.uri, "file:///root/Sources/Components/Button.swift");
    assert_eq!(
        n.updated_options.options,
        strs(&["-sdk", "/SDK", "Sources/Components/Button.swift"])
    );
    assert_eq!(n.updated_options.working_directory, Some("/root".to_string()));
    assert_eq!(FileOptionsChangedNotification::method(), "build/sourceKitOptionsChanged");
}

#[test]
fn register_for_changes_with_no_match_gives_empty_options() {
    let session = initialized_session_with_targets();
    let n = session.register_changes_notification("file:///root/Other.swift".to_string());
    assert_eq!(n.updated_options.options, Vec::<String>::new());
}

#[test]
fn lifecycle_transitions() {
    let (s, d) = dispatch(ServerState::Initialized, RequestMethod::WorkspaceBuildTargets);
    assert_eq!(s, ServerState::Initialized);
    assert_eq!(d, Directive::RunBuildTargets);

    let (s, d) = dispatch(ServerState::Initialized, RequestMethod::BuildShutDown);
    assert_eq!(s, ServerState::ShuttingDown);
    assert_eq!(d, Directive::AckShutdown);

    let (s, d) = dispatch(ServerState::ShuttingDown, RequestMethod::BuildExit);
    assert_eq!(s, ServerState::Exited);
    assert_eq!(d, Directive::Exit);

    let (s, d) = dispatch(ServerState::Initialized, RequestMethod::Unknown);
    assert_eq!(s, ServerState::Exited);
    assert_eq!(d, Directive::FatalUnknown);

    let (s, d) = dispatch(ServerState::Initialized, RequestMethod::WorkspaceWaitForBuildSystemUpdates);
    assert_eq!(s, ServerState::Initialized);
    assert_eq!(d, Directive::AckNull);

    let (_, d) = dispatch(ServerState::Initialized, RequestMethod::WorkspaceDidChangeWatchedFiles);
    assert_eq!(d, Directive::NoReply);
}

#[test]
fn method_names_route_to_their_variants() {
    assert_eq!(RequestMethod::from_str("build/initialized"), RequestMethod::BuildInitialized);
    assert_eq!(RequestMethod::from_str("buildTarget/sources"), RequestMethod::BuildTargetSources);
    assert_eq!(RequestMethod::from_str("buildTarget/didChange"), RequestMethod::BuildTargetDidChange);
    assert_eq!(RequestMethod::from_str("buildTarget/prepare"), RequestMethod::BuildTargetPrepare);
    assert_eq!(RequestMethod::from_str("build/shutdown"), RequestMethod::BuildShutDown);
    assert_eq!(RequestMethod::from_str("build/exit"), RequestMethod::BuildExit);
    assert_eq!(RequestMethod::from_str("workspace/buildTargets"), RequestMethod::WorkspaceBuildTargets);
    assert_eq!(
        RequestMethod::from_str("workspace/waitForBuildSystemUpdates"),
        RequestMethod::WorkspaceWaitForBuildSystemUpdates
    );
    assert_eq!(
        RequestMethod::from_str("workspace/didChangeWatchedFiles"),
        RequestMethod::WorkspaceDidChangeWatchedFiles
    );
    assert_eq!(RequestMethod::from_str("window/showMessage"), RequestMethod::WindowShowMessage);
    assert_eq!(
        RequestMethod::from_str("textDocument/sourceKitOptions"),
        RequestMethod::TextDocumentSourceKitOptions
    );
    assert_eq!(
        RequestMethod::from_str("textDocument/registerForChanges"),
        RequestMethod::TextDocumentRegisterForChanges
    );
    assert_eq!(RequestMethod::from_str("no/suchMethod"), RequestMethod::Unknown);
}

#[test]
fn initialize_reply_carries_identity_and_index_paths() {
    let r = initialize_response("/root/.index/db".to_string(), "/root/.index/store".to_string());
    assert_eq!(r.display_name, "bazel-build-server");
    assert_eq!(r.version, "1.0.0");
    assert_eq!(r.bsp_version, "2.0");
    let cp = r.capabilities.compile_provider.unwrap();
    assert_eq!(cp.language_ids, strs(&["c", "cpp", "objective-c", "objective-cpp", "swift"]));
    assert_eq!(r.capabilities.build_target_changed_provider, Some(true));
    assert_eq!(r.data_kind, Some("sourceKit".to_string()));
    let data = r.data.unwrap();
    assert_eq!(data.index_database_path, Some("/root/.index/db".to_string()));
    assert_eq!(data.index_store_path, Some("/root/.index/store".to_string()));
    assert_eq!(data.prepare_provider, Some(true));
}

#[test]
fn command_lines_for_the_build_tool() {
    let aq = aquery_command_args("//Sources/Components", &strs(&["--config=dev"]));
    assert_eq!(
        aq,
        strs(&[
            "aquery",
            "mnemonic(\"SwiftCompile\", deps(//Sources/Components))",
            "--output=jsonproto",
            "--config=dev",
        ])
    );
    let build = build_command_args("//Sources/Components", &strs(&["--config=dev"]));
    assert_eq!(build, strs(&["build", "//Sources/Components", "--config=dev"]));
}

#[test]
fn configuration_helpers() {
    assert_eq!(config_path("/root"), "/root/buildServer.json");
    let config = test_config();
    assert!(has_target(&config));
    let mut empty = test_config();
    empty.target = "".to_string();
    assert!(!has_target(&empty));
}

#[test]
fn error_messages_name_the_category() {
    let e = BSPError::TargetNotFound("no resolved target with uri x".to_string());
    assert_eq!(
        e.message(),
        "BSPError::TargetNotFound -> Reason: no resolved target with uri x"
    );
    let c = BSPError::Config(ConfigError::ConfigNotFound);
    assert_eq!(c.message(), "BSPError::Config -> Reason: ConfigError: Config not found.");
    assert_eq!(ConfigError::InvalidUri.message(), "ConfigError: Invalid Uri.");
    assert_eq!(
        BSPError::Framing("bad header".to_string()).message(),
        "BSPError::Framing -> Reason: bad header"
    );
    assert_eq!(
        BSPError::Protocol("unrecognized method".to_string()).message(),
        "BSPError::Protocol -> Reason: unrecognized method"
    );
    assert_eq!(
        BSPError::Subprocess("exit 1".to_string()).message(),
        "BSPError::Subprocess -> Reason: exit 1"
    );
    assert_eq!(
        BSPError::Resolution("target_id not found".to_string()).message(),
        "BSPError::Resolution -> Reason: target_id not found"
    );
}
#[test]
fn only_tool_and_lookup_failures_are_request_local() {
    assert!(is_request_local(&BSPError::Subprocess("exit 1".to_string())));
    assert!(is_request_local(&BSPError::Resolution("dangling id".to_string())));
    assert!(is_request_local(&BSPError::TargetNotFound("uri".to_string())));
    assert!(!is_request_local(&BSPError::Framing("bad header".to_string())));
    assert!(!is_request_local(&BSPError::Protocol("unknown method".to_string())));
    assert!(!is_request_local(&BSPError::Config(ConfigError::ConfigNotParsed)));
}
