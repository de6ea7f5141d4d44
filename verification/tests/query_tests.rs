use std::collections::HashMap;

use bazel_bsp::error::BSPError;
use bazel_bsp::query::{
    build_artifact_ids, build_file_path, build_input_files, Action, Artifact, DepSetOfFiles,
    PathFragment,
};

#[test]
fn test_build_artifact_ids() {
    let one = DepSetOfFiles {
        id: 1,
        direct_artifact_ids: Some(vec![11]),
        transitive_dep_set_ids: Some(vec![2, 3]),
    };
    let two = DepSetOfFiles {
        id: 2,
        direct_artifact_ids: Some(vec![12]),
        transitive_dep_set_ids: None,
    };
    let three = DepSetOfFiles {
        id: 3,
        direct_artifact_ids: Some(vec![13]),
        transitive_dep_set_ids: None,
    };
    let mut files = HashMap::new();
    files.insert(1, one);
    files.insert(2, two);
    files.insert(3, three);
    let file = files.get(&1).unwrap();
    let artifact_ids = build_artifact_ids(&file, &files).unwrap();
    let expected_ids = vec![11, 12, 13];
    assert_eq!(artifact_ids, expected_ids);
}

#[test]
fn test_build_file_path() {
    let leaf = PathFragment {
        id: 1,
        label: "Button.swift".to_string(),
        parent_id: Some(2),
    };
    let parent = PathFragment {
        id: 2,
        label: "Components".to_string(),
        parent_id: Some(3),
    };
    let root = PathFragment {
        id: 3,
        label: "Sources".to_string(),
        parent_id: None,
    };
    let mut fragments = HashMap::new();
    fragments.insert(1, leaf.clone());
    fragments.insert(2, parent.clone());
    fragments.insert(3, root.clone());

    let out = build_file_path(&fragments, &leaf.clone()).unwrap();
    let expected = "Sources/Components/Button.swift".to_string();
    assert_eq!(out, expected);
}

#[test]
fn flatten_collapses_to_the_same_set_regardless_of_order() {
    // the flattened ids, seen as a set, do not depend on listing order
    let mut files = HashMap::new();
    files.insert(
        1,
        DepSetOfFiles {
            id: 1,
            direct_artifact_ids: Some(vec![11]),
            transitive_dep_set_ids: Some(vec![3, 2]),
        },
    );
    files.insert(
        2,
        DepSetOfFiles {
            id: 2,
            direct_artifact_ids: Some(vec![12]),
            transitive_dep_set_ids: None,
        },
    );
    files.insert(
        3,
        DepSetOfFiles {
            id: 3,
            direct_artifact_ids: Some(vec![13]),
            transitive_dep_set_ids: None,
        },
    );
    let got = build_artifact_ids(files.get(&1).unwrap(), &files).unwrap();
    let mut sorted = got.clone();
    sorted.sort();
    assert_eq!(got, vec![11, 13, 12]);
    assert_eq!(sorted, vec![11, 12, 13]);
}

#[test]
fn missing_transitive_dep_set_is_a_resolution_error() {
    let mut files = HashMap::new();
    files.insert(
        1,
        DepSetOfFiles {
            id: 1,
            direct_artifact_ids: Some(vec![11]),
            transitive_dep_set_ids: Some(vec![9]),
        },
    );
    let err = build_artifact_ids(files.get(&1).unwrap(), &files).unwrap_err();
    assert!(matches!(err, BSPError::Resolution(_)));
}

#[test]
fn cyclic_path_fragments_are_a_resolution_error() {
    let mut fragments = HashMap::new();
    fragments.insert(
        1,
        PathFragment {
            id: 1,
            label: "a".to_string(),
            parent_id: Some(2),
        },
    );
    fragments.insert(
        2,
        PathFragment {
            id: 2,
            label: "b".to_string(),
            parent_id: Some(1),
        },
    );
    let leaf = PathFragment {
        id: 1,
        label: "a".to_string(),
        parent_id: Some(2),
    };
    let err = build_file_path(&fragments, &leaf).unwrap_err();
    assert!(matches!(err, BSPError::Resolution(_)));
}

#[test]
fn dangling_parent_id_is_a_resolution_error() {
    let fragments = HashMap::new();
    let leaf = PathFragment {
        id: 1,
        label: "a.swift".to_string(),
        parent_id: Some(7),
    };
    let err = build_file_path(&fragments, &leaf).unwrap_err();
    assert!(matches!(err, BSPError::Resolution(_)));
}

#[test]
fn input_files_of_one_action() {
    let mut artifacts = HashMap::new();
    artifacts.insert(
        11,
        Artifact {
            id: 11,
            path_fragment_id: 1,
            is_tree_artifact: None,
        },
    );
    let mut files = HashMap::new();
    files.insert(
        5,
        DepSetOfFiles {
            id: 5,
            direct_artifact_ids: Some(vec![11]),
            transitive_dep_set_ids: None,
        },
    );
    let mut fragments = HashMap::new();
    fragments.insert(
        1,
        PathFragment {
            id: 1,
            label: "Main.swift".to_string(),
            parent_id: Some(2),
        },
    );
    fragments.insert(
        2,
        PathFragment {
            id: 2,
            label: "Sources".to_string(),
            parent_id: None,
        },
    );
    let action = Action {
        target_id: 1,
        action_key: "k".to_string(),
        mnemonic: "SwiftCompile".to_string(),
        configuration_id: 1,
        arguments: vec![],
        environment_variables: vec![],
        input_dep_set_ids: vec![5],
    };
    let got = build_input_files(&artifacts, &files, &fragments, &action).unwrap();
    assert_eq!(got, vec!["Sources/Main.swift".to_string()]);
}
