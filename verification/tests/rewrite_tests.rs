use bazel_bsp::rewrite::rewrite_arguments;

fn strs(items: &[&str]) -> Vec<String> {
    items.iter().map(|s| s.to_string()).collect()
}

#[test]
fn rewriting_twice_is_byte_identical() {
    let args = strs(&[
        "swiftc",
        "-sdk",
        "__BAZEL_XCODE_SDKROOT__",
        "bazel-out/gen/a.swiftmodule",
        "Sources/A.swift",
    ]);
    let first = rewrite_arguments(&args, "/SDK", "/execroot");
    let second = rewrite_arguments(&args, "/SDK", "/execroot");
    assert_eq!(first, second);
}

#[test]
fn sdk_placeholder_is_replaced_once_per_occurrence() {
    let args = strs(&["__BAZEL_XCODE_SDKROOT__/usr/lib/__BAZEL_XCODE_SDKROOT__"]);
    let got = rewrite_arguments(&args, "/SDK", "/xr");
    assert_eq!(got, strs(&["/SDK/usr/lib//SDK"]));
}

#[test]
fn build_output_paths_gain_the_execution_root() {
    let args = strs(&["bazel-out/ios-sim/bin/module.swiftmodule"]);
    let got = rewrite_arguments(&args, "/SDK", "/xr");
    assert_eq!(got, strs(&["/xr/bazel-out/ios-sim/bin/module.swiftmodule"]));
}

#[test]
fn external_paths_gain_the_execution_root() {
    let args = strs(&["-Iexternal/some_dep/include"]);
    let got = rewrite_arguments(&args, "/SDK", "/xr");
    assert_eq!(got, strs(&["-I/xr/external/some_dep/include"]));
}

#[test]
fn frontend_support_file_pairs_are_dropped() {
    let args = strs(&[
        "-Xfrontend",
        "-const-gather-protocols-file",
        "-Xfrontend",
        "bazel-out/gen/const_protocols_to_gather.json",
        "keep-me",
    ]);
    let got = rewrite_arguments(&args, "/SDK", "/xr");
    assert_eq!(got, strs(&["keep-me"]));
}

#[test]
fn worker_and_wrapper_tokens_are_dropped() {
    let args = strs(&[
        "tools/worker/worker",
        "swiftc",
        "-Xwrapped-swift=-debug-prefix-pwd-is-dot",
        "-g",
    ]);
    let got = rewrite_arguments(&args, "/SDK", "/xr");
    assert_eq!(got, strs(&["-g"]));
}

#[test]
fn unclassified_tokens_pass_through_in_order() {
    let args = strs(&["-module-name", "Components", "-g", "Sources/A.swift"]);
    let got = rewrite_arguments(&args, "/SDK", "/xr");
    assert_eq!(got, args);
}

#[test]
fn frontend_flag_without_support_file_falls_through() {
    let args = strs(&["-Xfrontend", "-enable-batch-mode"]);
    let got = rewrite_arguments(&args, "/SDK", "/xr");
    assert_eq!(got, strs(&["-Xfrontend", "-enable-batch-mode"]));
}
