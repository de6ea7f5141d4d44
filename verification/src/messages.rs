//! The message payloads of the protocol, held as plain values.

use vstd::prelude::*;
use vstd::string::StringExecFns;
use crate::resolve::BazelTarget;

verus! {

#[derive(Debug)]
pub struct BuildTargetIdentifier {
    pub uri: String,
}

#[derive(Debug)]
pub struct BuildTargetCapabilities {
    pub can_compile: Option<bool>,
    pub can_test: Option<bool>,
    pub can_run: Option<bool>,
    pub can_debug: Option<bool>,
}

#[derive(Debug)]
pub struct SourceKitBuildTarget {
    pub toolchain: String,
}

#[derive(Debug)]
pub struct BuildTarget {
    pub id: BuildTargetIdentifier,
    pub display_name: Option<String>,
    pub base_directory: Option<String>,
    pub tags: Vec<String>,
    pub language_ids: Vec<String>,
    pub dependencies: Vec<BuildTargetIdentifier>,
    pub capabilities: BuildTargetCapabilities,
    pub data_kind: Option<String>,
    pub data: Option<SourceKitBuildTarget>,
}

/// The language identifiers this server answers for.
pub open spec fn served_language_ids() -> Seq<Seq<char>> {
    seq!["c"@, "cpp"@, "objective-c"@, "objective-cpp"@, "swift"@]
}

fn language_id_vec() -> (r: Vec<String>)
    ensures
        r@.map_values(|s: String| s@) == served_language_ids(),
{
    let mut v: Vec<String> = Vec::new();
    v.push(String::from_str("c"));
    v.push(String::from_str("cpp"));
    v.push(String::from_str("objective-c"));
    v.push(String::from_str("objective-cpp"));
    v.push(String::from_str("swift"));
    proof {
        assert(v@.map_values(|s: String| s@) =~= served_language_ids());
    }
    v
}

impl BuildTarget {
    /// The wire shape of one resolved target, as the target list reply
    /// carries it.
    pub fn from_bazel(value: &BazelTarget) -> (r: BuildTarget)
        ensures
            r.id.uri@ == value.uri@,
            r.display_name matches Some(n) && n@ == value.label@,
            r.base_directory is None,
            r.tags@.len() == 0,
            r.language_ids@.map_values(|s: String| s@) == served_language_ids(),
            r.dependencies@.len() == 0,
            r.capabilities.can_compile == Some(true),
            r.capabilities.can_test == Some(true),
            r.capabilities.can_run == Some(false),
            r.capabilities.can_debug == Some(false),
            r.data_kind is None,
            r.data is None,
    {
        BuildTarget {
            id: BuildTargetIdentifier { uri: value.uri.clone() },
            display_name: Some(value.label.clone()),
            base_directory: None,
            tags: Vec::new(),
            language_ids: language_id_vec(),
            dependencies: Vec::new(),
            capabilities: BuildTargetCapabilities {
                can_compile: Some(true),
                can_test: Some(true),
                can_run: Some(false),
                can_debug: Some(false),
            },
            data_kind: None,
            data: None,
        }
    }
}

#[derive(Debug)]
pub struct BuildClientCapabilities {
    pub language_ids: Vec<String>,
}

#[derive(Debug)]
pub struct InitializeBuildRequest {
    pub display_name: String,
    pub version: String,
    pub bsp_version: String,
    pub root_uri: String,
    pub capabilities: BuildClientCapabilities,
    pub data_kind: Option<String>,
}

#[derive(Debug)]
pub struct CompileProvider {
    pub language_ids: Vec<String>,
}

#[derive(Debug)]
pub struct TestProvider {
    pub language_ids: Vec<String>,
}

#[derive(Debug)]
pub struct RunProvider {
    pub language_ids: Vec<String>,
}

#[derive(Debug)]
pub struct DebugProvider {
    pub language_ids: Vec<String>,
}

#[derive(Debug)]
pub struct BuildServerCapabilities {
    pub compile_provider: Option<CompileProvider>,
    pub test_provider: Option<TestProvider>,
    pub run_provider: Option<RunProvider>,
    pub debug_provider: Option<DebugProvider>,
    pub inverse_sources_provider: Option<bool>,
    pub dependency_sources_provider: Option<bool>,
    pub resources_provider: Option<bool>,
    pub output_paths_provider: Option<bool>,
    pub build_target_changed_provider: Option<bool>,
    pub can_reload: Option<bool>,
}

#[derive(Debug)]
pub struct SourceKitInitializeBuildResponseData {
    pub index_database_path: Option<String>,
    pub index_store_path: Option<String>,
    pub output_paths_provider: Option<bool>,
    pub prepare_provider: Option<bool>,
    pub source_kit_options_provider: Option<bool>,
}

#[derive(Debug)]
pub struct InitializeBuildResponse {
    pub display_name: String,
    pub version: String,
    pub bsp_version: String,
    pub capabilities: BuildServerCapabilities,
    pub data_kind: Option<String>,
    pub data: Option<SourceKitInitializeBuildResponseData>,
}

impl InitializeBuildResponse {
    pub fn new(
        display_name: &str,
        version: &str,
        bsp_version: &str,
        capabilities: BuildServerCapabilities,
        data_kind: &str,
        data: SourceKitInitializeBuildResponseData,
    ) -> (r: Self)
        ensures
            r.display_name@ == display_name@,
            r.version@ == version@,
            r.bsp_version@ == bsp_version@,
            r.capabilities == capabilities,
            r.data_kind matches Some(k) && k@ == data_kind@,
            r.data == Some(data),
    {
        InitializeBuildResponse {
            display_name: display_name.to_owned(),
            version: version.to_owned(),
            bsp_version: bsp_version.to_owned(),
            capabilities,
            data_kind: Some(data_kind.to_owned()),
            data: Some(data),
        }
    }
}

/// The one-shot initialize reply: fixed server identity and capabilities,
/// and the index paths taken from the configuration.
pub fn initialize_response(index_database_path: String, index_store_path: String) -> (r:
    InitializeBuildResponse)
    ensures
        r.display_name@ == "bazel-build-server"@,
        r.version@ == "1.0.0"@,
        r.bsp_version@ == "2.0"@,
        r.capabilities.compile_provider matches Some(cp) && cp.language_ids@.map_values(
            |s: String| s@,
        ) == served_language_ids(),
        r.capabilities.test_provider is None,
        r.capabilities.run_provider is None,
        r.capabilities.debug_provider is None,
        r.capabilities.inverse_sources_provider == Some(false),
        r.capabilities.dependency_sources_provider == Some(false),
        r.capabilities.resources_provider == Some(false),
        r.capabilities.output_paths_provider == Some(false),
        r.capabilities.build_target_changed_provider == Some(true),
        r.capabilities.can_reload == Some(false),
        r.data_kind matches Some(k) && k@ == "sourceKit"@,
        r.data matches Some(d) && {
            &&& d.index_database_path matches Some(p) && p@ == index_database_path@
            &&& d.index_store_path matches Some(p) && p@ == index_store_path@
            &&& d.output_paths_provider == Some(false)
            &&& d.prepare_provider == Some(true)
            &&& d.source_kit_options_provider == Some(true)
        },
{
    InitializeBuildResponse::new(
        "bazel-build-server",
        "1.0.0",
        "2.0",
        BuildServerCapabilities {
            compile_provider: Some(CompileProvider { language_ids: language_id_vec() }),
            test_provider: None,
            run_provider: None,
            debug_provider: None,
            inverse_sources_provider: Some(false),
            dependency_sources_provider: Some(false),
            resources_provider: Some(false),
            output_paths_provider: Some(false),
            build_target_changed_provider: Some(true),
            can_reload: Some(false),
        },
        "sourceKit",
        SourceKitInitializeBuildResponseData {
            index_database_path: Some(index_database_path),
            index_store_path: Some(index_store_path),
            output_paths_provider: Some(false),
            prepare_provider: Some(true),
            source_kit_options_provider: Some(true),
        },
    )
}

#[derive(Debug)]
pub struct BuildTargetSourcesRequest {
    pub targets: Vec<BuildTargetIdentifier>,
}

#[derive(Debug)]
pub struct SourceKitSourceItemData {
    pub language: Option<String>,
    pub kind: Option<String>,
    pub output_path: Option<String>,
}

#[derive(Debug)]
pub struct SourceItem {
    pub uri: String,
    pub kind: u8,
    pub generated: bool,
    pub data_kind: String,
    pub data: SourceKitSourceItemData,
}

/// The constant shape of every source item this server reports: a plain,
/// non-generated source file.
pub open spec fn source_item_shape(s: SourceItem) -> bool {
    &&& s.kind == 1
    &&& s.generated == false
    &&& s.data_kind@ == "sourceKit"@
    &&& s.data.language is None
    &&& s.data.kind matches Some(k) && k@ == "source"@
    &&& s.data.output_path is None
}

impl SourceItem {
    /// One reported source file.
    pub fn from_url(url: &String) -> (r: Self)
        ensures
            r.uri@ == url@,
            source_item_shape(r),
    {
        SourceItem {
            uri: url.clone(),
            kind: 1,
            generated: false,
            data_kind: String::from_str("sourceKit"),
            data: SourceKitSourceItemData {
                language: None,
                kind: Some(String::from_str("source")),
                output_path: None,
            },
        }
    }
}

#[derive(Debug)]
pub struct SourcesItem {
    pub target: BuildTargetIdentifier,
    pub sources: Vec<SourceItem>,
    pub roots: Option<Vec<String>>,
}

#[derive(Debug)]
pub struct BuildTargetSourcesResponse {
    pub items: Vec<SourcesItem>,
}

#[derive(Debug)]
pub struct TextDocumentIdentifier {
    pub uri: String,
}

#[derive(Debug)]
pub struct TextDocumentSourceKitOptionsRequest {
    pub text_document: TextDocumentIdentifier,
    pub target: BuildTargetIdentifier,
    pub language: String,
}

#[derive(Debug)]
pub struct TextDocumentSourceKitOptionsResponse {
    pub compiler_arguments: Vec<String>,
    pub working_directory: Option<String>,
    pub data: Option<String>,
}

#[derive(Debug)]
pub struct RegisterForChanges {
    pub uri: String,
    pub action: String,
}

#[derive(Debug, PartialEq, Eq, Structural, Clone, Copy)]
pub enum RegisterAction {
    Register,
    Unregister,
}

#[derive(Debug)]
pub struct Options {
    pub options: Vec<String>,
    pub working_directory: Option<String>,
}

#[derive(Debug)]
pub struct FileOptionsChangedNotification {
    pub updated_options: Options,
    pub uri: String,
}

impl FileOptionsChangedNotification {
    /// The method name the legacy push notification is sent under.
    pub fn method() -> (r: &'static str)
        ensures
            r@ == "build/sourceKitOptionsChanged"@,
    {
        "build/sourceKitOptionsChanged"
    }
}

} // verus!
