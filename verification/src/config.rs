//! The project configuration read once at initialize time.

use vstd::prelude::*;
use vstd::string::StrSliceExecFns;
use crate::resolve::join_path;
use crate::resolve::join_path_str;

verus! {

/// The on-disk configuration: which target to serve, where the SDK and
/// index stores live, and what to append to tool invocations.
#[derive(Debug)]
pub struct BuildServerConfig {
    pub name: String,
    pub argv: Vec<String>,
    pub version: String,
    pub bsp_version: String,
    pub languages: Vec<String>,
    pub target: String,
    pub sdk: String,
    pub index_store_path: String,
    pub index_database_path: String,
    pub execution_root: String,
    pub aquery_args: Vec<String>,
    pub extra_includes: Vec<String>,
    pub extra_frameworks: Vec<String>,
}

/// Where the configuration file lives under a project root.
pub fn config_path(root: &str) -> (r: String)
    ensures
        r@ == join_path(root@, "buildServer.json"@),
{
    join_path_str(root, "buildServer.json")
}

/// Whether the configured target is usable: resolution needs a non-empty
/// target to query for.
pub fn has_target(config: &BuildServerConfig) -> (r: bool)
    ensures
        r == (config.target@.len() != 0),
{
    config.target.as_str().unicode_len() > 0
}

} // verus!
