//! The closed set of request and notification methods the server routes.

use vstd::prelude::*;
use crate::strutil::str_eq;

verus! {

#[derive(Debug, PartialEq, Eq, Structural, Clone, Copy)]
pub enum RequestMethod {
    BuildInitialized,
    BuildTargetSources,
    BuildTargetDidChange,
    BuildTargetPrepare,
    BuildShutDown,
    BuildExit,
    WorkspaceBuildTargets,
    WorkspaceWaitForBuildSystemUpdates,
    WorkspaceDidChangeWatchedFiles,
    WindowShowMessage,
    TextDocumentSourceKitOptions,
    TextDocumentRegisterForChanges,
    Unknown,
}

/// The method a wire string routes to; anything unlisted is `Unknown`.
pub open spec fn method_of(s: Seq<char>) -> RequestMethod {
    if s == "build/initialized"@ {
        RequestMethod::BuildInitialized
    } else if s == "buildTarget/sources"@ {
        RequestMethod::BuildTargetSources
    } else if s == "buildTarget/didChange"@ {
        RequestMethod::BuildTargetDidChange
    } else if s == "buildTarget/prepare"@ {
        RequestMethod::BuildTargetPrepare
    } else if s == "build/shutdown"@ {
        RequestMethod::BuildShutDown
    } else if s == "build/exit"@ {
        RequestMethod::BuildExit
    } else if s == "workspace/buildTargets"@ {
        RequestMethod::WorkspaceBuildTargets
    } else if s == "workspace/waitForBuildSystemUpdates"@ {
        RequestMethod::WorkspaceWaitForBuildSystemUpdates
    } else if s == "workspace/didChangeWatchedFiles"@ {
        RequestMethod::WorkspaceDidChangeWatchedFiles
    } else if s == "window/showMessage"@ {
        RequestMethod::WindowShowMessage
    } else if s == "textDocument/sourceKitOptions"@ {
        RequestMethod::TextDocumentSourceKitOptions
    } else if s == "textDocument/registerForChanges"@ {
        RequestMethod::TextDocumentRegisterForChanges
    } else {
        RequestMethod::Unknown
    }
}

impl RequestMethod {
    /// Route a wire method name.
    pub fn from_str(s: &str) -> (r: Self)
        ensures
            r == method_of(s@),
    {
        if str_eq(s, "build/initialized") {
            RequestMethod::BuildInitialized
        } else if str_eq(s, "buildTarget/sources") {
            RequestMethod::BuildTargetSources
        } else if str_eq(s, "buildTarget/didChange") {
            RequestMethod::BuildTargetDidChange
        } else if str_eq(s, "buildTarget/prepare") {
            RequestMethod::BuildTargetPrepare
        } else if str_eq(s, "build/shutdown") {
            RequestMethod::BuildShutDown
        } else if str_eq(s, "build/exit") {
            RequestMethod::BuildExit
        } else if str_eq(s, "workspace/buildTargets") {
            RequestMethod::WorkspaceBuildTargets
        } else if str_eq(s, "workspace/waitForBuildSystemUpdates") {
            RequestMethod::WorkspaceWaitForBuildSystemUpdates
        } else if str_eq(s, "workspace/didChangeWatchedFiles") {
            RequestMethod::WorkspaceDidChangeWatchedFiles
        } else if str_eq(s, "window/showMessage") {
            RequestMethod::WindowShowMessage
        } else if str_eq(s, "textDocument/sourceKitOptions") {
            RequestMethod::TextDocumentSourceKitOptions
        } else if str_eq(s, "textDocument/registerForChanges") {
            RequestMethod::TextDocumentRegisterForChanges
        } else {
            RequestMethod::Unknown
        }
    }
}

} // verus!
