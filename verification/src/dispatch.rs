//! The protocol state machine: which state the server is in, and what one
//! routed message obliges the surrounding process to do.
//!
//! The lifecycle runs `Uninitialized` to `Initialized` through the one-shot
//! initialize handshake, to `ShuttingDown` on a shutdown request, and to
//! `Exited` on the exit notification. An unrecognized method is a fatal
//! protocol error, never an ignorable extension.

use vstd::prelude::*;
use vstd::string::StringExecFns;
use crate::methods::RequestMethod;
use crate::strutil::append_strings;

verus! {

#[derive(Debug, PartialEq, Eq, Structural, Clone, Copy)]
pub enum ServerState {
    Uninitialized,
    Initialized,
    ShuttingDown,
    Exited,
}

/// What the process around the library must do with one routed message.
#[derive(Debug, PartialEq, Eq, Structural, Clone, Copy)]
pub enum Directive {
    /// A notification consumed in place; nothing is sent back.
    NoReply,
    /// Query the build tool, resolve the graph, reply with the target list.
    RunBuildTargets,
    /// Answer from the stored targets: per-target source files.
    HandleSources,
    /// Answer from the stored targets: compiler options for one target.
    HandleSourceKitOptions,
    /// Legacy push: resolve if nothing is stored yet, then notify.
    HandleRegisterForChanges,
    /// Run the build tool's build action, then acknowledge regardless.
    RunPrepare,
    /// Acknowledge with an empty result; the server holds no update state.
    AckNull,
    /// Acknowledge the shutdown request.
    AckShutdown,
    /// Leave the read loop.
    Exit,
    /// An unrecognized method: log it and terminate.
    FatalUnknown,
}

/// The transition table: the next state and the obligation for one method
/// arriving in one state.
pub open spec fn dispatch_spec(state: ServerState, m: RequestMethod) -> (ServerState, Directive) {
    match state {
        ServerState::Uninitialized => (ServerState::Uninitialized, Directive::FatalUnknown),
        ServerState::Exited => (ServerState::Exited, Directive::NoReply),
        _ => match m {
            RequestMethod::BuildInitialized => (state, Directive::NoReply),
            RequestMethod::WorkspaceBuildTargets => (state, Directive::RunBuildTargets),
            RequestMethod::BuildTargetSources => (state, Directive::HandleSources),
            RequestMethod::TextDocumentSourceKitOptions => (
                state,
                Directive::HandleSourceKitOptions,
            ),
            RequestMethod::TextDocumentRegisterForChanges => (
                state,
                Directive::HandleRegisterForChanges,
            ),
            RequestMethod::WorkspaceWaitForBuildSystemUpdates => (state, Directive::AckNull),
            RequestMethod::WorkspaceDidChangeWatchedFiles => (state, Directive::NoReply),
            RequestMethod::BuildTargetDidChange => (state, Directive::NoReply),
            RequestMethod::WindowShowMessage => (state, Directive::NoReply),
            RequestMethod::BuildTargetPrepare => (state, Directive::RunPrepare),
            RequestMethod::BuildShutDown => (ServerState::ShuttingDown, Directive::AckShutdown),
            RequestMethod::BuildExit => (ServerState::Exited, Directive::Exit),
            RequestMethod::Unknown => (ServerState::Exited, Directive::FatalUnknown),
        },
    }
}

/// Route one message: the new state and what to do.
pub fn dispatch(state: ServerState, method: RequestMethod) -> (r: (ServerState, Directive))
    ensures
        r == dispatch_spec(state, method),
{
    match state {
        ServerState::Uninitialized => (ServerState::Uninitialized, Directive::FatalUnknown),
        ServerState::Exited => (ServerState::Exited, Directive::NoReply),
        _ => match method {
            RequestMethod::BuildInitialized => (state, Directive::NoReply),
            RequestMethod::WorkspaceBuildTargets => (state, Directive::RunBuildTargets),
            RequestMethod::BuildTargetSources => (state, Directive::HandleSources),
            RequestMethod::TextDocumentSourceKitOptions => (
                state,
                Directive::HandleSourceKitOptions,
            ),
            RequestMethod::TextDocumentRegisterForChanges => (
                state,
                Directive::HandleRegisterForChanges,
            ),
            RequestMethod::WorkspaceWaitForBuildSystemUpdates => (state, Directive::AckNull),
            RequestMethod::WorkspaceDidChangeWatchedFiles => (state, Directive::NoReply),
            RequestMethod::BuildTargetDidChange => (state, Directive::NoReply),
            RequestMethod::WindowShowMessage => (state, Directive::NoReply),
            RequestMethod::BuildTargetPrepare => (state, Directive::RunPrepare),
            RequestMethod::BuildShutDown => (ServerState::ShuttingDown, Directive::AckShutdown),
            RequestMethod::BuildExit => (ServerState::Exited, Directive::Exit),
            RequestMethod::Unknown => (ServerState::Exited, Directive::FatalUnknown),
        },
    }
}

/// The argument list of the action-graph query invocation.
pub fn aquery_command_args(target: &str, aquery_args: &Vec<String>) -> (r: Vec<String>)
    ensures
        r@.map_values(|s: String| s@) == seq![
            "aquery"@,
            "mnemonic(\"SwiftCompile\", deps("@ + target@ + "))"@,
            "--output=jsonproto"@,
        ] + aquery_args@.map_values(|s: String| s@),
{
    let mut v: Vec<String> = Vec::new();
    v.push(String::from_str("aquery"));
    let mut mnemonic = String::from_str("mnemonic(\"SwiftCompile\", deps(");
    mnemonic.append(target);
    mnemonic.append("))");
    v.push(mnemonic);
    v.push(String::from_str("--output=jsonproto"));
    proof {
        assert(v@.map_values(|s: String| s@) =~= seq![
            "aquery"@,
            "mnemonic(\"SwiftCompile\", deps("@ + target@ + "))"@,
            "--output=jsonproto"@,
        ]);
    }
    append_strings(&mut v, aquery_args);
    v
}

/// The argument list of the build invocation behind a prepare request.
pub fn build_command_args(target: &str, extra_args: &Vec<String>) -> (r: Vec<String>)
    ensures
        r@.map_values(|s: String| s@) == seq!["build"@, target@] + extra_args@.map_values(
            |s: String| s@,
        ),
{
    let mut v: Vec<String> = Vec::new();
    v.push(String::from_str("build"));
    v.push(target.to_owned());
    proof {
        assert(v@.map_values(|s: String| s@) =~= seq!["build"@, target@]);
    }
    append_strings(&mut v, extra_args);
    v
}

} // verus!
