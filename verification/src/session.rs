//! The per-connection state: configuration, project root, and the most
//! recently resolved target list, with the request handlers that read it.

use vstd::prelude::*;
use vstd::string::StringExecFns;
use crate::config::BuildServerConfig;
use crate::error::BSPError;
use crate::messages::BuildTarget;
use crate::messages::BuildTargetIdentifier;
use crate::messages::BuildTargetSourcesRequest;
use crate::messages::BuildTargetSourcesResponse;
use crate::messages::FileOptionsChangedNotification;
use crate::messages::Options;
use crate::messages::SourceItem;
use crate::messages::SourcesItem;
use crate::messages::TextDocumentSourceKitOptionsRequest;
use crate::messages::TextDocumentSourceKitOptionsResponse;
use crate::messages::served_language_ids;
use crate::messages::source_item_shape;
use crate::resolve::BazelTarget;
use crate::resolve::TargetView;
use crate::strutil::append_strings;
use crate::resolve::contains_string;
use crate::strutil::str_eq;

verus! {

/// The stored targets, seen mathematically.
pub open spec fn target_views(ts: Seq<BazelTarget>) -> Seq<TargetView> {
    ts.map_values(|t: BazelTarget| t@)
}

/// The first stored target carrying `uri`, from position `j` on.
pub open spec fn find_uri_idx(ts: Seq<TargetView>, uri: Seq<char>, j: int) -> Option<int>
    decreases ts.len() - j,
    when 0 <= j <= ts.len()
{
    if j >= ts.len() {
        None
    } else if ts[j].uri == uri {
        Some(j)
    } else {
        find_uri_idx(ts, uri, j + 1)
    }
}

fn find_by_uri(targets: &Vec<BazelTarget>, uri: &str) -> (r: Option<usize>)
    ensures
        ({
            let tv = target_views(targets@);
            match r {
                Some(j) => j < targets@.len() && find_uri_idx(tv, uri@, 0) == Some(j as int),
                None => find_uri_idx(tv, uri@, 0) is None,
            }
        }),
{
    let ghost tv = target_views(targets@);
    let mut j: usize = 0;
    while j < targets.len()
        invariant
            j <= tv.len(),
            tv == target_views(targets@),
            tv.len() == targets@.len(),
            find_uri_idx(tv, uri@, 0) == find_uri_idx(tv, uri@, j as int),
        decreases tv.len() - j,
    {
        proof {
            assert(tv[j as int] == targets@[j as int]@);
        }
        if str_eq(targets[j].uri.as_str(), uri) {
            return Some(j);
        }
        j = j + 1;
    }
    None
}

/// The compiler options owed to a file: the concatenated argument lists of
/// every stored target whose input files hold that exact location.
pub open spec fn options_for_file(ts: Seq<TargetView>, uri: Seq<char>) -> Seq<Seq<char>>
    decreases ts.len(),
{
    if ts.len() == 0 {
        Seq::<Seq<char>>::empty()
    } else {
        options_for_file(ts.drop_last(), uri) + (if ts.last().input_files.contains(uri) {
            ts.last().compiler_arguments
        } else {
            Seq::<Seq<char>>::empty()
        })
    }
}

/// The connection's state: built once at initialize, its target list
/// replaced whole by each resolution cycle.
#[derive(Debug)]
pub struct Session {
    pub config: BuildServerConfig,
    pub root_path: String,
    pub targets: Vec<BazelTarget>,
}

impl Session {
    /// A fresh session with no resolved targets yet.
    pub fn initialize(config: BuildServerConfig, root_path: String) -> (s: Session)
        ensures
            s.config == config,
            s.root_path == root_path,
            s.targets@.len() == 0,
    {
        Session { config, root_path, targets: Vec::new() }
    }

    pub fn root_path_string(&self) -> (r: String)
        ensures
            r@ == self.root_path@,
    {
        self.root_path.clone()
    }

    pub fn has_targets(&self) -> (r: bool)
        ensures
            r == (self.targets@.len() != 0),
    {
        self.targets.len() > 0
    }

    /// A resolution cycle replaces the stored list whole; nothing merges.
    pub fn set_targets(&mut self, targets: Vec<BazelTarget>)
        ensures
            final(self).targets == targets,
            final(self).config == old(self).config,
            final(self).root_path == old(self).root_path,
    {
        self.targets = targets;
    }

    /// The target list reply: one wire target per stored target, in order.
    pub fn build_targets_response(&self) -> (r: Vec<BuildTarget>)
        ensures
            r@.len() == self.targets@.len(),
            forall|k: int|
                0 <= k < r@.len() ==> {
                    let t = target_views(self.targets@)[k];
                    &&& (#[trigger] r@[k]).id.uri@ == t.uri
                    &&& r@[k].display_name matches Some(n) && n@ == t.label
                    &&& r@[k].base_directory is None
                    &&& r@[k].tags@.len() == 0
                    &&& r@[k].language_ids@.map_values(|s: String| s@) == served_language_ids()
                    &&& r@[k].dependencies@.len() == 0
                    &&& r@[k].capabilities.can_compile == Some(true)
                    &&& r@[k].capabilities.can_test == Some(true)
                    &&& r@[k].capabilities.can_run == Some(false)
                    &&& r@[k].capabilities.can_debug == Some(false)
                    &&& r@[k].data_kind is None
                    &&& r@[k].data is None
                },
    {
        let mut out: Vec<BuildTarget> = Vec::new();
        let mut i: usize = 0;
        while i < self.targets.len()
            invariant
                i <= self.targets@.len(),
                out@.len() == i,
                forall|k: int|
                    0 <= k < i ==> {
                        let t = target_views(self.targets@)[k];
                        &&& (#[trigger] out@[k]).id.uri@ == t.uri
                        &&& out@[k].display_name matches Some(n) && n@ == t.label
                        &&& out@[k].base_directory is None
                        &&& out@[k].tags@.len() == 0
                        &&& out@[k].language_ids@.map_values(|s: String| s@)
                            == served_language_ids()
                        &&& out@[k].dependencies@.len() == 0
                        &&& out@[k].capabilities.can_compile == Some(true)
                        &&& out@[k].capabilities.can_test == Some(true)
                        &&& out@[k].capabilities.can_run == Some(false)
                        &&& out@[k].capabilities.can_debug == Some(false)
                        &&& out@[k].data_kind is None
                        &&& out@[k].data is None
                    },
            decreases self.targets@.len() - i,
        {
            proof {
                assert(target_views(self.targets@)[i as int] == self.targets@[i as int]@);
            }
            let bt = BuildTarget::from_bazel(&self.targets[i]);
            out.push(bt);
            i = i + 1;
        }
        out
    }

    /// The sources of each requested target. A requested identifier absent
    /// from the last resolution fails the whole request with a
    /// target-not-found error; the session itself is unaffected.
    pub fn build_target_sources(&self, request: &BuildTargetSourcesRequest) -> (r: Result<
        BuildTargetSourcesResponse,
        BSPError,
    >)
        ensures
            ({
                let tv = target_views(self.targets@);
                match r {
                    Ok(resp) => {
                        &&& resp.items@.len() == request.targets@.len()
                        &&& forall|k: int|
                            0 <= k < request.targets@.len() ==> {
                                let fi = find_uri_idx(tv, request.targets@[k].uri@, 0);
                                &&& fi is Some
                                &&& (#[trigger] resp.items@[k]).target.uri@
                                    == request.targets@[k].uri@
                                &&& resp.items@[k].sources@.map_values(|s: SourceItem| s.uri@)
                                    == tv[fi->Some_0].input_files
                                &&& forall|m: int|
                                    0 <= m < resp.items@[k].sources@.len()
                                        ==> source_item_shape(
                                        #[trigger] resp.items@[k].sources@[m],
                                    )
                                &&& resp.items@[k].roots is None
                            }
                    },
                    Err(e) => {
                        &&& exists|k: int|
                            0 <= k < request.targets@.len() && find_uri_idx(
                                tv,
                                (#[trigger] request.targets@[k]).uri@,
                                0,
                            ) is None
                        &&& e is TargetNotFound
                    },
                }
            }),
    {
        let ghost tv = target_views(self.targets@);
        let mut items: Vec<SourcesItem> = Vec::new();
        let mut k: usize = 0;
        while k < request.targets.len()
            invariant
                k <= request.targets@.len(),
                tv == target_views(self.targets@),
                items@.len() == k,
                forall|q: int|
                    0 <= q < k ==> {
                        let fi = find_uri_idx(tv, request.targets@[q].uri@, 0);
                        &&& fi is Some
                        &&& (#[trigger] items@[q]).target.uri@ == request.targets@[q].uri@
                        &&& items@[q].sources@.map_values(|s: SourceItem| s.uri@)
                            == tv[fi->Some_0].input_files
                        &&& forall|m: int|
                            0 <= m < items@[q].sources@.len() ==> source_item_shape(
                                #[trigger] items@[q].sources@[m],
                            )
                        &&& items@[q].roots is None
                    },
            decreases request.targets@.len() - k,
        {
            let wanted = &request.targets[k];
            match find_by_uri(&self.targets, wanted.uri.as_str()) {
                None => {
                    let mut reason = String::from_str("no resolved target with uri ");
                    reason.append(wanted.uri.as_str());
                    return Err(BSPError::TargetNotFound(reason));
                },
                Some(ti) => {
                    let found = &self.targets[ti];
                    proof {
                        assert(tv[ti as int] == self.targets@[ti as int]@);
                    }
                    let mut sources: Vec<SourceItem> = Vec::new();
                    let mut m: usize = 0;
                    proof {
                        assert(sources@.map_values(|s: SourceItem| s.uri@)
                            =~= found@.input_files.take(0));
                    }
                    while m < found.input_files.len()
                        invariant
                            m <= found.input_files@.len(),
                            found@.input_files.len() == found.input_files@.len(),
                            sources@.map_values(|s: SourceItem| s.uri@) == found@.input_files.take(
                                m as int,
                            ),
                            forall|q: int|
                                0 <= q < sources@.len() ==> source_item_shape(
                                    #[trigger] sources@[q],
                                ),
                        decreases found.input_files@.len() - m,
                    {
                        let ghost prev = sources@;
                        let si = SourceItem::from_url(&found.input_files[m]);
                        sources.push(si);
                        proof {
                            assert(found@.input_files[m as int] == found.input_files@[m as int]@);
                            assert(found@.input_files.take(m + 1) =~= found@.input_files.take(
                                m as int,
                            ) + seq![found@.input_files[m as int]]);
                            assert(sources@.map_values(|s: SourceItem| s.uri@) =~= prev.map_values(
                                |s: SourceItem| s.uri@,
                            ) + seq![found@.input_files[m as int]]);
                        }
                        m = m + 1;
                    }
                    proof {
                        assert(found@.input_files.take(found@.input_files.len() as int)
                            =~= found@.input_files);
                    }
                    let item = SourcesItem {
                        target: BuildTargetIdentifier { uri: wanted.uri.clone() },
                        sources,
                        roots: None,
                    };
                    items.push(item);
                },
            }
            k = k + 1;
        }
        Ok(BuildTargetSourcesResponse { items })
    }

    /// The compiler arguments and working directory for one target. An
    /// identifier absent from the last resolution fails only this lookup.
    pub fn sourcekit_options(&self, request: &TextDocumentSourceKitOptionsRequest) -> (r: Result<
        TextDocumentSourceKitOptionsResponse,
        BSPError,
    >)
        ensures
            ({
                let tv = target_views(self.targets@);
                let fi = find_uri_idx(tv, request.target.uri@, 0);
                match r {
                    Ok(resp) => {
                        &&& fi is Some
                        &&& resp.compiler_arguments@.map_values(|s: String| s@)
                            == tv[fi->Some_0].compiler_arguments
                        &&& resp.working_directory matches Some(w) && w@ == self.root_path@
                        &&& resp.data is None
                    },
                    Err(e) => fi is None && e is TargetNotFound,
                }
            }),
    {
        match find_by_uri(&self.targets, request.target.uri.as_str()) {
            None => {
                let mut reason = String::from_str("no resolved target with uri ");
                reason.append(request.target.uri.as_str());
                Err(BSPError::TargetNotFound(reason))
            },
            Some(ti) => {
                let found = &self.targets[ti];
                proof {
                    assert(target_views(self.targets@)[ti as int] == self.targets@[ti as int]@);
                }
                let mut args: Vec<String> = Vec::new();
                append_strings(&mut args, &found.compiler_arguments);
                proof {
                    assert(args@.map_values(|s: String| s@) =~= found@.compiler_arguments);
                }
                Ok(
                    TextDocumentSourceKitOptionsResponse {
                        compiler_arguments: args,
                        working_directory: Some(self.root_path.clone()),
                        data: None,
                    },
                )
            },
        }
    }

    /// The options owed to one watched file: the argument lists of every
    /// stored target holding that exact file, concatenated in order. A file
    /// nothing matches gets an empty list, never an error.
    pub fn register_options(&self, uri: &str) -> (opts: Vec<String>)
        ensures
            opts@.map_values(|s: String| s@) == options_for_file(
                target_views(self.targets@),
                uri@,
            ),
    {
        let ghost tv = target_views(self.targets@);
        let mut opts: Vec<String> = Vec::new();
        let mut i: usize = 0;
        proof {
            assert(tv.take(0) =~= Seq::<TargetView>::empty());
            assert(opts@.map_values(|s: String| s@) =~= options_for_file(tv.take(0), uri@));
        }
        while i < self.targets.len()
            invariant
                i <= tv.len(),
                tv == target_views(self.targets@),
                tv.len() == self.targets@.len(),
                opts@.map_values(|s: String| s@) == options_for_file(tv.take(i as int), uri@),
            decreases tv.len() - i,
        {
            let ghost prev = opts@;
            let t = &self.targets[i];
            proof {
                assert(tv[i as int] == self.targets@[i as int]@);
                assert(tv.take(i + 1).drop_last() =~= tv.take(i as int));
                assert(tv.take(i + 1).last() == tv[i as int]);
            }
            if contains_string(&t.input_files, uri) {
                append_strings(&mut opts, &t.compiler_arguments);
                proof {
                    assert(opts@.map_values(|s: String| s@) =~= prev.map_values(|s: String| s@)
                        + tv[i as int].compiler_arguments);
                }
            } else {
                proof {
                    assert(prev.map_values(|s: String| s@) + Seq::<Seq<char>>::empty()
                        =~= prev.map_values(|s: String| s@));
                }
            }
            i = i + 1;
        }
        proof {
            assert(tv.take(tv.len() as int) =~= tv);
        }
        opts
    }

    /// The legacy push notification for one watched file.
    pub fn register_changes_notification(&self, uri: String) -> (n: FileOptionsChangedNotification)
        ensures
            n.uri@ == uri@,
            n.updated_options.options@.map_values(|s: String| s@) == options_for_file(
                target_views(self.targets@),
                uri@,
            ),
            n.updated_options.working_directory matches Some(w) && w@ == self.root_path@,
    {
        let options = self.register_options(uri.as_str());
        FileOptionsChangedNotification {
            uri,
            updated_options: Options {
                options,
                working_directory: Some(self.root_path_string()),
            },
        }
    }
}

} // verus!
