//! The action-graph resolver: from a parsed query document to the
//! deduplicated list of resolved targets.
//!
//! Each action contributes one candidate target: its input files flattened
//! and reconstructed as `file:` URLs, its arguments rewritten, its owning
//! target looked up by id. Candidates sharing a `(uri, id)` key collapse to
//! one entry whose input files are the ordered union and whose compiler
//! arguments come from the last contributing action.

use vstd::prelude::*;
use vstd::pervasive::VecAdditionalExecFns;
use vstd::string::StrSliceExecFns;
use vstd::string::StringExecFns;
use std::collections::HashMap;
use crate::error::BSPError;
use crate::query::Action;
use crate::query::Artifact;
use crate::query::DepSetOfFiles;
use crate::query::PathFragment;
use crate::query::QueryResult;
use crate::query::Target;
use crate::query::action_input_paths;
use crate::query::artifact_table;
use crate::query::artifact_table_of;
use crate::query::build_input_files;
use crate::query::depset_table;
use crate::query::depset_table_of;
use crate::query::fragment_table;
use crate::query::fragment_table_of;
use crate::query::sets_ok;
use crate::rewrite::rewrite_args_spec;
use crate::rewrite::rewrite_arguments;
use crate::strutil::dec_chars;
use crate::strutil::ends_with_seq;
use crate::strutil::starts_with_seq;
use crate::strutil::str_ends_with;
use crate::strutil::str_eq;
use crate::strutil::u64_to_dec_str;

verus! {

/// A resolved build target: the unit handed back to the protocol client.
#[derive(Debug)]
pub struct BazelTarget {
    pub id: u32,
    pub uri: String,
    pub label: String,
    pub input_files: Vec<String>,
    pub compiler_arguments: Vec<String>,
}

/// The mathematical content of a resolved target.
pub struct TargetView {
    pub id: u32,
    pub uri: Seq<char>,
    pub label: Seq<char>,
    pub input_files: Seq<Seq<char>>,
    pub compiler_arguments: Seq<Seq<char>>,
}

impl View for BazelTarget {
    type V = TargetView;

    open spec fn view(&self) -> TargetView {
        TargetView {
            id: self.id,
            uri: self.uri@,
            label: self.label@,
            input_files: self.input_files@.map_values(|s: String| s@),
            compiler_arguments: self.compiler_arguments@.map_values(|s: String| s@),
        }
    }
}

/// Two resolved targets are the same logical target exactly when their
/// canonical identifier and numeric id agree.
pub open spec fn key_match(a: TargetView, b: TargetView) -> bool {
    a.uri == b.uri && a.id == b.id
}

impl PartialEq for BazelTarget {
    fn eq(&self, other: &Self) -> (r: bool) {
        self.id == other.id && str_eq(self.uri.as_str(), other.uri.as_str())
    }
}

impl vstd::std_specs::cmp::PartialEqSpecImpl for BazelTarget {
    open spec fn obeys_eq_spec() -> bool {
        true
    }

    open spec fn eq_spec(&self, other: &Self) -> bool {
        key_match(self@, other@)
    }
}

impl Clone for BazelTarget {
    fn clone(&self) -> (r: Self)
        ensures
            r@ == self@,
    {
        let r = BazelTarget {
            id: self.id,
            uri: self.uri.clone(),
            label: self.label.clone(),
            input_files: self.input_files.clone(),
            compiler_arguments: self.compiler_arguments.clone(),
        };
        proof {
            assert(r.input_files@ =~= self.input_files@);
            assert(r.compiler_arguments@ =~= self.compiler_arguments@);
            assert(r@.input_files =~= self@.input_files);
            assert(r@.compiler_arguments =~= self@.compiler_arguments);
        }
        r
    }
}

/// What `url::Url::from_file_path` renders an absolute path as.
pub uninterp spec fn file_url_of(path: Seq<char>) -> Seq<char>;

/// Relies on url::Url::from_file_path: a path is converted exactly when it
/// is absolute (here: begins with `/`), and the text of the resulting
/// `file:` URL depends on the path alone.
#[verifier::external_body]
fn path_to_file_url(path: &str) -> (r: Option<String>)
    ensures
        match r {
            Some(u) => path@.len() > 0 && path@[0] == '/' && u@ == file_url_of(path@),
            None => !(path@.len() > 0 && path@[0] == '/'),
        },
{
    match url::Url::from_file_path(path) {
        Ok(u) => Some(String::from(u)),
        Err(()) => None,
    }
}

/// The label with every leading `//` marker stripped.
pub open spec fn trim_slashes(s: Seq<char>) -> Seq<char>
    decreases s.len(),
{
    if starts_with_seq(s, "//"@) && "//"@.len() > 0 {
        trim_slashes(s.skip("//"@.len() as int))
    } else {
        s
    }
}

fn trim_label(label: &str) -> (r: String)
    ensures
        r@ == trim_slashes(label@),
{
    let len: usize = label.unicode_len();
    let mut idx: usize = 0;
    proof {
        reveal_strlit("//");
        assert("//"@ =~= seq!['/', '/']);
        assert(label@.skip(0) =~= label@);
    }
    while len - idx >= 2 && label.get_char(idx) == '/' && label.get_char(idx + 1) == '/'
        invariant
            idx <= len,
            len == label@.len(),
            "//"@ == seq!['/', '/'],
            trim_slashes(label@) == trim_slashes(label@.skip(idx as int)),
        decreases len - idx,
    {
        proof {
            let suf = label@.skip(idx as int);
            assert(suf[0] == label@[idx as int] && suf[1] == label@[idx + 1]);
            assert(suf.subrange(0, 2) =~= "//"@);
            assert(starts_with_seq(suf, "//"@));
            assert(suf.skip(2) =~= label@.skip(idx + 2));
        }
        idx = idx + 2;
    }
    proof {
        let suf = label@.skip(idx as int);
        if suf.len() >= 2 {
            assert(suf[0] == label@[idx as int] && suf[1] == label@[idx + 1]);
            if starts_with_seq(suf, "//"@) {
                assert(suf.subrange(0, 2)[0] == '/' && suf.subrange(0, 2)[1] == '/');
                assert(false);
            }
        } else {
            assert(!starts_with_seq(suf, "//"@));
        }
    }
    let r = label.substring_char(idx, len);
    proof {
        assert(r@ =~= label@.skip(idx as int));
    }
    r.to_owned()
}

/// Joining a relative path onto a base directory: an absolute right-hand
/// side stands alone; otherwise a single separator is placed between them.
pub open spec fn join_path(base: Seq<char>, rel: Seq<char>) -> Seq<char> {
    if rel.len() > 0 && rel[0] == '/' {
        rel
    } else if base.len() == 0 {
        rel
    } else if base[base.len() - 1] == '/' {
        base + rel
    } else {
        base + seq!['/'] + rel
    }
}

pub fn join_path_str(base: &str, rel: &str) -> (r: String)
    ensures
        r@ == join_path(base@, rel@),
{
    let rlen: usize = rel.unicode_len();
    let blen: usize = base.unicode_len();
    if rlen > 0 && rel.get_char(0) == '/' {
        return rel.to_owned();
    }
    if blen == 0 {
        return rel.to_owned();
    }
    let mut s = base.to_owned();
    if base.get_char(blen - 1) != '/' {
        s.append("/");
        proof {
            reveal_strlit("/");
            assert("/"@ =~= seq!['/']);
        }
    }
    s.append(rel);
    s
}

/// The filesystem path behind a target's canonical identifier: project
/// root, then the label without its leading marker, then the numeric id.
pub open spec fn target_uri_path(root: Seq<char>, label: Seq<char>, id: u32) -> Seq<char> {
    join_path(join_path(root, trim_slashes(label)), dec_chars(id as nat))
}

/// Build the canonical identifier of a target from the project root, its
/// label and its id.
pub fn bazel_to_uri(base: &str, name: &String, id: &u32) -> (r: Result<String, BSPError>)
    ensures
        ({
            let p = target_uri_path(base@, name@, *id);
            match r {
                Ok(u) => p.len() > 0 && p[0] == '/' && u@ == file_url_of(p),
                Err(e) => !(p.len() > 0 && p[0] == '/') && e is Resolution,
            }
        }),
{
    let trimmed = trim_label(name.as_str());
    let j1 = join_path_str(base, trimmed.as_str());
    let idstr = u64_to_dec_str(*id as u64);
    let j2 = join_path_str(j1.as_str(), idstr.as_str());
    match path_to_file_url(j2.as_str()) {
        Some(u) => Ok(u),
        None => Err(BSPError::Resolution(String::from_str("failed to create uri for target"))),
    }
}

/// A reconstructed input path is kept when, joined under the project root,
/// it is absolute and carries the source extension this server serves.
pub open spec fn keep_file(joined: Seq<char>) -> bool {
    joined.len() > 0 && joined[0] == '/' && ends_with_seq(joined, ".swift"@)
}

/// The kept input paths of an action, as `file:` URLs, in order.
pub open spec fn file_urls(paths: Seq<Seq<char>>, root: Seq<char>) -> Seq<Seq<char>>
    decreases paths.len(),
{
    if paths.len() == 0 {
        Seq::<Seq<char>>::empty()
    } else {
        file_urls(paths.drop_last(), root) + (if keep_file(join_path(root, paths.last())) {
            seq![file_url_of(join_path(root, paths.last()))]
        } else {
            Seq::<Seq<char>>::empty()
        })
    }
}

fn input_file_urls(paths: &Vec<String>, root: &str) -> (r: Vec<String>)
    ensures
        r@.map_values(|s: String| s@) == file_urls(paths@.map_values(|s: String| s@), root@),
{
    let ghost pv = paths@.map_values(|s: String| s@);
    let mut out: Vec<String> = Vec::new();
    let mut i: usize = 0;
    proof {
        assert(pv.take(0) =~= Seq::<Seq<char>>::empty());
        assert(out@.map_values(|s: String| s@) =~= file_urls(pv.take(0), root@));
    }
    while i < paths.len()
        invariant
            i <= pv.len(),
            pv == paths@.map_values(|s: String| s@),
            pv.len() == paths@.len(),
            out@.map_values(|s: String| s@) == file_urls(pv.take(i as int), root@),
        decreases pv.len() - i,
    {
        let ghost prev = out@;
        let joined = join_path_str(root, paths[i].as_str());
        proof {
            assert(pv[i as int] == paths@[i as int]@);
            assert(pv.take(i + 1).drop_last() =~= pv.take(i as int));
            assert(pv.take(i + 1).last() == pv[i as int]);
        }
        if str_ends_with(joined.as_str(), ".swift") {
            match path_to_file_url(joined.as_str()) {
                Some(u) => {
                    out.push(u);
                    proof {
                        assert(keep_file(join_path(root@, pv[i as int])));
                        assert(out@.map_values(|s: String| s@) =~= prev.map_values(
                            |s: String| s@,
                        ) + seq![file_url_of(join_path(root@, pv[i as int]))]);
                    }
                },
                None => {
                    proof {
                        assert(!keep_file(join_path(root@, pv[i as int])));
                        assert(out@.map_values(|s: String| s@) + Seq::<Seq<char>>::empty()
                            =~= out@.map_values(|s: String| s@));
                    }
                },
            }
        } else {
            proof {
                assert(!keep_file(join_path(root@, pv[i as int])));
                assert(out@.map_values(|s: String| s@) + Seq::<Seq<char>>::empty()
                    =~= out@.map_values(|s: String| s@));
            }
        }
        i = i + 1;
    }
    proof {
        assert(pv.take(pv.len() as int) =~= pv);
    }
    out
}

/// The extra search-path arguments appended after rewriting.
pub open spec fn extra_args(includes: Seq<Seq<char>>, frameworks: Seq<Seq<char>>) -> Seq<
    Seq<char>,
> {
    includes.map_values(|s: Seq<char>| "-I"@ + s) + frameworks.map_values(
        |s: Seq<char>| "-F"@ + s,
    )
}

fn push_prefixed(out: &mut Vec<String>, prefix: &str, items: &Vec<String>)
    ensures
        final(out)@.map_values(|s: String| s@) == old(out)@.map_values(|s: String| s@)
            + items@.map_values(|s: String| s@).map_values(|s: Seq<char>| prefix@ + s),
{
    let ghost iv = items@.map_values(|s: String| s@).map_values(|s: Seq<char>| prefix@ + s);
    let ghost base = out@;
    let mut i: usize = 0;
    proof {
        assert(base.map_values(|s: String| s@) + iv.take(0) =~= base.map_values(|s: String| s@));
    }
    while i < items.len()
        invariant
            i <= items@.len(),
            iv == items@.map_values(|s: String| s@).map_values(|s: Seq<char>| prefix@ + s),
            iv.len() == items@.len(),
            out@.map_values(|s: String| s@) == base.map_values(|s: String| s@) + iv.take(
                i as int,
            ),
        decreases items@.len() - i,
    {
        let ghost prev = out@;
        let mut a = prefix.to_owned();
        a.append(items[i].as_str());
        out.push(a);
        proof {
            assert(iv[i as int] == prefix@ + items@[i as int]@);
            assert(iv.take(i + 1) =~= iv.take(i as int) + seq![iv[i as int]]);
            assert(out@.map_values(|s: String| s@) =~= prev.map_values(|s: String| s@) + seq![
                iv[i as int],
            ]);
        }
        i = i + 1;
    }
    proof {
        assert(iv.take(iv.len() as int) =~= iv);
    }
}

/// The first listed target with the wanted id, from position `j` on.
pub open spec fn find_target_idx(ts: Seq<Target>, tid: u32, j: int) -> Option<int>
    decreases ts.len() - j,
    when 0 <= j <= ts.len()
{
    if j >= ts.len() {
        None
    } else if ts[j].id == tid {
        Some(j)
    } else {
        find_target_idx(ts, tid, j + 1)
    }
}

/// An action resolves: its depsets flatten to existing paths, its target
/// id names a listed target, and the target's identifier path is absolute.
pub open spec fn action_ok(
    a: Action,
    artifacts: Map<u32, Artifact>,
    files: Map<u32, DepSetOfFiles>,
    fragments: Map<u32, PathFragment>,
    targets: Seq<Target>,
    root: Seq<char>,
) -> bool {
    &&& sets_ok(a.input_dep_set_ids@, artifacts, files, fragments)
    &&& find_target_idx(targets, a.target_id, 0) is Some
    &&& ({
        let t = targets[find_target_idx(targets, a.target_id, 0)->Some_0];
        let p = target_uri_path(root, t.label@, a.target_id);
        p.len() > 0 && p[0] == '/'
    })
}

pub open spec fn actions_ok(
    actions: Seq<Action>,
    artifacts: Map<u32, Artifact>,
    files: Map<u32, DepSetOfFiles>,
    fragments: Map<u32, PathFragment>,
    targets: Seq<Target>,
    root: Seq<char>,
) -> bool {
    forall|j: int|
        0 <= j < actions.len() ==> action_ok(
            #[trigger] actions[j],
            artifacts,
            files,
            fragments,
            targets,
            root,
        )
}

/// The candidate target one action contributes, before deduplication.
pub open spec fn view_of_action(
    a: Action,
    artifacts: Map<u32, Artifact>,
    files: Map<u32, DepSetOfFiles>,
    fragments: Map<u32, PathFragment>,
    targets: Seq<Target>,
    root: Seq<char>,
    sdk: Seq<char>,
    xr: Seq<char>,
    inc: Seq<Seq<char>>,
    fw: Seq<Seq<char>>,
) -> TargetView {
    let t = targets[find_target_idx(targets, a.target_id, 0)->Some_0];
    TargetView {
        id: a.target_id,
        uri: file_url_of(target_uri_path(root, t.label@, a.target_id)),
        label: t.label@,
        input_files: file_urls(action_input_paths(a, artifacts, files, fragments), root),
        compiler_arguments: rewrite_args_spec(a.arguments@.map_values(|s: String| s@), sdk, xr)
            + extra_args(inc, fw),
    }
}

/// One candidate per action, in document order.
pub open spec fn raw_targets(
    actions: Seq<Action>,
    artifacts: Map<u32, Artifact>,
    files: Map<u32, DepSetOfFiles>,
    fragments: Map<u32, PathFragment>,
    targets: Seq<Target>,
    root: Seq<char>,
    sdk: Seq<char>,
    xr: Seq<char>,
    inc: Seq<Seq<char>>,
    fw: Seq<Seq<char>>,
) -> Seq<TargetView>
    decreases actions.len(),
{
    if actions.len() == 0 {
        Seq::<TargetView>::empty()
    } else {
        raw_targets(
            actions.drop_last(),
            artifacts,
            files,
            fragments,
            targets,
            root,
            sdk,
            xr,
            inc,
            fw,
        ) + seq![
            view_of_action(
                actions.last(),
                artifacts,
                files,
                fragments,
                targets,
                root,
                sdk,
                xr,
                inc,
                fw,
            ),
        ]
    }
}

/// Append the elements of `ys` that the accumulated list does not hold
/// yet, preserving first-seen order.
pub open spec fn append_new(xs: Seq<Seq<char>>, ys: Seq<Seq<char>>) -> Seq<Seq<char>>
    decreases ys.len(),
{
    if ys.len() == 0 {
        xs
    } else {
        let rec = append_new(xs, ys.drop_last());
        if rec.contains(ys.last()) {
            rec
        } else {
            rec + seq![ys.last()]
        }
    }
}

/// The first accumulated entry sharing `t`'s key, from position `j` on.
pub open spec fn find_key_idx(s: Seq<TargetView>, t: TargetView, j: int) -> Option<int>
    decreases s.len() - j,
    when 0 <= j <= s.len()
{
    if j >= s.len() {
        None
    } else if key_match(s[j], t) {
        Some(j)
    } else {
        find_key_idx(s, t, j + 1)
    }
}

/// Fold one candidate into the accumulated list: a new key appends an
/// entry with its file list deduplicated; a known key merges into that
/// entry, unioning the input files and taking the later argument list.
pub open spec fn dedup_step(acc: Seq<TargetView>, t: TargetView) -> Seq<TargetView> {
    match find_key_idx(acc, t, 0) {
        None => acc + seq![
            TargetView {
                id: t.id,
                uri: t.uri,
                label: t.label,
                input_files: append_new(Seq::<Seq<char>>::empty(), t.input_files),
                compiler_arguments: t.compiler_arguments,
            },
        ],
        Some(i) => acc.update(
            i,
            TargetView {
                id: acc[i].id,
                uri: acc[i].uri,
                label: acc[i].label,
                input_files: append_new(acc[i].input_files, t.input_files),
                compiler_arguments: t.compiler_arguments,
            },
        ),
    }
}

/// Candidates collapsed by `(uri, id)` key, in first-seen order.
pub open spec fn dedup_spec(ts: Seq<TargetView>) -> Seq<TargetView>
    decreases ts.len(),
{
    if ts.len() == 0 {
        Seq::<TargetView>::empty()
    } else {
        dedup_step(dedup_spec(ts.drop_last()), ts.last())
    }
}

pub fn contains_string(v: &Vec<String>, s: &str) -> (r: bool)
    ensures
        r == v@.map_values(|x: String| x@).contains(s@),
{
    let mut j: usize = 0;
    while j < v.len()
        invariant
            j <= v@.len(),
            forall|k: int| 0 <= k < j ==> #[trigger] v@[k]@ != s@,
        decreases v@.len() - j,
    {
        if str_eq(v[j].as_str(), s) {
            proof {
                assert(v@.map_values(|x: String| x@)[j as int] == s@);
            }
            return true;
        }
        j = j + 1;
    }
    proof {
        let mapv = v@.map_values(|x: String| x@);
        if mapv.contains(s@) {
            let k = choose|k: int| 0 <= k < mapv.len() && mapv[k] == s@;
            assert(v@[k]@ == s@);
            assert(false);
        }
    }
    false
}

fn merge_files(acc: Vec<String>, ys: &Vec<String>) -> (r: Vec<String>)
    ensures
        r@.map_values(|x: String| x@) == append_new(
            acc@.map_values(|x: String| x@),
            ys@.map_values(|x: String| x@),
        ),
{
    let ghost base = acc@.map_values(|x: String| x@);
    let ghost yv = ys@.map_values(|x: String| x@);
    let mut acc = acc;
    let mut i: usize = 0;
    proof {
        assert(yv.take(0) =~= Seq::<Seq<char>>::empty());
    }
    while i < ys.len()
        invariant
            i <= yv.len(),
            yv == ys@.map_values(|x: String| x@),
            yv.len() == ys@.len(),
            acc@.map_values(|x: String| x@) == append_new(base, yv.take(i as int)),
        decreases yv.len() - i,
    {
        let ghost prev = acc@;
        proof {
            assert(yv[i as int] == ys@[i as int]@);
            assert(yv.take(i + 1).drop_last() =~= yv.take(i as int));
            assert(yv.take(i + 1).last() == yv[i as int]);
        }
        if !contains_string(&acc, ys[i].as_str()) {
            let y = ys[i].clone();
            acc.push(y);
            proof {
                assert(acc@.map_values(|x: String| x@) =~= prev.map_values(|x: String| x@)
                    + seq![yv[i as int]]);
            }
        }
        i = i + 1;
    }
    proof {
        assert(yv.take(yv.len() as int) =~= yv);
    }
    acc
}

fn find_key_in(out: &Vec<BazelTarget>, t: &BazelTarget) -> (r: Option<usize>)
    ensures
        ({
            let ov = out@.map_values(|x: BazelTarget| x@);
            match r {
                Some(j) => j < out@.len() && find_key_idx(ov, t@, 0) == Some(j as int),
                None => find_key_idx(ov, t@, 0) is None,
            }
        }),
{
    let ghost ov = out@.map_values(|x: BazelTarget| x@);
    let mut j: usize = 0;
    while j < out.len()
        invariant
            j <= ov.len(),
            ov == out@.map_values(|x: BazelTarget| x@),
            ov.len() == out@.len(),
            find_key_idx(ov, t@, 0) == find_key_idx(ov, t@, j as int),
        decreases ov.len() - j,
    {
        proof {
            assert(ov[j as int] == out@[j as int]@);
        }
        if out[j].id == t.id && str_eq(out[j].uri.as_str(), t.uri.as_str()) {
            return Some(j);
        }
        j = j + 1;
    }
    None
}

/// Collapse candidates sharing a `(uri, id)` key into one entry each.
pub fn dedup_targets(raw: Vec<BazelTarget>) -> (r: Vec<BazelTarget>)
    ensures
        r@.map_values(|x: BazelTarget| x@) == dedup_spec(raw@.map_values(|x: BazelTarget| x@)),
{
    let ghost rv = raw@.map_values(|x: BazelTarget| x@);
    let mut out: Vec<BazelTarget> = Vec::new();
    let mut i: usize = 0;
    proof {
        assert(rv.take(0) =~= Seq::<TargetView>::empty());
        assert(out@.map_values(|x: BazelTarget| x@) =~= dedup_spec(rv.take(0)));
    }
    while i < raw.len()
        invariant
            i <= rv.len(),
            rv == raw@.map_values(|x: BazelTarget| x@),
            rv.len() == raw@.len(),
            out@.map_values(|x: BazelTarget| x@) == dedup_spec(rv.take(i as int)),
        decreases rv.len() - i,
    {
        let ghost prev = out@.map_values(|x: BazelTarget| x@);
        let t = &raw[i];
        proof {
            assert(rv[i as int] == raw@[i as int]@);
            assert(rv.take(i + 1).drop_last() =~= rv.take(i as int));
            assert(rv.take(i + 1).last() == rv[i as int]);
        }
        match find_key_in(&out, t) {
            None => {
                let empty_files: Vec<String> = Vec::new();
                proof {
                    assert(empty_files@.map_values(|x: String| x@) =~= Seq::<Seq<char>>::empty());
                }
                let files = merge_files(empty_files, &t.input_files);
                let entry = BazelTarget {
                    id: t.id,
                    uri: t.uri.clone(),
                    label: t.label.clone(),
                    input_files: files,
                    compiler_arguments: t.compiler_arguments.clone(),
                };
                proof {
                    assert(entry.compiler_arguments@ =~= t.compiler_arguments@);
                    assert(entry@.compiler_arguments =~= t@.compiler_arguments);
                }
                out.push(entry);
                proof {
                    assert(out@.map_values(|x: BazelTarget| x@) =~= prev + seq![entry@]);
                    assert(entry@ =~= dedup_step(prev, rv[i as int]).last());
                    assert(out@.map_values(|x: BazelTarget| x@) =~= dedup_step(
                        prev,
                        rv[i as int],
                    ));
                }
            },
            Some(j) => {
                let files = merge_files(out[j].input_files.clone(), &t.input_files);
                let merged = BazelTarget {
                    id: out[j].id,
                    uri: out[j].uri.clone(),
                    label: out[j].label.clone(),
                    input_files: files,
                    compiler_arguments: t.compiler_arguments.clone(),
                };
                proof {
                    assert(out@[j as int].input_files@.map_values(|x: String| x@)
                        =~= prev[j as int].input_files);
                    assert(merged.compiler_arguments@ =~= t.compiler_arguments@);
                    assert(merged@.compiler_arguments =~= t@.compiler_arguments);
                    assert(merged@ =~= dedup_step(prev, rv[i as int])[j as int]);
                }
                out.set(j, merged);
                proof {
                    assert(out@.map_values(|x: BazelTarget| x@) =~= dedup_step(
                        prev,
                        rv[i as int],
                    ));
                }
            },
        }
        i = i + 1;
    }
    proof {
        assert(rv.take(rv.len() as int) =~= rv);
    }
    out
}

fn find_target_in(targets: &Vec<Target>, tid: u32) -> (r: Option<usize>)
    ensures
        match r {
            Some(j) => j < targets@.len() && find_target_idx(targets@, tid, 0) == Some(j as int),
            None => find_target_idx(targets@, tid, 0) is None,
        },
{
    let mut j: usize = 0;
    while j < targets.len()
        invariant
            j <= targets@.len(),
            find_target_idx(targets@, tid, 0) == find_target_idx(targets@, tid, j as int),
        decreases targets@.len() - j,
    {
        if targets[j].id == tid {
            return Some(j);
        }
        j = j + 1;
    }
    None
}

/// Resolve a parsed action-graph document into the deduplicated target
/// list: one candidate per action, collapsed by `(uri, id)`.
pub fn resolve_targets(
    query: QueryResult,
    root: &str,
    execroot: &str,
    sdk: &str,
    extra_includes: &Vec<String>,
    extra_frameworks: &Vec<String>,
) -> (r: Result<Vec<BazelTarget>, BSPError>)
    ensures
        ({
            let artifacts = artifact_table_of(query.artifacts@);
            let files = depset_table_of(query.dep_set_of_files@);
            let fragments = fragment_table_of(query.path_fragments@);
            let inc = extra_includes@.map_values(|s: String| s@);
            let fw = extra_frameworks@.map_values(|s: String| s@);
            match r {
                Ok(v) => actions_ok(
                    query.actions@,
                    artifacts,
                    files,
                    fragments,
                    query.targets@,
                    root@,
                ) && v@.map_values(|x: BazelTarget| x@) == dedup_spec(
                    raw_targets(
                        query.actions@,
                        artifacts,
                        files,
                        fragments,
                        query.targets@,
                        root@,
                        sdk@,
                        execroot@,
                        inc,
                        fw,
                    ),
                ),
                Err(e) => !actions_ok(
                    query.actions@,
                    artifacts,
                    files,
                    fragments,
                    query.targets@,
                    root@,
                ) && e is Resolution,
            }
        }),
{
    let QueryResult {
        artifacts: arts,
        actions,
        targets,
        rule_classes: _,
        dep_set_of_files,
        path_fragments,
    } = query;
    let ghost inc = extra_includes@.map_values(|s: String| s@);
    let ghost fw = extra_frameworks@.map_values(|s: String| s@);
    let amap = artifact_table(arts);
    let dmap = depset_table(dep_set_of_files);
    let fmap = fragment_table(path_fragments);
    let mut raw: Vec<BazelTarget> = Vec::new();
    let mut i: usize = 0;
    proof {
        assert(actions@.take(0) =~= Seq::<Action>::empty());
        assert(raw@.map_values(|x: BazelTarget| x@) =~= raw_targets(
            actions@.take(0),
            amap@,
            dmap@,
            fmap@,
            targets@,
            root@,
            sdk@,
            execroot@,
            inc,
            fw,
        ));
    }
    while i < actions.len()
        invariant
            i <= actions@.len(),
            amap@ == artifact_table_of(query.artifacts@),
            dmap@ == depset_table_of(query.dep_set_of_files@),
            fmap@ == fragment_table_of(query.path_fragments@),
            targets@ == query.targets@,
            actions@ == query.actions@,
            inc == extra_includes@.map_values(|s: String| s@),
            fw == extra_frameworks@.map_values(|s: String| s@),
            forall|k: int|
                0 <= k < i ==> action_ok(
                    #[trigger] actions@[k],
                    amap@,
                    dmap@,
                    fmap@,
                    targets@,
                    root@,
                ),
            raw@.map_values(|x: BazelTarget| x@) == raw_targets(
                actions@.take(i as int),
                amap@,
                dmap@,
                fmap@,
                targets@,
                root@,
                sdk@,
                execroot@,
                inc,
                fw,
            ),
        decreases actions@.len() - i,
    {
        let action = &actions[i];
        let ipaths = match build_input_files(&amap, &dmap, &fmap, action) {
            Err(e) => {
                return Err(e);
            },
            Ok(v) => v,
        };
        let urls = input_file_urls(&ipaths, root);
        let mut cargs = rewrite_arguments(&action.arguments, sdk, execroot);
        push_prefixed(&mut cargs, "-I", extra_includes);
        push_prefixed(&mut cargs, "-F", extra_frameworks);
        match find_target_in(&targets, action.target_id) {
            None => {
                return Err(BSPError::Resolution(String::from_str("target_id not found")));
            },
            Some(tj) => {
                let tgt = &targets[tj];
                let uri = match bazel_to_uri(root, &tgt.label, &action.target_id) {
                    Ok(u) => u,
                    Err(e) => {
                        return Err(e);
                    },
                };
                let label = tgt.label.clone();
                let ghost prev = raw@.map_values(|x: BazelTarget| x@);
                let entry = BazelTarget {
                    id: action.target_id,
                    uri,
                    label,
                    input_files: urls,
                    compiler_arguments: cargs,
                };
                proof {
                    assert(actions@.take(i + 1).drop_last() =~= actions@.take(i as int));
                    assert(actions@.take(i + 1).last() == actions@[i as int]);
                    assert(entry@.compiler_arguments =~= rewrite_args_spec(
                        actions@[i as int].arguments@.map_values(|s: String| s@),
                        sdk@,
                        execroot@,
                    ) + extra_args(inc, fw));
                    assert(entry@ =~= view_of_action(
                        actions@[i as int],
                        amap@,
                        dmap@,
                        fmap@,
                        targets@,
                        root@,
                        sdk@,
                        execroot@,
                        inc,
                        fw,
                    ));
                }
                raw.push(entry);
                proof {
                    assert(raw@.map_values(|x: BazelTarget| x@) =~= prev + seq![entry@]);
                    assert(raw@.map_values(|x: BazelTarget| x@) =~= raw_targets(
                        actions@.take(i + 1),
                        amap@,
                        dmap@,
                        fmap@,
                        targets@,
                        root@,
                        sdk@,
                        execroot@,
                        inc,
                        fw,
                    ));
                }
            },
        }
        i = i + 1;
    }
    proof {
        assert(actions@.take(actions@.len() as int) =~= actions@);
    }
    Ok(dedup_targets(raw))
}

/// No two entries share a `(uri, id)` key.
pub open spec fn unique_keys(s: Seq<TargetView>) -> bool {
    forall|i: int, j: int| 0 <= i < j < s.len() ==> !key_match(s[i], s[j])
}

/// Some entry carries `t`'s key.
pub open spec fn has_key(s: Seq<TargetView>, t: TargetView) -> bool {
    exists|i: int| 0 <= i < s.len() && key_match(s[i], t)
}

proof fn lemma_find_key_from(s: Seq<TargetView>, t: TargetView, j: int)
    requires
        0 <= j <= s.len(),
    ensures
        match find_key_idx(s, t, j) {
            Some(i) => j <= i < s.len() && key_match(s[i], t),
            None => forall|k: int| j <= k < s.len() ==> !key_match(#[trigger] s[k], t),
        },
    decreases s.len() - j,
{
    if j < s.len() && !key_match(s[j], t) {
        lemma_find_key_from(s, t, j + 1);
    }
}

/// Deduplication leaves no two entries sharing a key.
pub proof fn lemma_dedup_unique_keys(ts: Seq<TargetView>)
    ensures
        unique_keys(dedup_spec(ts)),
    decreases ts.len(),
{
    if ts.len() > 0 {
        lemma_dedup_unique_keys(ts.drop_last());
        let acc = dedup_spec(ts.drop_last());
        let t = ts.last();
        lemma_find_key_from(acc, t, 0);
        match find_key_idx(acc, t, 0) {
            None => {
                let d = acc + seq![dedup_step(acc, t).last()];
                assert(dedup_step(acc, t) == d);
                assert forall|i: int, j: int|
                    0 <= i < j < d.len() implies !key_match(d[i], d[j]) by {
                    if j < acc.len() {
                        assert(!key_match(acc[i], acc[j]));
                    } else {
                        assert(d[j].uri == t.uri && d[j].id == t.id);
                        assert(!key_match(acc[i], t));
                    }
                }
            },
            Some(i0) => {
                let d = dedup_step(acc, t);
                assert(d[i0].uri == acc[i0].uri && d[i0].id == acc[i0].id);
                assert forall|i: int, j: int|
                    0 <= i < j < d.len() implies !key_match(d[i], d[j]) by {
                    assert(d[i].uri == acc[i].uri && d[i].id == acc[i].id);
                    assert(d[j].uri == acc[j].uri && d[j].id == acc[j].id);
                    assert(!key_match(acc[i], acc[j]));
                }
            },
        }
    }
}

/// Deduplication keeps exactly the keys of its input: no key is lost and
/// none is invented.
pub proof fn lemma_dedup_keys(ts: Seq<TargetView>, t: TargetView)
    ensures
        has_key(dedup_spec(ts), t) <==> has_key(ts, t),
    decreases ts.len(),
{
    if ts.len() == 0 {
    } else {
        lemma_dedup_keys(ts.drop_last(), t);
        let acc = dedup_spec(ts.drop_last());
        let last = ts.last();
        let d = dedup_step(acc, last);
        lemma_find_key_from(acc, last, 0);
        // keys of the step output are the keys of acc plus last's key
        if has_key(ts, t) {
            let i = choose|i: int| 0 <= i < ts.len() && key_match(ts[i], t);
            if i < ts.len() - 1 {
                assert(ts.drop_last()[i] == ts[i]);
                assert(has_key(ts.drop_last(), t));
                let j = choose|j: int| 0 <= j < acc.len() && key_match(acc[j], t);
                match find_key_idx(acc, last, 0) {
                    None => {
                        assert(key_match(d[j], t));
                    },
                    Some(i0) => {
                        assert(d[i0].uri == acc[i0].uri && d[i0].id == acc[i0].id);
                        if j == i0 {
                            assert(key_match(d[i0], t));
                        } else {
                            assert(d[j] == acc[j]);
                            assert(key_match(d[j], t));
                        }
                    },
                }
                assert(has_key(d, t));
            } else {
                // the key comes from the last candidate itself
                assert(key_match(last, t));
                match find_key_idx(acc, last, 0) {
                    None => {
                        let e = d.last();
                        assert(e.uri == last.uri && e.id == last.id);
                        assert(key_match(e, t));
                        assert(has_key(d, t));
                    },
                    Some(i0) => {
                        assert(d[i0].uri == acc[i0].uri && d[i0].id == acc[i0].id);
                        assert(key_match(acc[i0], last));
                        assert(key_match(d[i0], t));
                        assert(has_key(d, t));
                    },
                }
            }
        }
        if has_key(d, t) {
            let i = choose|i: int| 0 <= i < d.len() && key_match(d[i], t);
            match find_key_idx(acc, last, 0) {
                None => {
                    if i < acc.len() {
                        assert(key_match(acc[i], t));
                        assert(has_key(acc, t));
                        let j = choose|j: int| 0 <= j < ts.drop_last().len() && key_match(
                            ts.drop_last()[j],
                            t,
                        );
                        assert(ts[j] == ts.drop_last()[j]);
                        assert(has_key(ts, t));
                    } else {
                        assert(d[i].uri == last.uri && d[i].id == last.id);
                        assert(key_match(ts[ts.len() - 1], t));
                        assert(has_key(ts, t));
                    }
                },
                Some(i0) => {
                    if i == i0 {
                        assert(d[i].uri == acc[i0].uri && d[i].id == acc[i0].id);
                        assert(key_match(acc[i0], t));
                    } else {
                        assert(d[i] == acc[i]);
                        assert(key_match(acc[i], t));
                    }
                    assert(has_key(acc, t));
                    let j = choose|j: int| 0 <= j < ts.drop_last().len() && key_match(
                        ts.drop_last()[j],
                        t,
                    );
                    assert(ts[j] == ts.drop_last()[j]);
                    assert(has_key(ts, t));
                },
            }
        }
    }
}

/// Two candidates sharing a key leave exactly one entry for that key: it
/// is present, and no two entries both carry it.
pub proof fn lemma_dedup_one_entry_per_key(ts: Seq<TargetView>, t: TargetView)
    requires
        has_key(ts, t),
    ensures
        ({
            let d = dedup_spec(ts);
            &&& has_key(d, t)
            &&& forall|i: int, j: int|
                0 <= i < j < d.len() ==> !(key_match(#[trigger] d[i], t) && key_match(
                    #[trigger] d[j],
                    t,
                ))
        }),
{
    lemma_dedup_keys(ts, t);
    lemma_dedup_unique_keys(ts);
    let d = dedup_spec(ts);
    assert forall|i: int, j: int|
        0 <= i < j < d.len() implies !(key_match(#[trigger] d[i], t) && key_match(
        #[trigger] d[j],
        t,
    )) by {
        if key_match(d[i], t) && key_match(d[j], t) {
            assert(key_match(d[i], d[j]));
        }
    }
}

/// No element appears twice.
pub open spec fn unique_files(s: Seq<Seq<char>>) -> bool {
    forall|i: int, j: int| 0 <= i < j < s.len() ==> s[i] != s[j]
}

proof fn lemma_append_new_unique(xs: Seq<Seq<char>>, ys: Seq<Seq<char>>)
    requires
        unique_files(xs),
    ensures
        unique_files(append_new(xs, ys)),
        forall|z: Seq<char>|
            #[trigger] append_new(xs, ys).contains(z) <==> xs.contains(z) || ys.contains(z),
    decreases ys.len(),
{
    if ys.len() == 0 {
        assert forall|z: Seq<char>|
            #[trigger] append_new(xs, ys).contains(z) <==> xs.contains(z) || ys.contains(
            z,
        ) by {
            if ys.contains(z) {
                let i = choose|i: int| 0 <= i < ys.len() && ys[i] == z;
                assert(false);
            }
        }
    } else {
        lemma_append_new_unique(xs, ys.drop_last());
        let rec = append_new(xs, ys.drop_last());
        let out = append_new(xs, ys);
        if rec.contains(ys.last()) {
            assert forall|z: Seq<char>|
                #[trigger] out.contains(z) <==> xs.contains(z) || ys.contains(z) by {
                if ys.contains(z) {
                    let i = choose|i: int| 0 <= i < ys.len() && ys[i] == z;
                    if i < ys.len() - 1 {
                        assert(ys.drop_last()[i] == z);
                        assert(ys.drop_last().contains(z));
                    } else {
                        assert(z == ys.last());
                    }
                }
                if xs.contains(z) || ys.drop_last().contains(z) {
                    assert(rec.contains(z));
                }
                if ys.drop_last().contains(z) {
                    let i = choose|i: int| 0 <= i < ys.drop_last().len() && ys.drop_last()[i]
                        == z;
                    assert(ys[i] == z);
                    assert(ys.contains(z));
                }
            }
        } else {
            assert(out == rec + seq![ys.last()]);
            assert forall|i: int, j: int|
                0 <= i < j < out.len() implies out[i] != out[j] by {
                if j < rec.len() {
                    assert(rec[i] != rec[j]);
                } else {
                    assert(out[j] == ys.last());
                    assert(out[i] == rec[i]);
                    if rec[i] == ys.last() {
                        assert(rec.contains(ys.last()));
                    }
                }
            }
            assert forall|z: Seq<char>|
                #[trigger] out.contains(z) <==> xs.contains(z) || ys.contains(z) by {
                if out.contains(z) {
                    let i = choose|i: int| 0 <= i < out.len() && out[i] == z;
                    if i < rec.len() {
                        assert(rec.contains(z));
                    } else {
                        assert(z == ys.last());
                        assert(ys.contains(z));
                    }
                }
                if xs.contains(z) || ys.drop_last().contains(z) {
                    assert(rec.contains(z));
                    let i = choose|i: int| 0 <= i < rec.len() && rec[i] == z;
                    assert(out[i] == z);
                    assert(out.contains(z));
                }
                if ys.contains(z) {
                    let i = choose|i: int| 0 <= i < ys.len() && ys[i] == z;
                    if i < ys.len() - 1 {
                        assert(ys.drop_last()[i] == z);
                        assert(ys.drop_last().contains(z));
                    } else {
                        assert(out.last() == z);
                        assert(out.contains(z));
                    }
                }
                if ys.drop_last().contains(z) {
                    let i = choose|i: int| 0 <= i < ys.drop_last().len() && ys.drop_last()[i]
                        == z;
                    assert(ys[i] == z);
                    assert(ys.contains(z));
                }
            }
        }
    }
}

proof fn lemma_append_new_id(ys: Seq<Seq<char>>)
    requires
        unique_files(ys),
    ensures
        append_new(Seq::<Seq<char>>::empty(), ys) == ys,
    decreases ys.len(),
{
    if ys.len() > 0 {
        assert(unique_files(ys.drop_last())) by {
            assert forall|i: int, j: int|
                0 <= i < j < ys.drop_last().len() implies ys.drop_last()[i]
                != ys.drop_last()[j] by {
                assert(ys[i] != ys[j]);
            }
        }
        lemma_append_new_id(ys.drop_last());
        if ys.drop_last().contains(ys.last()) {
            let i = choose|i: int| 0 <= i < ys.drop_last().len() && ys.drop_last()[i]
                == ys.last();
            assert(ys[i] == ys[ys.len() - 1]);
            assert(false);
        }
        assert(append_new(Seq::<Seq<char>>::empty(), ys) =~= ys);
    } else {
        assert(append_new(Seq::<Seq<char>>::empty(), ys) =~= ys);
    }
}

/// Every deduplicated entry lists each input file once.
pub open spec fn entries_files_unique(s: Seq<TargetView>) -> bool {
    forall|k: int| 0 <= k < s.len() ==> unique_files(#[trigger] s[k].input_files)
}

proof fn lemma_dedup_files_unique(ts: Seq<TargetView>)
    ensures
        entries_files_unique(dedup_spec(ts)),
    decreases ts.len(),
{
    if ts.len() > 0 {
        lemma_dedup_files_unique(ts.drop_last());
        let acc = dedup_spec(ts.drop_last());
        let t = ts.last();
        lemma_find_key_from(acc, t, 0);
        match find_key_idx(acc, t, 0) {
            None => {
                assert(unique_files(Seq::<Seq<char>>::empty()));
                lemma_append_new_unique(Seq::<Seq<char>>::empty(), t.input_files);
                let d = dedup_step(acc, t);
                assert forall|k: int|
                    0 <= k < d.len() implies unique_files(#[trigger] d[k].input_files) by {
                    if k < acc.len() {
                        assert(d[k] == acc[k]);
                    }
                }
            },
            Some(i0) => {
                lemma_append_new_unique(acc[i0].input_files, t.input_files);
                let d = dedup_step(acc, t);
                assert forall|k: int|
                    0 <= k < d.len() implies unique_files(#[trigger] d[k].input_files) by {
                    if k != i0 {
                        assert(d[k] == acc[k]);
                    }
                }
            },
        }
    }
}

proof fn lemma_dedup_of_clean(s: Seq<TargetView>)
    requires
        unique_keys(s),
        entries_files_unique(s),
    ensures
        dedup_spec(s) == s,
    decreases s.len(),
{
    if s.len() > 0 {
        assert(unique_keys(s.drop_last()) && entries_files_unique(s.drop_last())) by {
            assert forall|i: int, j: int|
                0 <= i < j < s.drop_last().len() implies !key_match(
                s.drop_last()[i],
                s.drop_last()[j],
            ) by {
                assert(!key_match(s[i], s[j]));
            }
            assert forall|k: int|
                0 <= k < s.drop_last().len() implies unique_files(
                #[trigger] s.drop_last()[k].input_files,
            ) by {
                assert(unique_files(s[k].input_files));
            }
        }
        lemma_dedup_of_clean(s.drop_last());
        let acc = s.drop_last();
        let t = s.last();
        lemma_find_key_from(acc, t, 0);
        match find_key_idx(acc, t, 0) {
            Some(i0) => {
                assert(acc[i0] == s[i0] && i0 < s.len() - 1);
                assert(key_match(s[i0], s[s.len() - 1]));
                assert(false);
            },
            None => {
                assert(unique_files(t.input_files));
                lemma_append_new_id(t.input_files);
                let e = dedup_step(acc, t).last();
                assert(e =~= t);
                assert(dedup_step(acc, t) =~= s);
            },
        }
    }
}

/// Deduplication is idempotent: collapsing an already collapsed list
/// changes nothing.
pub proof fn lemma_dedup_idempotent(ts: Seq<TargetView>)
    ensures
        dedup_spec(dedup_spec(ts)) == dedup_spec(ts),
{
    lemma_dedup_unique_keys(ts);
    lemma_dedup_files_unique(ts);
    lemma_dedup_of_clean(dedup_spec(ts));
}

/// Resolution is a pure function of the document and configuration: two
/// resolutions of the same inputs give target lists equal outright, so in
/// particular equal as `(uri, id)`-keyed sets.
pub proof fn lemma_resolution_deterministic(
    q1: Seq<Action>,
    q2: Seq<Action>,
    artifacts: Map<u32, Artifact>,
    files: Map<u32, DepSetOfFiles>,
    fragments: Map<u32, PathFragment>,
    targets: Seq<Target>,
    root: Seq<char>,
    sdk: Seq<char>,
    xr: Seq<char>,
    inc: Seq<Seq<char>>,
    fw: Seq<Seq<char>>,
)
    requires
        q1 == q2,
    ensures
        dedup_spec(raw_targets(q1, artifacts, files, fragments, targets, root, sdk, xr, inc, fw))
            == dedup_spec(
            raw_targets(q2, artifacts, files, fragments, targets, root, sdk, xr, inc, fw),
        ),
{
}

} // verus!
