//! The action-graph query document and its id-indexed lookup tables.
//!
//! The document mirrors the build tool's analysis schema: flat arrays whose
//! elements cross-reference one another by small integer ids. Every id a
//! consumer follows must exist in its table; a dangling reference is a
//! resolution error, never a panic.

use vstd::prelude::*;
use std::collections::HashMap;
use crate::error::BSPError;
use vstd::string::StringExecFns;

verus! {

broadcast use vstd::std_specs::hash::group_hash_axioms;

#[derive(Debug, Clone, Copy, PartialEq, Eq, Structural)]
pub struct Artifact {
    pub id: u32,
    pub path_fragment_id: u32,
    pub is_tree_artifact: Option<bool>,
}

#[derive(Debug)]
pub struct PathFragment {
    pub id: u32,
    pub label: String,
    pub parent_id: Option<u32>,
}

#[derive(Debug)]
pub struct DepSetOfFiles {
    pub id: u32,
    pub direct_artifact_ids: Option<Vec<u32>>,
    pub transitive_dep_set_ids: Option<Vec<u32>>,
}

#[derive(Debug)]
pub struct EnvironmentVariable {
    pub key: String,
    pub value: String,
}

#[derive(Debug)]
pub struct Action {
    pub target_id: u32,
    pub action_key: String,
    pub mnemonic: String,
    pub configuration_id: u32,
    pub arguments: Vec<String>,
    pub environment_variables: Vec<EnvironmentVariable>,
    pub input_dep_set_ids: Vec<u32>,
}

#[derive(Debug)]
pub struct Target {
    pub id: u32,
    pub label: String,
    pub rule_class_id: u32,
}

#[derive(Debug)]
pub struct RuleClass {
    pub id: u32,
    pub name: String,
}

#[derive(Debug)]
pub struct QueryResult {
    pub artifacts: Vec<Artifact>,
    pub actions: Vec<Action>,
    pub targets: Vec<Target>,
    pub rule_classes: Vec<RuleClass>,
    pub dep_set_of_files: Vec<DepSetOfFiles>,
    pub path_fragments: Vec<PathFragment>,
}

impl Clone for PathFragment {
    fn clone(&self) -> (r: Self)
        ensures
            r.id == self.id && r.label@ == self.label@ && r.parent_id == self.parent_id,
    {
        PathFragment { id: self.id, label: self.label.clone(), parent_id: self.parent_id }
    }
}

/// The id-keyed table of a flat array; on a repeated id the later entry wins.
pub open spec fn artifact_table_of(s: Seq<Artifact>) -> Map<u32, Artifact>
    decreases s.len(),
{
    if s.len() == 0 {
        Map::empty()
    } else {
        artifact_table_of(s.drop_last()).insert(s.last().id, s.last())
    }
}

pub open spec fn depset_table_of(s: Seq<DepSetOfFiles>) -> Map<u32, DepSetOfFiles>
    decreases s.len(),
{
    if s.len() == 0 {
        Map::empty()
    } else {
        depset_table_of(s.drop_last()).insert(s.last().id, s.last())
    }
}

pub open spec fn fragment_table_of(s: Seq<PathFragment>) -> Map<u32, PathFragment>
    decreases s.len(),
{
    if s.len() == 0 {
        Map::empty()
    } else {
        fragment_table_of(s.drop_last()).insert(s.last().id, s.last())
    }
}

/// Index the artifact array by id.
pub fn artifact_table(v: Vec<Artifact>) -> (m: HashMap<u32, Artifact>)
    ensures
        m@ == artifact_table_of(v@),
{
    let ghost orig = v@;
    let mut m: HashMap<u32, Artifact> = HashMap::new();
    let mut i: usize = 0;
    proof {
        assert(orig.take(0) =~= Seq::<Artifact>::empty());
    }
    while i < v.len()
        invariant
            i <= orig.len(),
            v@ == orig,
            m@ == artifact_table_of(orig.take(i as int)),
        decreases orig.len() - i,
    {
        let a = v[i];
        m.insert(a.id, a);
        proof {
            assert(orig.take(i + 1).drop_last() =~= orig.take(i as int));
        }
        i = i + 1;
    }
    proof {
        assert(orig.take(orig.len() as int) =~= orig);
    }
    m
}

/// Index the depset array by id.
pub fn depset_table(v: Vec<DepSetOfFiles>) -> (m: HashMap<u32, DepSetOfFiles>)
    ensures
        m@ == depset_table_of(v@),
{
    let ghost orig = v@;
    let mut v = v;
    let mut m: HashMap<u32, DepSetOfFiles> = HashMap::new();
    proof {
        assert(orig.take(0) =~= Seq::<DepSetOfFiles>::empty());
        assert(orig.skip(0) =~= orig);
    }
    while v.len() > 0
        invariant
            v@.len() <= orig.len(),
            v@ == orig.skip(orig.len() - v@.len()),
            m@ == depset_table_of(orig.take(orig.len() - v@.len())),
        decreases v@.len(),
    {
        let ghost k = orig.len() - v@.len();
        let x = v.remove(0);
        m.insert(x.id, x);
        proof {
            assert(x == orig[k]);
            assert(v@ =~= orig.skip(k + 1));
            assert(orig.take(k + 1).drop_last() =~= orig.take(k));
            assert(orig.take(k + 1).last() == orig[k]);
        }
    }
    proof {
        assert(orig.take(orig.len() as int) =~= orig);
    }
    m
}

/// Index the path-fragment array by id.
pub fn fragment_table(v: Vec<PathFragment>) -> (m: HashMap<u32, PathFragment>)
    ensures
        m@ == fragment_table_of(v@),
{
    let ghost orig = v@;
    let mut v = v;
    let mut m: HashMap<u32, PathFragment> = HashMap::new();
    proof {
        assert(orig.take(0) =~= Seq::<PathFragment>::empty());
        assert(orig.skip(0) =~= orig);
    }
    while v.len() > 0
        invariant
            v@.len() <= orig.len(),
            v@ == orig.skip(orig.len() - v@.len()),
            m@ == fragment_table_of(orig.take(orig.len() - v@.len())),
        decreases v@.len(),
    {
        let ghost k = orig.len() - v@.len();
        let x = v.remove(0);
        m.insert(x.id, x);
        proof {
            assert(x == orig[k]);
            assert(v@ =~= orig.skip(k + 1));
            assert(orig.take(k + 1).drop_last() =~= orig.take(k));
            assert(orig.take(k + 1).last() == orig[k]);
        }
    }
    proof {
        assert(orig.take(orig.len() as int) =~= orig);
    }
    m
}

/// The artifact ids a depset lists directly.
pub open spec fn direct_of(fs: DepSetOfFiles) -> Seq<u32> {
    match fs.direct_artifact_ids {
        Some(v) => v@,
        None => Seq::<u32>::empty(),
    }
}

/// The depset ids a depset references transitively.
pub open spec fn trans_of(fs: DepSetOfFiles) -> Seq<u32> {
    match fs.transitive_dep_set_ids {
        Some(v) => v@,
        None => Seq::<u32>::empty(),
    }
}

/// Every transitively referenced depset exists and lists direct artifacts.
pub open spec fn trans_ok(fs: DepSetOfFiles, files: Map<u32, DepSetOfFiles>) -> bool {
    forall|j: int|
        0 <= j < trans_of(fs).len() ==> {
            &&& files.contains_key(#[trigger] trans_of(fs)[j])
            &&& files[trans_of(fs)[j]].direct_artifact_ids is Some
        }
}

/// The direct ids of the depsets named by `ids`, in order.
pub open spec fn trans_concat(ids: Seq<u32>, files: Map<u32, DepSetOfFiles>) -> Seq<u32>
    decreases ids.len(),
{
    if ids.len() == 0 {
        Seq::<u32>::empty()
    } else {
        trans_concat(ids.drop_last(), files) + direct_of(files[ids.last()])
    }
}

/// One-level flattening of a depset: its direct ids, then the direct ids of
/// each depset it references transitively. References held by those
/// referenced depsets are deliberately not followed further.
pub open spec fn flatten_ids(fs: DepSetOfFiles, files: Map<u32, DepSetOfFiles>) -> Seq<u32> {
    direct_of(fs) + trans_concat(trans_of(fs), files)
}

/// Flatten one depset to artifact ids, one transitive level deep.
pub fn build_artifact_ids(file_set: &DepSetOfFiles, files: &HashMap<u32, DepSetOfFiles>) -> (r:
    Result<Vec<u32>, BSPError>)
    ensures
        match r {
            Ok(v) => trans_ok(*file_set, files@) && v@ == flatten_ids(*file_set, files@),
            Err(e) => !trans_ok(*file_set, files@) && e is Resolution,
        },
{
    let mut out: Vec<u32> = Vec::new();
    match &file_set.direct_artifact_ids {
        Some(direct) => {
            let mut i: usize = 0;
            proof {
                assert(direct@.take(0) =~= Seq::<u32>::empty());
                assert(out@ =~= direct@.take(0));
            }
            while i < direct.len()
                invariant
                    i <= direct@.len(),
                    direct@ == direct_of(*file_set),
                    out@ == direct@.take(i as int),
                decreases direct@.len() - i,
            {
                let x = direct[i];
                out.push(x);
                proof {
                    assert(direct@.take(i + 1) =~= direct@.take(i as int) + seq![direct@[i as int]]);
                }
                i = i + 1;
            }
            proof {
                assert(direct@.take(direct@.len() as int) =~= direct@);
            }
        },
        None => {
            proof {
                assert(out@ =~= direct_of(*file_set));
            }
        },
    }
    proof {
        assert(out@ == direct_of(*file_set));
    }
    match &file_set.transitive_dep_set_ids {
        None => {
            proof {
                assert(trans_of(*file_set) =~= Seq::<u32>::empty());
                assert(out@ =~= flatten_ids(*file_set, files@));
            }
            Ok(out)
        },
        Some(trans) => {
            let mut j: usize = 0;
            while j < trans.len()
                invariant
                    j <= trans@.len(),
                    trans@ == trans_of(*file_set),
                    out@ == direct_of(*file_set) + trans_concat(trans@.take(j as int), files@),
                    forall|k: int|
                        0 <= k < j ==> {
                            &&& files@.contains_key(#[trigger] trans@[k])
                            &&& files@[trans@[k]].direct_artifact_ids is Some
                        },
                decreases trans@.len() - j,
            {
                let tid = trans[j];
                match files.get(&tid) {
                    None => {
                        return Err(
                            BSPError::Resolution(
                                String::from_str("transitive dep set id not found"),
                            ),
                        );
                    },
                    Some(fs2) => {
                        match &fs2.direct_artifact_ids {
                            None => {
                                return Err(
                                    BSPError::Resolution(
                                        String::from_str(
                                            "transitive dep set lists no direct artifacts",
                                        ),
                                    ),
                                );
                            },
                            Some(d2) => {
                                let ghost out_prev = out@;
                                let mut i: usize = 0;
                                while i < d2.len()
                                    invariant
                                        i <= d2@.len(),
                                        d2@ == direct_of(files@[trans@[j as int]]),
                                        out@ == out_prev + d2@.take(i as int),
                                    decreases d2@.len() - i,
                                {
                                    let x = d2[i];
                                    out.push(x);
                                    proof {
                                        assert(d2@.take(i + 1) =~= d2@.take(i as int) + seq![
                                            d2@[i as int],
                                        ]);
                                        assert(out@ =~= out_prev + d2@.take(i + 1));
                                    }
                                    i = i + 1;
                                }
                                proof {
                                    assert(d2@.take(d2@.len() as int) =~= d2@);
                                    assert(trans@.take(j + 1).drop_last() =~= trans@.take(
                                        j as int,
                                    ));
                                    assert(trans@.take(j + 1).last() == trans@[j as int]);
                                    assert(out@ =~= direct_of(*file_set) + trans_concat(
                                        trans@.take(j + 1),
                                        files@,
                                    ));
                                }
                            },
                        }
                    },
                }
                j = j + 1;
            }
            proof {
                assert(trans@.take(trans@.len() as int) =~= trans@);
            }
            Ok(out)
        },
    }
}

/// The project-relative path of a fragment: the labels from the root down
/// to it, joined by `/`. `fuel` bounds how many parent links may be
/// followed; a dangling parent id or an over-long (cyclic) chain gives
/// nothing.
pub open spec fn path_of(
    fragments: Map<u32, PathFragment>,
    f: PathFragment,
    fuel: nat,
) -> Option<Seq<char>>
    decreases fuel,
{
    match f.parent_id {
        None => Some(f.label@),
        Some(pid) => {
            if fuel == 0 {
                None
            } else if !fragments.contains_key(pid) {
                None
            } else {
                match path_of(fragments, fragments[pid], (fuel - 1) as nat) {
                    None => None,
                    Some(p) => Some(p + seq!['/'] + f.label@),
                }
            }
        },
    }
}

fn build_file_path_rec(fragments: &HashMap<u32, PathFragment>, f: &PathFragment, fuel: usize) -> (r:
    Option<String>)
    ensures
        match r {
            Some(s) => path_of(fragments@, *f, fuel as nat) == Some(s@),
            None => path_of(fragments@, *f, fuel as nat) is None,
        },
    decreases fuel,
{
    match &f.parent_id {
        None => Some(f.label.clone()),
        Some(pid) => {
            if fuel == 0 {
                return None;
            }
            match fragments.get(pid) {
                None => None,
                Some(parent) => {
                    match build_file_path_rec(fragments, parent, fuel - 1) {
                        None => None,
                        Some(p) => {
                            let mut s = p;
                            s.append("/");
                            s.append(f.label.as_str());
                            proof {
                                reveal_strlit("/");
                                assert("/"@ =~= seq!['/']);
                            }
                            Some(s)
                        },
                    }
                },
            }
        },
    }
}

/// Reconstruct the relative path of `leaf` by walking its parent chain up
/// to the root. The fragment table's size bounds the walk, so a cyclic
/// chain is reported as an error instead of being followed forever.
pub fn build_file_path(fragments: &HashMap<u32, PathFragment>, leaf: &PathFragment) -> (r: Result<
    String,
    BSPError,
>)
    ensures
        match r {
            Ok(s) => path_of(fragments@, *leaf, fragments@.len()) == Some(s@),
            Err(e) => path_of(fragments@, *leaf, fragments@.len()) is None && e is Resolution,
        },
{
    let fuel = fragments.len();
    match build_file_path_rec(fragments, leaf, fuel) {
        Some(s) => Ok(s),
        None => Err(BSPError::Resolution(String::from_str("path fragment chain unresolved"))),
    }
}

/// An artifact id resolves: it exists, its path fragment exists, and the
/// fragment's parent chain reaches a root.
pub open spec fn aid_ok(
    aid: u32,
    artifacts: Map<u32, Artifact>,
    fragments: Map<u32, PathFragment>,
) -> bool {
    &&& artifacts.contains_key(aid)
    &&& fragments.contains_key(artifacts[aid].path_fragment_id)
    &&& path_of(fragments, fragments[artifacts[aid].path_fragment_id], fragments.len()) is Some
}

pub open spec fn ids_ok(
    aids: Seq<u32>,
    artifacts: Map<u32, Artifact>,
    fragments: Map<u32, PathFragment>,
) -> bool {
    forall|j: int| 0 <= j < aids.len() ==> aid_ok(#[trigger] aids[j], artifacts, fragments)
}

/// The reconstructed path of one artifact id.
pub open spec fn path_of_aid(
    aid: u32,
    artifacts: Map<u32, Artifact>,
    fragments: Map<u32, PathFragment>,
) -> Seq<char> {
    path_of(fragments, fragments[artifacts[aid].path_fragment_id], fragments.len())->Some_0
}

pub open spec fn paths_of_ids(
    aids: Seq<u32>,
    artifacts: Map<u32, Artifact>,
    fragments: Map<u32, PathFragment>,
) -> Seq<Seq<char>>
    decreases aids.len(),
{
    if aids.len() == 0 {
        Seq::<Seq<char>>::empty()
    } else {
        paths_of_ids(aids.drop_last(), artifacts, fragments) + seq![
            path_of_aid(aids.last(), artifacts, fragments),
        ]
    }
}

/// A depset id resolves through flattening down to every artifact path.
pub open spec fn set_ok(
    dsid: u32,
    artifacts: Map<u32, Artifact>,
    files: Map<u32, DepSetOfFiles>,
    fragments: Map<u32, PathFragment>,
) -> bool {
    &&& files.contains_key(dsid)
    &&& trans_ok(files[dsid], files)
    &&& ids_ok(flatten_ids(files[dsid], files), artifacts, fragments)
}

pub open spec fn sets_ok(
    dsids: Seq<u32>,
    artifacts: Map<u32, Artifact>,
    files: Map<u32, DepSetOfFiles>,
    fragments: Map<u32, PathFragment>,
) -> bool {
    forall|j: int|
        0 <= j < dsids.len() ==> set_ok(#[trigger] dsids[j], artifacts, files, fragments)
}

pub open spec fn inputs_of_sets(
    dsids: Seq<u32>,
    artifacts: Map<u32, Artifact>,
    files: Map<u32, DepSetOfFiles>,
    fragments: Map<u32, PathFragment>,
) -> Seq<Seq<char>>
    decreases dsids.len(),
{
    if dsids.len() == 0 {
        Seq::<Seq<char>>::empty()
    } else {
        inputs_of_sets(dsids.drop_last(), artifacts, files, fragments) + paths_of_ids(
            flatten_ids(files[dsids.last()], files),
            artifacts,
            fragments,
        )
    }
}

/// All input paths of an action, depset by depset, in document order.
pub open spec fn action_input_paths(
    action: Action,
    artifacts: Map<u32, Artifact>,
    files: Map<u32, DepSetOfFiles>,
    fragments: Map<u32, PathFragment>,
) -> Seq<Seq<char>> {
    inputs_of_sets(action.input_dep_set_ids@, artifacts, files, fragments)
}

fn paths_for_ids(
    aids: &Vec<u32>,
    artifacts: &HashMap<u32, Artifact>,
    fragments: &HashMap<u32, PathFragment>,
) -> (r: Result<Vec<String>, BSPError>)
    ensures
        match r {
            Ok(v) => ids_ok(aids@, artifacts@, fragments@) && v@.map_values(|s: String| s@)
                == paths_of_ids(aids@, artifacts@, fragments@),
            Err(e) => !ids_ok(aids@, artifacts@, fragments@) && e is Resolution,
        },
{
    let mut out: Vec<String> = Vec::new();
    let mut i: usize = 0;
    proof {
        assert(out@.map_values(|s: String| s@) =~= paths_of_ids(
            aids@.take(0),
            artifacts@,
            fragments@,
        ));
    }
    while i < aids.len()
        invariant
            i <= aids@.len(),
            forall|k: int| 0 <= k < i ==> aid_ok(#[trigger] aids@[k], artifacts@, fragments@),
            out@.map_values(|s: String| s@) == paths_of_ids(
                aids@.take(i as int),
                artifacts@,
                fragments@,
            ),
        decreases aids@.len() - i,
    {
        let aid = aids[i];
        match artifacts.get(&aid) {
            None => {
                return Err(BSPError::Resolution(String::from_str("artifact id not found")));
            },
            Some(a) => {
                match fragments.get(&a.path_fragment_id) {
                    None => {
                        return Err(
                            BSPError::Resolution(String::from_str("path fragment id not found")),
                        );
                    },
                    Some(leaf) => {
                        match build_file_path(fragments, leaf) {
                            Err(e) => {
                                return Err(e);
                            },
                            Ok(s) => {
                                let ghost prev = out@;
                                out.push(s);
                                proof {
                                    assert(aids@.take(i + 1).drop_last() =~= aids@.take(i as int));
                                    assert(aids@.take(i + 1).last() == aids@[i as int]);
                                    assert(out@.map_values(|s: String| s@) =~= prev.map_values(
                                        |s: String| s@,
                                    ) + seq![path_of_aid(aids@[i as int], artifacts@, fragments@)]);
                                }
                            },
                        }
                    },
                }
            },
        }
        i = i + 1;
    }
    proof {
        assert(aids@.take(aids@.len() as int) =~= aids@);
    }
    Ok(out)
}

/// Every input file path of one action: each of its depsets is flattened
/// one transitive level deep and each artifact's fragment chain is walked
/// to the root. Any dangling id is a resolution error.
pub fn build_input_files(
    artifacts: &HashMap<u32, Artifact>,
    files: &HashMap<u32, DepSetOfFiles>,
    fragments: &HashMap<u32, PathFragment>,
    action: &Action,
) -> (r: Result<Vec<String>, BSPError>)
    ensures
        match r {
            Ok(v) => sets_ok(action.input_dep_set_ids@, artifacts@, files@, fragments@)
                && v@.map_values(|s: String| s@) == action_input_paths(
                *action,
                artifacts@,
                files@,
                fragments@,
            ),
            Err(e) => !sets_ok(action.input_dep_set_ids@, artifacts@, files@, fragments@)
                && e is Resolution,
        },
{
    let dsids = &action.input_dep_set_ids;
    let mut out: Vec<String> = Vec::new();
    let mut j: usize = 0;
    proof {
        assert(out@.map_values(|s: String| s@) =~= inputs_of_sets(
            dsids@.take(0),
            artifacts@,
            files@,
            fragments@,
        ));
    }
    while j < dsids.len()
        invariant
            j <= dsids@.len(),
            dsids@ == action.input_dep_set_ids@,
            forall|k: int|
                0 <= k < j ==> set_ok(#[trigger] dsids@[k], artifacts@, files@, fragments@),
            out@.map_values(|s: String| s@) == inputs_of_sets(
                dsids@.take(j as int),
                artifacts@,
                files@,
                fragments@,
            ),
        decreases dsids@.len() - j,
    {
        let dsid = dsids[j];
        match files.get(&dsid) {
            None => {
                return Err(BSPError::Resolution(String::from_str("input dep set id not found")));
            },
            Some(fs) => {
                let aids = match build_artifact_ids(fs, files) {
                    Err(e) => {
                        return Err(e);
                    },
                    Ok(v) => v,
                };
                let mut part = match paths_for_ids(&aids, artifacts, fragments) {
                    Err(e) => {
                        return Err(e);
                    },
                    Ok(v) => v,
                };
                let ghost prev = out@;
                let ghost part_snap = part@;
                out.append(&mut part);
                proof {
                    assert(dsids@.take(j + 1).drop_last() =~= dsids@.take(j as int));
                    assert(dsids@.take(j + 1).last() == dsids@[j as int]);
                    assert((prev + part_snap).map_values(|s: String| s@) =~= prev.map_values(
                        |s: String| s@,
                    ) + part_snap.map_values(|s: String| s@));
                }
            },
        }
        j = j + 1;
    }
    proof {
        assert(dsids@.take(dsids@.len() as int) =~= dsids@);
    }
    Ok(out)
}

/// Membership in the concatenation of two id lists, as sets.
proof fn lemma_concat_to_set(a: Seq<u32>, b: Seq<u32>)
    ensures
        (a + b).to_set() == a.to_set().union(b.to_set()),
{
    assert forall|x: u32| #[trigger]
        (a + b).to_set().contains(x) implies a.to_set().contains(x) || b.to_set().contains(
        x,
    ) by {
        let i = choose|i: int| 0 <= i < (a + b).len() && (a + b)[i] == x;
        if i < a.len() {
            assert(a[i] == x);
        } else {
            assert(b[i - a.len()] == x);
        }
    }
    assert forall|x: u32|
        a.to_set().contains(x) || b.to_set().contains(x) implies #[trigger] (
    a + b).to_set().contains(x) by {
        if a.to_set().contains(x) {
            let i = choose|i: int| 0 <= i < a.len() && a[i] == x;
            assert((a + b)[i] == x);
        } else {
            let i = choose|i: int| 0 <= i < b.len() && b[i] == x;
            assert((a + b)[a.len() + i] == x);
        }
    }
    assert((a + b).to_set() =~= a.to_set().union(b.to_set()));
}

/// The ids contributed by the transitive references, as a set.
pub open spec fn trans_union(ids: Seq<u32>, files: Map<u32, DepSetOfFiles>) -> Set<u32>
    decreases ids.len(),
{
    if ids.len() == 0 {
        Set::<u32>::empty()
    } else {
        trans_union(ids.drop_last(), files).union(direct_of(files[ids.last()]).to_set())
    }
}

proof fn lemma_trans_concat_to_set(ids: Seq<u32>, files: Map<u32, DepSetOfFiles>)
    ensures
        trans_concat(ids, files).to_set() == trans_union(ids, files),
    decreases ids.len(),
{
    if ids.len() == 0 {
        assert(trans_concat(ids, files).to_set() =~= trans_union(ids, files));
    } else {
        lemma_trans_concat_to_set(ids.drop_last(), files);
        lemma_concat_to_set(trans_concat(ids.drop_last(), files), direct_of(files[ids.last()]));
    }
}

/// Seen as a set, a flattened depset holds exactly its own direct ids plus
/// the direct ids of each depset it references transitively: order and
/// duplicates do not matter.
pub proof fn lemma_flatten_ids_set(fs: DepSetOfFiles, files: Map<u32, DepSetOfFiles>)
    ensures
        flatten_ids(fs, files).to_set() == direct_of(fs).to_set().union(
            trans_union(trans_of(fs), files),
        ),
{
    lemma_concat_to_set(direct_of(fs), trans_concat(trans_of(fs), files));
    lemma_trans_concat_to_set(trans_of(fs), files);
}

} // verus!
