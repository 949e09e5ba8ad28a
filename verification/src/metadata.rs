//! From a resolved package graph to the list of the root package's direct
//! dependencies, sorted by name.

use crate::dependency::{Dependency, DependencyView};
use crate::features::{
    among, lemma_filter_ascending, lemma_sorted_set, not_among, sorted_features, sorted_set,
    split_features, texts,
};
use crate::sorting::{lemma_insert_keeps_order, stably_sorted};
use crate::text::{lex_le, str_eq, str_le};
use crate::version::{
    is_version, is_version_text, requirement_admits, requirement_text_admits, version_exceeds,
    version_text_exceeds,
};
use vstd::prelude::*;
use vstd::string::*;

verus! {

/// A package of the resolved graph.
#[derive(Debug, Clone, PartialEq, Eq)]
pub struct Package {
    pub name: String,
    /// The package's version, as text.
    pub version: String,
    /// The names of the features that the package declares, in any order.
    pub features: Vec<String>,
}

/// How the manifest classes a dependency.
#[derive(Debug, Clone, Copy, PartialEq, Eq, Structural)]
pub enum DependencyKind {
    Normal,
    Development,
    Build,
    Unknown,
}

/// A dependency that the root package declares.
#[derive(Debug, Clone, PartialEq, Eq)]
pub struct Edge {
    pub name: String,
    /// The version requirement, as text.
    pub req: String,
    pub kind: DependencyKind,
    /// The target that the dependency is bound to, if any.
    pub target: Option<String>,
    /// The features that the edge asks for.
    pub features: Vec<String>,
}

/// The resolved graph: what the root package declares, and every package.
#[derive(Debug, Clone, PartialEq, Eq)]
pub struct Graph {
    /// The root package's dependencies; `None` where the graph has no root.
    pub root_dependencies: Option<Vec<Edge>>,
    /// Every resolved package, in the order the resolver listed them.
    pub packages: Vec<Package>,
}

/// Why no list could be made.
#[derive(Debug, Clone, PartialEq, Eq)]
pub enum LoadError {
    /// The graph has no root package.
    MissingRootPackage,
    /// No package has this edge's name and a version that its requirement
    /// admits.
    UnresolvedDependency(String),
}

/// A package answers an edge when it has the edge's name and the edge's
/// requirement is known to admit its version.
pub open spec fn accepts(same_name: bool, admits: Option<bool>) -> bool {
    same_name && admits == Some(true)
}

/// Whether the package answers the edge.
pub open spec fn satisfies(edge: Edge, package: Package) -> bool {
    accepts(
        package.name@ == edge.name@,
        requirement_text_admits(edge.req@, package.version@),
    )
}

/// `i` is the first package, in the resolver's order, that answers the edge.
pub open spec fn first_match(edge: Edge, packages: Seq<Package>, i: int) -> bool {
    &&& 0 <= i < packages.len()
    &&& satisfies(edge, packages[i])
    &&& forall|j: int| 0 <= j < i ==> !satisfies(edge, #[trigger] packages[j])
}

/// Some package answers the edge.
pub open spec fn resolvable(edge: Edge, packages: Seq<Package>) -> bool {
    exists|i: int| 0 <= i < packages.len() && satisfies(edge, #[trigger] packages[i])
}

/// The first package that answers the edge.
pub open spec fn locked_index(edge: Edge, packages: Seq<Package>) -> int {
    choose|i: int| first_match(edge, packages, i)
}

/// An index as a value of the logic.
pub open spec fn position(index: Option<usize>) -> Option<int> {
    match index {
        Some(i) => Some(i as int),
        None => None,
    }
}

/// The leader after one more package was looked at: a package that is no
/// candidate changes nothing; a candidate takes the lead unless the leader's
/// version is known to exceed it.
pub open spec fn leader_after(
    leader: Option<int>,
    index: int,
    is_candidate: bool,
    leader_exceeds: Option<bool>,
) -> Option<int> {
    if !is_candidate {
        leader
    } else if leader is Some && leader_exceeds == Some(true) {
        leader
    } else {
        Some(index)
    }
}

/// A package counts for a name when it has that name and its version text
/// is a version.
pub open spec fn is_candidate(name: Seq<char>, package: Package) -> bool {
    package.name@ == name && is_version_text(package.version@)
}

/// The package with the greatest version among those that count for the
/// given name; of several equally great, the last.
pub open spec fn latest_index(name: Seq<char>, packages: Seq<Package>) -> Option<int>
    decreases packages.len(),
{
    if packages.len() == 0 {
        None
    } else {
        let leader = latest_index(name, packages.drop_last());
        let candidate = packages.last();
        leader_after(
            leader,
            packages.len() - 1,
            is_candidate(name, candidate),
            match leader {
                Some(b) => version_text_exceeds(packages[b].version@, candidate.version@),
                None => None,
            },
        )
    }
}

/// The greatest version of the given name, as text; a question mark where
/// no package of that name has a version.
pub open spec fn latest_text(name: Seq<char>, packages: Seq<Package>) -> Seq<char> {
    match latest_index(name, packages) {
        Some(i) => packages[i].version@,
        None => "?"@,
    }
}

/// The word for a manifest class.
pub open spec fn kind_label(kind: DependencyKind) -> Seq<char> {
    match kind {
        DependencyKind::Normal => "normal"@,
        DependencyKind::Development => "dev"@,
        DependencyKind::Build => "build"@,
        DependencyKind::Unknown => "unknown"@,
    }
}

/// The kind of an edge: its target where it is bound to one, whatever its
/// class; the word for its class otherwise.
pub open spec fn edge_kind(edge: Edge) -> Seq<char> {
    match edge.target {
        Some(t) => "target("@ + t@ + ")"@,
        None => kind_label(edge.kind),
    }
}

/// The record of an edge that some package answers.
pub open spec fn record(edge: Edge, packages: Seq<Package>) -> DependencyView {
    let locked = packages[locked_index(edge, packages)];
    let all = sorted_set(texts(locked.features@));
    DependencyView {
        name: edge.name@,
        version: latest_text(edge.name@, packages),
        locked_version: Some(locked.version@),
        kind: edge_kind(edge),
        enabled_features: all.filter(among(texts(edge.features@))),
        disabled_features: all.filter(not_among(texts(edge.features@))),
        all_features: all,
    }
}

/// The records of the edges, in the order of the edges.
pub open spec fn records(edges: Seq<Edge>, packages: Seq<Package>) -> Seq<DependencyView> {
    Seq::new(edges.len(), |k: int| record(edges[k], packages))
}

/// What a list of dependencies holds.
pub open spec fn views(deps: Seq<Dependency>) -> Seq<DependencyView> {
    deps.map_values(|d: Dependency| d@)
}

/// `k` is the first edge that no package answers.
pub open spec fn first_unresolved(edges: Seq<Edge>, packages: Seq<Package>, k: int) -> bool {
    &&& 0 <= k < edges.len()
    &&& !resolvable(edges[k], packages)
    &&& forall|j: int| 0 <= j < k ==> resolvable(#[trigger] edges[j], packages)
}

/// The first match is the only one of its kind.
pub proof fn lemma_locked_index(edge: Edge, packages: Seq<Package>, i: int)
    requires
        first_match(edge, packages, i),
    ensures
        locked_index(edge, packages) == i,
        resolvable(edge, packages),
{
    let c = locked_index(edge, packages);
    assert(first_match(edge, packages, c));
    if c < i {
        assert(!satisfies(edge, packages[c]));
    }
    if i < c {
        assert(!satisfies(edge, packages[i]));
    }
}

/// The package that leads counts for the name, and its version exceeds
/// that of every later package that counts; none leads only where none
/// counts.
pub proof fn lemma_latest_index(name: Seq<char>, packages: Seq<Package>)
    ensures
        match latest_index(name, packages) {
            Some(i) => {
                &&& 0 <= i < packages.len()
                &&& is_candidate(name, packages[i])
                &&& forall|j: int|
                    i < j < packages.len() && is_candidate(name, #[trigger] packages[j])
                        ==> version_text_exceeds(packages[i].version@, packages[j].version@)
                        == Some(true)
            },
            None => forall|j: int|
                0 <= j < packages.len() ==> !is_candidate(name, #[trigger] packages[j]),
        },
    decreases packages.len(),
{
    if packages.len() > 0 {
        let front = packages.drop_last();
        lemma_latest_index(name, front);
        assert forall|j: int| 0 <= j < front.len() implies front[j] == packages[j] by {}
        match latest_index(name, packages) {
            Some(i) => {
                assert forall|j: int|
                    i < j < packages.len() && is_candidate(
                        name,
                        #[trigger] packages[j],
                    ) implies version_text_exceeds(packages[i].version@, packages[j].version@)
                    == Some(true) by {
                    if j < front.len() {
                        assert(front[j] == packages[j]);
                    }
                }
            },
            None => {
                assert forall|j: int| 0 <= j < packages.len() implies !is_candidate(
                    name,
                    #[trigger] packages[j],
                ) by {
                    if j < front.len() {
                        assert(front[j] == packages[j]);
                    }
                }
            },
        }
    }
}

/// In the record of an edge that some package answers, a version is locked
/// and the enabled and the disabled features are each strictly ascending,
/// share no entry, and together are the declared features.
pub proof fn lemma_record_partitions_features(edge: Edge, packages: Seq<Package>)
    ensures
        record(edge, packages).features_partitioned(),
        record(edge, packages).locked_version is Some,
{
    let locked = packages[locked_index(edge, packages)];
    let all = sorted_set(texts(locked.features@));
    let asked = texts(edge.features@);
    lemma_sorted_set(texts(locked.features@));
    lemma_filter_ascending(all, among(asked));
    lemma_filter_ascending(all, not_among(asked));
}

/// Whether a package answers an edge, given whether their names agree and
/// what the requirement says of the package's version.
pub fn edge_accepts(same_name: bool, admits: Option<bool>) -> (r: bool)
    ensures
        r == accepts(same_name, admits),
{
    same_name && match admits {
        Some(yes) => yes,
        None => false,
    }
}

/// The leader after one more package, given whether that package is a
/// candidate and whether the leader's version exceeds its version.
pub fn next_leader(
    leader: Option<usize>,
    index: usize,
    is_candidate: bool,
    leader_exceeds: Option<bool>,
) -> (r: Option<usize>)
    ensures
        position(r) == leader_after(position(leader), index as int, is_candidate, leader_exceeds),
{
    if !is_candidate {
        return leader;
    }
    match (leader, leader_exceeds) {
        (Some(b), Some(true)) => Some(b),
        _ => Some(index),
    }
}

/// The first package that answers the edge, if any does.
pub fn find_locked(edge: &Edge, packages: &Vec<Package>) -> (r: Option<usize>)
    ensures
        match r {
            Some(i) => first_match(*edge, packages@, i as int),
            None => !resolvable(*edge, packages@),
        },
{
    let mut i: usize = 0;
    while i < packages.len()
        invariant
            i <= packages.len(),
            forall|j: int| 0 <= j < i ==> !satisfies(*edge, #[trigger] packages@[j]),
        decreases packages.len() - i,
    {
        let package = &packages[i];
        let same_name = str_eq(package.name.as_str(), edge.name.as_str());
        let admits = requirement_admits(edge.req.as_str(), package.version.as_str());
        if edge_accepts(same_name, admits) {
            return Some(i);
        }
        i += 1;
    }
    None
}

/// The greatest version of the given name in the graph, as text.
pub fn latest_version(name: &str, packages: &Vec<Package>) -> (r: String)
    ensures
        r@ == latest_text(name@, packages@),
{
    let mut leader: Option<usize> = None;
    let mut i: usize = 0;
    proof {
        assert(packages@.take(0) =~= Seq::empty());
    }
    while i < packages.len()
        invariant
            i <= packages.len(),
            leader is Some ==> leader->0 < i,
            position(leader) == latest_index(name@, packages@.take(i as int)),
        decreases packages.len() - i,
    {
        let candidate = &packages[i];
        let is_candidate = str_eq(candidate.name.as_str(), name) && is_version(
            candidate.version.as_str(),
        );
        let leader_exceeds = match leader {
            Some(b) => version_exceeds(packages[b].version.as_str(), candidate.version.as_str()),
            None => None,
        };
        proof {
            let seen = packages@.take(i + 1);
            assert(seen.drop_last() =~= packages@.take(i as int));
            assert(seen.last() == packages@[i as int]);
            if leader is Some {
                assert(seen[leader->0 as int] == packages@[leader->0 as int]);
            }
        }
        leader = next_leader(leader, i, is_candidate, leader_exceeds);
        i += 1;
    }
    proof {
        assert(packages@.take(i as int) =~= packages@);
    }
    match leader {
        Some(b) => packages[b].version.clone(),
        None => String::from_str("?"),
    }
}

/// The kind of an edge, as text.
pub fn kind_text(edge: &Edge) -> (r: String)
    ensures
        r@ == edge_kind(*edge),
{
    match &edge.target {
        Some(target) => {
            let mut text = String::from_str("target(");
            text.append(target.as_str());
            text.append(")");
            text
        },
        None => match edge.kind {
            DependencyKind::Normal => String::from_str("normal"),
            DependencyKind::Development => String::from_str("dev"),
            DependencyKind::Build => String::from_str("build"),
            DependencyKind::Unknown => String::from_str("unknown"),
        },
    }
}

/// The record of an edge, given the first package that answers it.
fn build_record(edge: &Edge, packages: &Vec<Package>, locked: usize) -> (r: Dependency)
    requires
        first_match(*edge, packages@, locked as int),
    ensures
        r@ == record(*edge, packages@),
        r@.features_partitioned(),
        r@.locked_version is Some,
{
    proof {
        lemma_locked_index(*edge, packages@, locked as int);
    }
    let package = &packages[locked];
    let all_features = sorted_features(&package.features);
    let (enabled_features, disabled_features) = split_features(&all_features, &edge.features);
    proof {
        let all = texts(all_features@);
        let asked = texts(edge.features@);
        lemma_filter_ascending(all, among(asked));
        lemma_filter_ascending(all, not_among(asked));
    }
    Dependency {
        name: edge.name.clone(),
        version: latest_version(edge.name.as_str(), packages),
        locked_version: Some(package.version.clone()),
        kind: kind_text(edge),
        enabled_features,
        disabled_features,
        all_features,
    }
}

/// The record of an edge; an error with the edge's name where no package
/// answers it.
pub fn resolve_edge(edge: &Edge, packages: &Vec<Package>) -> (r: Result<Dependency, LoadError>)
    ensures
        match r {
            Ok(dep) => {
                &&& resolvable(*edge, packages@)
                &&& dep@ == record(*edge, packages@)
                &&& dep@.features_partitioned()
                &&& dep@.locked_version is Some
            },
            Err(LoadError::UnresolvedDependency(name)) => {
                &&& !resolvable(*edge, packages@)
                &&& name@ == edge.name@
            },
            Err(LoadError::MissingRootPackage) => false,
        },
{
    match find_locked(edge, packages) {
        Some(locked) => {
            proof {
                lemma_locked_index(*edge, packages@, locked as int);
            }
            Ok(build_record(edge, packages, locked))
        },
        None => Err(LoadError::UnresolvedDependency(edge.name.clone())),
    }
}

/// `deps` is the list for the graph: the graph has a root package, some
/// package answers each of its edges, and `deps` holds the records of the
/// edges by ascending name, those of one name in the order of the edges.
/// In each record a version is locked and the features are partitioned.
pub open spec fn lists(graph: Graph, deps: Seq<Dependency>) -> bool {
    &&& graph.root_dependencies is Some
    &&& forall|k: int|
        0 <= k < graph.root_dependencies->0@.len() ==> resolvable(
            #[trigger] graph.root_dependencies->0@[k],
            graph.packages@,
        )
    &&& stably_sorted(views(deps), records(graph.root_dependencies->0@, graph.packages@))
    &&& forall|i: int|
        0 <= i < deps.len() ==> (#[trigger] deps[i])@.features_partitioned()
            && deps[i]@.locked_version is Some
}

/// `e` is the error for the graph: the root package is missing, or `e`
/// names the first edge that no package answers.
pub open spec fn refuses(graph: Graph, e: LoadError) -> bool {
    match e {
        LoadError::MissingRootPackage => graph.root_dependencies is None,
        LoadError::UnresolvedDependency(name) => {
            &&& graph.root_dependencies is Some
            &&& exists|k: int|
                #[trigger] first_unresolved(graph.root_dependencies->0@, graph.packages@, k)
                    && name@ == graph.root_dependencies->0@[k].name@
        },
    }
}

/// The direct dependencies of the root package, by ascending name; those of
/// one name in the order the root package declares them.
///
/// Fails where the graph has no root package, and at the first edge that no
/// package answers, with that edge's name.
pub fn load_dependencies(graph: &Graph) -> (r: Result<Vec<Dependency>, LoadError>)
    ensures
        match r {
            Ok(deps) => lists(*graph, deps@),
            Err(e) => refuses(*graph, e),
        },
{
    let edges = match &graph.root_dependencies {
        Some(edges) => edges,
        None => {
            return Err(LoadError::MissingRootPackage);
        },
    };
    let packages = &graph.packages;
    let ghost all = records(edges@, packages@);
    let mut deps: Vec<Dependency> = Vec::new();
    let mut i: usize = 0;
    proof {
        reveal(Seq::filter);
        assert(views(deps@) =~= Seq::empty());
        assert(all.take(0) =~= Seq::empty());
    }
    while i < edges.len()
        invariant
            i <= edges.len(),
            graph.root_dependencies == Some(*edges),
            graph.packages == *packages,
            all == records(edges@, packages@),
            stably_sorted(views(deps@), all.take(i as int)),
            forall|j: int| 0 <= j < i ==> resolvable(#[trigger] edges@[j], packages@),
            forall|j: int|
                0 <= j < deps@.len() ==> (#[trigger] deps@[j])@.features_partitioned()
                    && deps@[j]@.locked_version is Some,
        decreases edges.len() - i,
    {
        let dep = match resolve_edge(&edges[i], packages) {
            Ok(dep) => dep,
            Err(e) => {
                proof {
                    assert(first_unresolved(graph.root_dependencies->0@, graph.packages@, i as int));
                }
                return Err(e);
            },
        };
        let mut p: usize = deps.len();
        while p > 0 && !str_le(deps[p - 1].name.as_str(), dep.name.as_str())
            invariant
                p <= deps.len(),
                forall|k: int|
                    p <= k < deps.len() ==> !lex_le((#[trigger] views(deps@)[k]).name, dep@.name),
            decreases p,
        {
            p -= 1;
        }
        let ghost before = deps@;
        proof {
            lemma_insert_keeps_order(views(before), all.take(i as int), dep@, p as int);
            assert(all.take(i + 1) =~= all.take(i as int).push(dep@));
        }
        deps.insert(p, dep);
        proof {
            assert(views(deps@) =~= views(before).insert(p as int, dep@));
            assert forall|j: int| 0 <= j < deps@.len() implies (#[trigger] deps@[j])@.features_partitioned()
                && deps@[j]@.locked_version is Some by {
                if j < p {
                    assert(deps@[j] == before[j]);
                } else if j > p {
                    assert(deps@[j] == before[j - 1]);
                }
            }
        }
        i += 1;
    }
    proof {
        assert(all.take(i as int) =~= all);
    }
    Ok(deps)
}

impl LoadError {
    /// The message for a person.
    pub open spec fn message_text(self) -> Seq<char> {
        match self {
            LoadError::MissingRootPackage => "No root package found"@,
            LoadError::UnresolvedDependency(name) => "Resolved package not found for "@ + name@,
        }
    }

    /// The message for a person.
    pub fn message(&self) -> (r: String)
        ensures
            r@ == self.message_text(),
    {
        match self {
            LoadError::MissingRootPackage => String::from_str("No root package found"),
            LoadError::UnresolvedDependency(name) => {
                let mut text = String::from_str("Resolved package not found for ");
                text.append(name.as_str());
                text
            },
        }
    }
}

} // verus!
