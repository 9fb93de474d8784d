//! Taking a graph over from guppy, which resolves it from the manifests.
//!
//! guppy knows a package by an opaque id string. The graph model knows it by
//! its position, so the links and the workspace members that guppy reports by
//! id string are looked up among the packages that it reports.
use crate::error::{ErrorView, TopoError};
use crate::graph::{DependencyGraph, DependencyLink, GraphView, Package, PackageView};
use crate::order::ids;
use crate::scope::texts;
use vstd::prelude::*;
use vstd::string::StringExecFns;

verus! {

/// A package as guppy reports it.
#[derive(Clone, Debug, PartialEq, Eq)]
pub struct PackageRecord {
    pub id: String,
    pub name: String,
    pub version: String,
}

/// What a `PackageRecord` is in contracts.
pub struct PackageRecordView {
    pub id: Seq<char>,
    pub name: Seq<char>,
    pub version: Seq<char>,
}

impl View for PackageRecord {
    type V = PackageRecordView;

    open spec fn view(&self) -> PackageRecordView {
        PackageRecordView { id: self.id@, name: self.name@, version: self.version@ }
    }
}

/// What a list of package records is in contracts.
pub open spec fn package_record_views(list: Seq<PackageRecord>) -> Seq<PackageRecordView> {
    list.map_values(|record: PackageRecord| record@)
}

/// A link as guppy reports it: both ends by id string.
#[derive(Clone, Debug, PartialEq, Eq)]
pub struct LinkRecord {
    pub from: String,
    pub to: String,
    pub dev_only: bool,
}

/// What a `LinkRecord` is in contracts.
pub struct LinkRecordView {
    pub from: Seq<char>,
    pub to: Seq<char>,
    pub dev_only: bool,
}

impl View for LinkRecord {
    type V = LinkRecordView;

    open spec fn view(&self) -> LinkRecordView {
        LinkRecordView { from: self.from@, to: self.to@, dev_only: self.dev_only }
    }
}

/// What a list of link records is in contracts.
pub open spec fn link_record_views(list: Seq<LinkRecord>) -> Seq<LinkRecordView> {
    list.map_values(|record: LinkRecord| record@)
}

/// Some package among `packages` has the id string `id`.
pub open spec fn is_reported(packages: Seq<PackageRecordView>, id: Seq<char>) -> bool {
    exists|i: int| 0 <= i < packages.len() && (#[trigger] packages[i]).id == id
}

/// `i` is the first position among `packages` with the id string `id`.
pub open spec fn is_position_of(packages: Seq<PackageRecordView>, id: Seq<char>, i: int) -> bool {
    &&& 0 <= i < packages.len()
    &&& packages[i].id == id
    &&& forall|j: int| 0 <= j < i ==> (#[trigger] packages[j]).id != id
}

/// The first position among `packages` with the id string `id`.
pub open spec fn position_of(packages: Seq<PackageRecordView>, id: Seq<char>) -> int {
    choose|i: int| is_position_of(packages, id, i)
}

/// Every id string that a link or the list of members holds is the id
/// string of a package.
pub open spec fn is_consistent(
    packages: Seq<PackageRecordView>,
    links: Seq<LinkRecordView>,
    members: Seq<Seq<char>>,
) -> bool {
    &&& forall|k: int|
        0 <= k < links.len() ==> is_reported(packages, (#[trigger] links[k]).from) && is_reported(
            packages,
            links[k].to,
        )
    &&& forall|m: int| 0 <= m < members.len() ==> is_reported(packages, #[trigger] members[m])
}

/// The package of the graph model for a package record.
pub open spec fn as_package() -> spec_fn(PackageRecordView) -> PackageView {
    |record: PackageRecordView| PackageView { name: record.name, version: record.version }
}

/// The link of the graph model for a link record.
pub open spec fn as_link(packages: Seq<PackageRecordView>) -> spec_fn(
    LinkRecordView,
) -> DependencyLink {
    |record: LinkRecordView|
        DependencyLink {
            from: position_of(packages, record.from) as usize,
            to: position_of(packages, record.to) as usize,
            dev_only: record.dev_only,
        }
}

/// The id of the graph model for an id string.
pub open spec fn as_id(packages: Seq<PackageRecordView>) -> spec_fn(Seq<char>) -> int {
    |id: Seq<char>| position_of(packages, id)
}

/// The graph that the records describe.
pub open spec fn assembled_graph(
    packages: Seq<PackageRecordView>,
    links: Seq<LinkRecordView>,
) -> GraphView {
    GraphView {
        packages: packages.map_values(as_package()),
        links: links.map_values(as_link(packages)),
    }
}

/// What is said of a graph whose records do not fit together.
pub open spec fn inconsistent_text() -> Seq<char> {
    "the resolved graph names a package that it does not hold"@
}

/// The first position among `packages` with the id string `id`, if there
/// is one.
fn find_position(packages: &Vec<PackageRecord>, id: &String) -> (found: Option<usize>)
    ensures
        match found {
            Some(i) => is_position_of(package_record_views(packages@), id@, i as int),
            None => !is_reported(package_record_views(packages@), id@),
        },
{
    let mut i: usize = 0;
    while i < packages.len()
        invariant
            i <= packages.len(),
            forall|j: int| 0 <= j < i ==> (#[trigger] package_record_views(packages@)[j]).id != id@,
        decreases packages.len() - i,
    {
        if packages[i].id == *id {
            return Some(i);
        }
        i += 1;
    }
    None
}

/// Builds the graph model from what guppy reports: the id of a package is
/// its position in `packages`, and the links and the members are looked up
/// by their id strings. Fails exactly if one of those id strings is not the
/// id string of a package.
pub fn assemble(packages: &Vec<PackageRecord>, links: &Vec<LinkRecord>, members: &Vec<String>) -> (result:
    Result<(DependencyGraph, Vec<usize>), TopoError>)
    ensures
        result is Ok <==> is_consistent(
            package_record_views(packages@),
            link_record_views(links@),
            texts(members@),
        ),
        result matches Ok((graph, ws)) ==> graph@ == assembled_graph(
            package_record_views(packages@),
            link_record_views(links@),
        ) && ids(ws@) == texts(members@).map_values(as_id(package_record_views(packages@))),
        result matches Err(error) ==> error@ == ErrorView::ManifestResolutionFailure(
            inconsistent_text(),
        ),
{
    let ghost reported = package_record_views(packages@);
    let ghost wanted = link_record_views(links@);
    let mut resolved: Vec<DependencyLink> = Vec::new();
    let mut k: usize = 0;
    while k < links.len()
        invariant
            k <= links.len(),
            reported == package_record_views(packages@),
            wanted == link_record_views(links@),
            resolved@.len() == k,
            forall|j: int|
                0 <= j < k ==> is_reported(reported, (#[trigger] wanted[j]).from) && is_reported(
                    reported,
                    wanted[j].to,
                ),
            forall|j: int| 0 <= j < k ==> #[trigger] resolved@[j] == as_link(reported)(wanted[j]),
            forall|j: int|
                0 <= j < k ==> (#[trigger] resolved@[j]).from < packages@.len() && resolved@[j].to
                    < packages@.len(),
        decreases links.len() - k,
    {
        let from = find_position(packages, &links[k].from);
        let to = find_position(packages, &links[k].to);
        match (from, to) {
            (Some(from), Some(to)) => {
                resolved.push(DependencyLink { from, to, dev_only: links[k].dev_only });
            },
            _ => {
                proof {
                    let record = wanted[k as int];
                }
                return Err(
                    TopoError::ManifestResolutionFailure(
                        String::from_str("the resolved graph names a package that it does not hold"),
                    ),
                );
            },
        }
        k += 1;
    }
    let mut ws: Vec<usize> = Vec::new();
    let mut m: usize = 0;
    while m < members.len()
        invariant
            m <= members.len(),
            reported == package_record_views(packages@),
            ws@.len() == m,
            forall|j: int| 0 <= j < m ==> is_reported(reported, #[trigger] texts(members@)[j]),
            forall|j: int|
                0 <= j < m ==> #[trigger] ws@[j] == position_of(reported, texts(members@)[j]),
        decreases members.len() - m,
    {
        match find_position(packages, &members[m]) {
            Some(id) => {
                ws.push(id);
            },
            None => {
                assert(!is_reported(reported, texts(members@)[m as int]));
                return Err(
                    TopoError::ManifestResolutionFailure(
                        String::from_str("the resolved graph names a package that it does not hold"),
                    ),
                );
            },
        }
        m += 1;
    }
    let mut list: Vec<Package> = Vec::new();
    let mut i: usize = 0;
    while i < packages.len()
        invariant
            i <= packages.len(),
            reported == package_record_views(packages@),
            list@.len() == i,
            forall|j: int| 0 <= j < i ==> (#[trigger] list@[j])@ == as_package()(reported[j]),
        decreases packages.len() - i,
    {
        list.push(Package { name: packages[i].name.clone(), version: packages[i].version.clone() });
        i += 1;
    }
    match DependencyGraph::new(list, resolved) {
        Some(graph) => {
            proof {
                assert(graph@.packages =~= reported.map_values(as_package()));
                assert(graph@.links =~= wanted.map_values(as_link(reported)));
            }
            Ok((graph, ws))
        },
        None => Err(
            TopoError::ManifestResolutionFailure(
                String::from_str("the resolved graph names a package that it does not hold"),
            ),
        ),
    }
}

#[verifier::external_type_specification]
#[verifier::external_body]
pub struct ExGuppyGraph(guppy::graph::PackageGraph);

/// The packages that a guppy graph holds, in the order in which guppy lists
/// them with dependencies first.
pub uninterp spec fn reported_packages(graph: guppy::graph::PackageGraph) -> Seq<PackageRecordView>;

/// The links that a guppy graph holds, in the order in which guppy lists
/// them.
pub uninterp spec fn reported_links(graph: guppy::graph::PackageGraph) -> Seq<LinkRecordView>;

/// The id strings of the workspace members of a guppy graph, in the order in
/// which guppy lists them.
pub uninterp spec fn reported_members(graph: guppy::graph::PackageGraph) -> Seq<Seq<char>>;

/// Calls guppy's `DependencyGraph::resolve_all` and walks the set with
/// `PackageSet::packages`, dependencies first, taking the id string, the
/// name and the version of each package. Nothing is claimed of the list but
/// that it is a function of the graph.
#[verifier::external_body]
fn read_packages(graph: &guppy::graph::PackageGraph) -> (records: Vec<PackageRecord>)
    ensures
        package_record_views(records@) == reported_packages(*graph),
{
    graph
        .resolve_all()
        .packages(guppy::graph::DependencyDirection::Reverse)
        .map(|package| PackageRecord {
            id: package.id().repr().to_string(),
            name: package.name().to_string(),
            version: package.version().to_string(),
        })
        .collect()
}

/// Calls guppy's `DependencyGraph::resolve_all` and walks the set with
/// `PackageSet::links`, taking the id strings of both ends of each link and
/// what `PackageLink::dev_only` says of it. Nothing is claimed of the list
/// but that it is a function of the graph.
#[verifier::external_body]
fn read_links(graph: &guppy::graph::PackageGraph) -> (records: Vec<LinkRecord>)
    ensures
        link_record_views(records@) == reported_links(*graph),
{
    graph
        .resolve_all()
        .links(guppy::graph::DependencyDirection::Forward)
        .map(|link| LinkRecord {
            from: link.from().id().repr().to_string(),
            to: link.to().id().repr().to_string(),
            dev_only: link.dev_only(),
        })
        .collect()
}

/// Calls guppy's `DependencyGraph::resolve_workspace` and walks the set with
/// `PackageSet::package_ids`, taking each id string. Nothing is claimed of
/// the list but that it is a function of the graph.
#[verifier::external_body]
fn read_members(graph: &guppy::graph::PackageGraph) -> (members: Vec<String>)
    ensures
        texts(members@) == reported_members(*graph),
{
    graph
        .resolve_workspace()
        .package_ids(guppy::graph::DependencyDirection::Forward)
        .map(|id| id.repr().to_string())
        .collect()
}

/// Takes a graph over from guppy: the graph model of its packages and
/// links, and the ids of its workspace members. Fails exactly if what guppy
/// reports does not fit together.
pub fn from_guppy(graph: &guppy::graph::PackageGraph) -> (result: Result<
    (DependencyGraph, Vec<usize>),
    TopoError,
>)
    ensures
        result is Ok <==> is_consistent(
            reported_packages(*graph),
            reported_links(*graph),
            reported_members(*graph),
        ),
        result matches Ok((model, ws)) ==> model@ == assembled_graph(
            reported_packages(*graph),
            reported_links(*graph),
        ) && ids(ws@) == reported_members(*graph).map_values(as_id(reported_packages(*graph))),
        result matches Err(error) ==> error@ == ErrorView::ManifestResolutionFailure(
            inconsistent_text(),
        ),
{
    let packages = read_packages(graph);
    let links = read_links(graph);
    let members = read_members(graph);
    assemble(&packages, &links, &members)
}

} // verus!
