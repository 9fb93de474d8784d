//! The query as a whole: from a graph, the declared workspace members and
//! the caller's choices to the report.
use crate::error::{ErrorView, TopoError};
use crate::graph::{DependencyGraph, GraphView};
use crate::order::{has_cycle, ordering};
use crate::resolve::{closure, is_retained, resolve, root_set, Direction, EdgePolicy, SubgraphView};
use crate::scope::{
    compact_names, dev_entry_views, dev_summary, direction_of, entry_name, entry_views,
    lemma_compact_names_match_listing, listing, membership,
    show_all_dependencies_topological_order, show_compact_output, show_dev_dependencies,
    show_workspace_topological_order, texts, workspace_membership, DevDependencyEntry,
    DevEntryView, EntryView, PackageEntry,
};
use vstd::prelude::*;

verus! {

/// What the caller chooses.
#[derive(Clone, Debug, PartialEq, Eq)]
pub struct TopoArgs {
    /// List dependents first.
    pub reverse: bool,
    /// Follow development-only links too, and add the summary of
    /// development-only dependencies.
    pub include_dev: bool,
    /// Show external packages too.
    pub all: bool,
    /// Give the bare names only.
    pub compact: bool,
    /// The name of the package to start from; the whole graph where there is
    /// none.
    pub package: Option<String>,
    /// Names of packages that are not to count as members of the workspace.
    pub exclude: Vec<String>,
}

/// What a `TopoArgs` is in contracts.
pub struct ArgsView {
    pub reverse: bool,
    pub include_dev: bool,
    pub all: bool,
    pub compact: bool,
    pub package: Option<Seq<char>>,
    pub exclude: Seq<Seq<char>>,
}

impl View for TopoArgs {
    type V = ArgsView;

    open spec fn view(&self) -> ArgsView {
        ArgsView {
            reverse: self.reverse,
            include_dev: self.include_dev,
            all: self.all,
            compact: self.compact,
            package: match self.package {
                Some(name) => Some(name@),
                None => None,
            },
            exclude: texts(self.exclude@),
        }
    }
}

/// What a query gives back.
#[derive(Clone, Debug, PartialEq, Eq)]
pub enum Report {
    /// The bare names, one for each line.
    Compact(Vec<String>),
    /// An entry for each package, and the summary of development-only
    /// dependencies where development-only links were asked for.
    Listing { entries: Vec<PackageEntry>, dev_dependencies: Option<Vec<DevDependencyEntry>> },
}

/// What a `Report` is in contracts.
pub enum ReportView {
    Compact(Seq<Seq<char>>),
    Listing { entries: Seq<EntryView>, dev_dependencies: Option<Seq<DevEntryView>> },
}

impl View for Report {
    type V = ReportView;

    open spec fn view(&self) -> ReportView {
        match self {
            Report::Compact(names) => ReportView::Compact(texts(names@)),
            Report::Listing { entries, dev_dependencies } => ReportView::Listing {
                entries: entry_views(entries@),
                dev_dependencies: match dev_dependencies {
                    Some(summary) => Some(dev_entry_views(summary@)),
                    None => None,
                },
            },
        }
    }
}

/// Some package of the graph carries the name.
pub open spec fn is_known(gv: GraphView, name: Seq<char>) -> bool {
    exists|id: int| gv.has_name(id, name)
}

/// The first package, by id, that carries the name.
pub open spec fn named_root(gv: GraphView, name: Seq<char>) -> int {
    choose|id: int| gv.has_name(id, name) && forall|j: int| 0 <= j < id ==> !gv.has_name(j, name)
}

/// The roots of a query: the package that was asked for, or every package.
pub open spec fn roots_of(gv: GraphView, package: Option<Seq<char>>) -> Set<int> {
    match package {
        Some(name) => Set::new(|p: int| p == named_root(gv, name)),
        None => Set::new(|p: int| 0 <= p < gv.packages.len()),
    }
}

/// The policy that the flag `include_dev` asks for.
pub open spec fn policy_of(include_dev: bool) -> EdgePolicy {
    if include_dev {
        EdgePolicy::NormalAndDev
    } else {
        EdgePolicy::NormalOnly
    }
}

/// The subgraph of a query: what can be reached from the roots along the
/// links that the policy admits, from a package to what it depends on.
pub open spec fn subgraph_of(gv: GraphView, args: ArgsView) -> SubgraphView {
    let policy = policy_of(args.include_dev);
    let packages = closure(gv, policy, Direction::Forward, roots_of(gv, args.package));
    SubgraphView {
        universe: gv.packages.len(),
        packages,
        links: gv.links.filter(is_retained(policy, packages)),
    }
}

/// What a query gives back, or why it fails.
pub open spec fn report(gv: GraphView, members: Seq<usize>, args: ArgsView) -> Result<
    ReportView,
    ErrorView,
> {
    if args.package is Some && !is_known(gv, args.package->0) {
        Err(ErrorView::PackageNotFound(args.package->0))
    } else {
        let sv = subgraph_of(gv, args);
        let workspace = membership(gv, members, args.exclude);
        let order = ordering(sv, direction_of(args.reverse));
        if has_cycle(sv) {
            Err(ErrorView::CycleDetected)
        } else if args.compact {
            Ok(ReportView::Compact(compact_names(gv, workspace, order, args.all)))
        } else {
            Ok(
                ReportView::Listing {
                    entries: listing(gv, sv, workspace, order, args.all),
                    dev_dependencies: if args.include_dev {
                        Some(dev_summary(gv, sv, workspace))
                    } else {
                        None
                    },
                },
            )
        }
    }
}

/// Answers a query on `graph`, of which `members` lists the packages that
/// the workspace declares.
///
/// Fails with `PackageNotFound` exactly if a root was asked for by a name
/// that no package of the graph carries, and otherwise with `CycleDetected`
/// exactly if the links of the resolved subgraph that are not
/// development-only form a cycle. A query that fails gives nothing else
/// back.
pub fn run_topo_command(graph: &DependencyGraph, members: &Vec<usize>, args: &TopoArgs) -> (result:
    Result<Report, TopoError>)
    ensures
        match result {
            Ok(made) => report(graph@, members@, args@) == Ok::<ReportView, ErrorView>(made@),
            Err(error) => report(graph@, members@, args@) == Err::<ReportView, ErrorView>(error@),
        },
        (args@.package matches Some(name) && !is_known(graph@, name)) <==> (result matches Err(
            TopoError::PackageNotFound(_),
        )),
{
    let workspace = workspace_membership(graph, members, &args.exclude);
    let mut roots: Vec<usize> = Vec::new();
    match &args.package {
        Some(name) => {
            match graph.find_package(name) {
                Some(id) => {
                    roots.push(id);
                },
                None => {
                    return Err(TopoError::PackageNotFound(name.clone()));
                },
            }
        },
        None => {},
    }
    proof {
        assert(root_set(graph@, roots@) =~= roots_of(graph@, args@.package)) by {
            if args@.package is Some {
                assert(roots@[0] == named_root(graph@, args@.package->0));
            }
        }
    }
    let policy = EdgePolicy::new(args.include_dev);
    let subgraph = resolve(graph, &roots, Direction::Forward, policy);
    if args.compact {
        match show_compact_output(graph, &subgraph, &workspace, args.reverse, args.all) {
            Ok(names) => Ok(Report::Compact(names)),
            Err(error) => Err(error),
        }
    } else {
        let listed = if args.all {
            show_all_dependencies_topological_order(graph, &subgraph, &workspace, args.reverse)
        } else {
            show_workspace_topological_order(graph, &subgraph, &workspace, args.reverse)
        };
        match listed {
            Ok(entries) => {
                let dev_dependencies = if args.include_dev {
                    Some(show_dev_dependencies(graph, &subgraph, &workspace))
                } else {
                    None
                };
                Ok(Report::Listing { entries, dev_dependencies })
            },
            Err(error) => Err(error),
        }
    }
}

/// Asked for in compact mode, a query gives the names of the entries that
/// it gives in the listing mode with the same choices otherwise, in the
/// same order; and it fails in one mode exactly as in the other.
pub proof fn lemma_compact_report_matches_listing(gv: GraphView, members: Seq<usize>, args: ArgsView)
    ensures
        match report(gv, members, ArgsView { compact: false, ..args }) {
            Ok(ReportView::Listing { entries, .. }) => report(
                gv,
                members,
                ArgsView { compact: true, ..args },
            ) == Ok::<ReportView, ErrorView>(
                ReportView::Compact(entries.map_values(entry_name())),
            ),
            Ok(ReportView::Compact(_)) => false,
            Err(error) => report(gv, members, ArgsView { compact: true, ..args }) == Err::<
                ReportView,
                ErrorView,
            >(error),
        },
{
    let listed = ArgsView { compact: false, ..args };
    lemma_compact_names_match_listing(
        gv,
        subgraph_of(gv, listed),
        membership(gv, members, args.exclude),
        ordering(subgraph_of(gv, listed), direction_of(args.reverse)),
        args.all,
    );
}

/// A root that is asked for by a name that no package carries makes the
/// query fail with `PackageNotFound` and that name, whatever else is
/// chosen; nothing else makes it fail so.
pub proof fn lemma_unknown_root_is_not_found(gv: GraphView, members: Seq<usize>, args: ArgsView)
    ensures
        (args.package matches Some(name) && !is_known(gv, name)) <==> (report(gv, members, args)
            matches Err(ErrorView::PackageNotFound(_))),
        args.package is Some && !is_known(gv, args.package->0) ==> report(gv, members, args)
            == Err::<ReportView, ErrorView>(ErrorView::PackageNotFound(args.package->0)),
{
}

} // verus!
