//! The scope filter: which packages are members of the workspace, and the
//! listings of an order that are made for a reader.
//!
//! A listing in workspace-only mode holds the workspace members of the
//! order; a listing in all mode holds every package of the order and marks
//! each as member or external.
use crate::error::{ErrorView, TopoError};
use crate::flags::clear_flags;
use crate::graph::{DependencyGraph, DependencyLink, GraphView};
use crate::order::{has_cycle, ids, is_arrangement_of, order, ordering};
use crate::resolve::{Direction, ResolvedSubgraph, SubgraphView};
use vstd::prelude::*;

verus! {

/// The texts of a list of strings.
pub open spec fn texts(list: Seq<String>) -> Seq<Seq<char>> {
    list.map_values(|text: String| text@)
}

/// Whether `text` is in `list`.
fn holds_text(list: &Vec<String>, text: &String) -> (found: bool)
    ensures
        found == texts(list@).contains(text@),
{
    let mut i: usize = 0;
    while i < list.len()
        invariant
            i <= list.len(),
            forall|j: int| 0 <= j < i ==> texts(list@)[j] != text@,
        decreases list.len() - i,
    {
        if list[i] == *text {
            assert(texts(list@)[i as int] == text@);
            return true;
        }
        i += 1;
    }
    false
}

/// `p` is one of the first `count` ids of `members`.
pub open spec fn listed_among(members: Seq<usize>, count: int, p: int) -> bool {
    exists|i: int| 0 <= i < count && #[trigger] members[i] == p
}

/// The members of the workspace: the packages of the graph that `members`
/// lists, but for those that carry an excluded name.
pub open spec fn membership(gv: GraphView, members: Seq<usize>, excluded: Seq<Seq<char>>) -> Set<
    int,
> {
    Set::new(
        |p: int|
            0 <= p < gv.packages.len() && listed_among(members, members.len() as int, p)
                && !excluded.contains(gv.packages[p].name),
    )
}

/// The set of packages that count as first-party. Every other package of
/// the graph is external.
#[derive(Clone, Debug, PartialEq, Eq)]
pub struct WorkspaceMembership {
    flags: Vec<bool>,
}

impl View for WorkspaceMembership {
    type V = Set<int>;

    closed spec fn view(&self) -> Set<int> {
        Set::new(|p: int| 0 <= p < self.flags@.len() && self.flags@[p])
    }
}

impl WorkspaceMembership {
    /// Whether the package `id` is a member.
    pub fn contains(&self, id: usize) -> (member: bool)
        ensures
            member == self@.contains(id as int),
    {
        id < self.flags.len() && self.flags[id]
    }
}

/// Works out the membership from the ids that the workspace declares and
/// the names that the caller excludes. A package with an excluded name stays
/// in the graph and is external from then on. Ids that are not in the graph
/// are passed over.
pub fn workspace_membership(
    graph: &DependencyGraph,
    members: &Vec<usize>,
    excluded: &Vec<String>,
) -> (workspace: WorkspaceMembership)
    ensures
        workspace@ == membership(graph@, members@, texts(excluded@)),
{
    let n = graph.package_count();
    let mut flags = clear_flags(n);
    let mut i: usize = 0;
    while i < members.len()
        invariant
            i <= members.len(),
            n == graph@.packages.len(),
            flags@.len() == n,
            forall|p: int|
                0 <= p < n ==> (#[trigger] flags@[p] <==> listed_among(members@, i as int, p)
                    && !texts(excluded@).contains(graph@.packages[p].name)),
        decreases members.len() - i,
    {
        let id = members[i];
        if id < n && !holds_text(excluded, &graph.package(id).name) {
            flags.set(id, true);
        }
        i += 1;
    }
    let workspace = WorkspaceMembership { flags };
    workspace
}

/// A dependency as a listing shows it under the package that needs it.
#[derive(Clone, Debug, PartialEq, Eq)]
pub struct DependencyEntry {
    pub id: usize,
    pub name: String,
    pub in_workspace: bool,
}

/// What a `DependencyEntry` is in contracts.
pub struct DependencyView {
    pub id: int,
    pub name: Seq<char>,
    pub in_workspace: bool,
}

impl View for DependencyEntry {
    type V = DependencyView;

    open spec fn view(&self) -> DependencyView {
        DependencyView { id: self.id as int, name: self.name@, in_workspace: self.in_workspace }
    }
}

/// What a list of dependency entries is in contracts.
pub open spec fn dependency_views(list: Seq<DependencyEntry>) -> Seq<DependencyView> {
    list.map_values(|entry: DependencyEntry| entry@)
}

/// A package as a listing shows it: what it is, whether it is a member of
/// the workspace, and its direct dependencies. An external package is shown
/// without dependencies.
#[derive(Clone, Debug, PartialEq, Eq)]
pub struct PackageEntry {
    pub id: usize,
    pub name: String,
    pub version: String,
    pub in_workspace: bool,
    pub dependencies: Vec<DependencyEntry>,
}

/// What a `PackageEntry` is in contracts.
pub struct EntryView {
    pub id: int,
    pub name: Seq<char>,
    pub version: Seq<char>,
    pub in_workspace: bool,
    pub dependencies: Seq<DependencyView>,
}

impl View for PackageEntry {
    type V = EntryView;

    open spec fn view(&self) -> EntryView {
        EntryView {
            id: self.id as int,
            name: self.name@,
            version: self.version@,
            in_workspace: self.in_workspace,
            dependencies: dependency_views(self.dependencies@),
        }
    }
}

/// What a list of package entries is in contracts.
pub open spec fn entry_views(list: Seq<PackageEntry>) -> Seq<EntryView> {
    list.map_values(|entry: PackageEntry| entry@)
}

/// The test that a link passes to be shown as a dependency of `p`: it
/// leads from `p`, it is not development-only, and, unless external
/// packages are shown too, it leads to a member of the workspace.
pub open spec fn is_shown_link(workspace: Set<int>, p: int, all: bool) -> spec_fn(
    DependencyLink,
) -> bool {
    |link: DependencyLink|
        !link.dev_only && link.from == p && (all || workspace.contains(link.to as int))
}

/// The entry for the package that a link leads to.
pub open spec fn as_dependency(gv: GraphView, workspace: Set<int>) -> spec_fn(
    DependencyLink,
) -> DependencyView {
    |link: DependencyLink|
        DependencyView {
            id: link.to as int,
            name: gv.packages[link.to as int].name,
            in_workspace: workspace.contains(link.to as int),
        }
}

/// The dependencies that a listing shows under the package `p`, in the
/// order of the links.
pub open spec fn shown_dependencies(
    gv: GraphView,
    sv: SubgraphView,
    workspace: Set<int>,
    p: int,
    all: bool,
) -> Seq<DependencyView> {
    sv.links.filter(is_shown_link(workspace, p, all)).map_values(as_dependency(gv, workspace))
}

/// The entry that a listing shows for the package `p`.
pub open spec fn entry_of(
    gv: GraphView,
    sv: SubgraphView,
    workspace: Set<int>,
    p: int,
    all: bool,
) -> EntryView {
    EntryView {
        id: p,
        name: gv.packages[p].name,
        version: gv.packages[p].version,
        in_workspace: workspace.contains(p),
        dependencies: if workspace.contains(p) {
            shown_dependencies(gv, sv, workspace, p, all)
        } else {
            Seq::empty()
        },
    }
}

/// The test that a package passes to be in a listing: every package does
/// in all mode, the members of the workspace do otherwise.
pub open spec fn is_shown(workspace: Set<int>, all: bool) -> spec_fn(int) -> bool {
    |p: int| all || workspace.contains(p)
}

/// `entry_of` as a function of the package.
pub open spec fn as_entry(gv: GraphView, sv: SubgraphView, workspace: Set<int>, all: bool) -> spec_fn(
    int,
) -> EntryView {
    |p: int| entry_of(gv, sv, workspace, p, all)
}

/// The name of a package as a function of the package.
pub open spec fn as_name(gv: GraphView) -> spec_fn(int) -> Seq<char> {
    |p: int| gv.packages[p].name
}

/// The listing of an order: an entry for each package of the order that is
/// shown, in that order.
pub open spec fn listing(
    gv: GraphView,
    sv: SubgraphView,
    workspace: Set<int>,
    order: Seq<int>,
    all: bool,
) -> Seq<EntryView> {
    order.filter(is_shown(workspace, all)).map_values(as_entry(gv, sv, workspace, all))
}

/// The compact listing of an order: the bare name of each package of the
/// order that is shown, in that order.
pub open spec fn compact_names(gv: GraphView, workspace: Set<int>, order: Seq<int>, all: bool) -> Seq<
    Seq<char>,
> {
    order.filter(is_shown(workspace, all)).map_values(as_name(gv))
}

/// The direction that the flag `reverse` asks for.
pub open spec fn direction_of(reverse: bool) -> Direction {
    if reverse {
        Direction::Reverse
    } else {
        Direction::Forward
    }
}

/// The entry for one package.
fn package_entry(
    graph: &DependencyGraph,
    subgraph: &ResolvedSubgraph,
    workspace: &WorkspaceMembership,
    id: usize,
    all: bool,
) -> (entry: PackageEntry)
    requires
        subgraph@.universe == graph@.packages.len(),
        id < graph@.packages.len(),
    ensures
        entry@ == entry_of(graph@, subgraph@, workspace@, id as int, all),
{
    let package = graph.package(id);
    let in_workspace = workspace.contains(id);
    let mut dependencies: Vec<DependencyEntry> = Vec::new();
    if in_workspace {
        let links = subgraph.links();
        let ghost shown = is_shown_link(workspace@, id as int, all);
        let ghost convert = as_dependency(graph@, workspace@);
        let mut k: usize = 0;
        while k < links.len()
            invariant
                k <= links.len(),
                links@ == subgraph@.links,
                subgraph@.wf(),
                subgraph@.universe == graph@.packages.len(),
                shown == is_shown_link(workspace@, id as int, all),
                convert == as_dependency(graph@, workspace@),
                dependency_views(dependencies@) == links@.take(k as int).filter(shown).map_values(
                    convert,
                ),
            decreases links.len() - k,
        {
            let link = links[k];
            let ghost before = dependencies@;
            proof {
                links@.lemma_take_succ_push(k as int);
                links@.take(k as int).lemma_filter_push(link, shown);
            }
            if !link.dev_only && link.from == id {
                let member = workspace.contains(link.to);
                if all || member {
                    let dependency = DependencyEntry {
                        id: link.to,
                        name: graph.package(link.to).name.clone(),
                        in_workspace: member,
                    };
                    dependencies.push(dependency);
                    proof {
                        assert(dependency_views(dependencies@) =~= dependency_views(before).push(
                            dependency@,
                        ));
                    }
                }
            }
            k += 1;
        }
        assert(links@.take(links@.len() as int) =~= links@);
    } else {
        assert(dependency_views(dependencies@) =~= Seq::empty());
    }
    PackageEntry {
        id,
        name: package.name.clone(),
        version: package.version.clone(),
        in_workspace,
        dependencies,
    }
}

/// The listing of an order that is given as a list of ids.
fn list_entries(
    graph: &DependencyGraph,
    subgraph: &ResolvedSubgraph,
    workspace: &WorkspaceMembership,
    order: &Vec<usize>,
    all: bool,
) -> (entries: Vec<PackageEntry>)
    requires
        subgraph@.universe == graph@.packages.len(),
        forall|i: int| 0 <= i < order@.len() ==> order@[i] < graph@.packages.len(),
    ensures
        entry_views(entries@) == listing(graph@, subgraph@, workspace@, ids(order@), all),
{
    let ghost shown = is_shown(workspace@, all);
    let ghost convert = as_entry(graph@, subgraph@, workspace@, all);
    let ghost numbers = ids(order@);
    let mut entries: Vec<PackageEntry> = Vec::new();
    let mut i: usize = 0;
    while i < order.len()
        invariant
            i <= order.len(),
            subgraph@.universe == graph@.packages.len(),
            forall|j: int| 0 <= j < order@.len() ==> order@[j] < graph@.packages.len(),
            numbers == ids(order@),
            shown == is_shown(workspace@, all),
            convert == as_entry(graph@, subgraph@, workspace@, all),
            entry_views(entries@) == numbers.take(i as int).filter(shown).map_values(convert),
        decreases order.len() - i,
    {
        let id = order[i];
        let ghost before = entries@;
        proof {
            numbers.lemma_take_succ_push(i as int);
            numbers.take(i as int).lemma_filter_push(id as int, shown);
        }
        if all || workspace.contains(id) {
            let entry = package_entry(graph, subgraph, workspace, id, all);
            entries.push(entry);
            proof {
                assert(entry_views(entries@) =~= entry_views(before).push(entry@));
            }
        }
        i += 1;
    }
    assert(numbers.take(numbers.len() as int) =~= numbers);
    entries
}

/// The direction that the flag `reverse` asks for.
pub fn direction_for(reverse: bool) -> (direction: Direction)
    ensures
        direction == direction_of(reverse),
{
    if reverse {
        Direction::Reverse
    } else {
        Direction::Forward
    }
}

/// Lists the workspace members of `subgraph` in order, dependencies first,
/// or dependents first where `reverse` is set. Each entry names the direct
/// dependencies of its package that are members too. The dependencies of a
/// package are the packages that a kept link leads to from it, but for
/// development-only links. Fails exactly if the subgraph has a cycle.
pub fn show_workspace_topological_order(
    graph: &DependencyGraph,
    subgraph: &ResolvedSubgraph,
    workspace: &WorkspaceMembership,
    reverse: bool,
) -> (result: Result<Vec<PackageEntry>, TopoError>)
    requires
        subgraph@.universe == graph@.packages.len(),
    ensures
        result is Ok <==> !has_cycle(subgraph@),
        result matches Ok(entries) ==> entry_views(entries@) == listing(
            graph@,
            subgraph@,
            workspace@,
            ordering(subgraph@, direction_of(reverse)),
            false,
        ),
        result matches Err(error) ==> error@ == ErrorView::CycleDetected,
{
    proof {
        use_type_invariant(subgraph);
    }
    match order(subgraph, direction_for(reverse)) {
        Ok(list) => {
            proof {
                lemma_ids_in_range(list@, subgraph@);
            }
            Ok(list_entries(graph, subgraph, workspace, &list, false))
        },
        Err(error) => Err(error),
    }
}

/// Lists every package of `subgraph` in order, dependencies first, or
/// dependents first where `reverse` is set, and marks each as member of the
/// workspace or external. The entry of a member names all its direct
/// dependencies, each marked in the same way; the entry of an external
/// package names none. Fails exactly if the subgraph has a cycle.
pub fn show_all_dependencies_topological_order(
    graph: &DependencyGraph,
    subgraph: &ResolvedSubgraph,
    workspace: &WorkspaceMembership,
    reverse: bool,
) -> (result: Result<Vec<PackageEntry>, TopoError>)
    requires
        subgraph@.universe == graph@.packages.len(),
    ensures
        result is Ok <==> !has_cycle(subgraph@),
        result matches Ok(entries) ==> entry_views(entries@) == listing(
            graph@,
            subgraph@,
            workspace@,
            ordering(subgraph@, direction_of(reverse)),
            true,
        ),
        result matches Err(error) ==> error@ == ErrorView::CycleDetected,
{
    proof {
        use_type_invariant(subgraph);
    }
    match order(subgraph, direction_for(reverse)) {
        Ok(list) => {
            proof {
                lemma_ids_in_range(list@, subgraph@);
            }
            Ok(list_entries(graph, subgraph, workspace, &list, true))
        },
        Err(error) => Err(error),
    }
}

/// The ids of an arrangement of the packages of a subgraph are ids of the
/// graph.
proof fn lemma_ids_in_range(list: Seq<usize>, sv: SubgraphView)
    requires
        sv.wf(),
        is_arrangement_of(ids(list), sv.packages),
    ensures
        forall|i: int| 0 <= i < list.len() ==> list[i] < sv.universe,
{
    assert forall|i: int| 0 <= i < list.len() implies list[i] < sv.universe by {
        assert(ids(list)[i] == list[i]);
        assert(ids(list).contains(list[i] as int));
    }
}

/// Lists the bare names of the packages of `subgraph` in order,
/// dependencies first, or dependents first where `reverse` is set: the
/// names of the workspace members, or of every package where `all` is set.
/// Fails exactly if the subgraph has a cycle.
pub fn show_compact_output(
    graph: &DependencyGraph,
    subgraph: &ResolvedSubgraph,
    workspace: &WorkspaceMembership,
    reverse: bool,
    all: bool,
) -> (result: Result<Vec<String>, TopoError>)
    requires
        subgraph@.universe == graph@.packages.len(),
    ensures
        result is Ok <==> !has_cycle(subgraph@),
        result matches Ok(names) ==> texts(names@) == compact_names(
            graph@,
            workspace@,
            ordering(subgraph@, direction_of(reverse)),
            all,
        ),
        result matches Err(error) ==> error@ == ErrorView::CycleDetected,
{
    proof {
        use_type_invariant(subgraph);
    }
    let list = match order(subgraph, direction_for(reverse)) {
        Ok(list) => list,
        Err(error) => {
            return Err(error);
        },
    };
    proof {
        lemma_ids_in_range(list@, subgraph@);
    }
    let ghost shown = is_shown(workspace@, all);
    let ghost convert = as_name(graph@);
    let ghost numbers = ids(list@);
    let mut names: Vec<String> = Vec::new();
    let mut i: usize = 0;
    while i < list.len()
        invariant
            i <= list.len(),
            forall|j: int| 0 <= j < list@.len() ==> list@[j] < graph@.packages.len(),
            numbers == ids(list@),
            shown == is_shown(workspace@, all),
            convert == as_name(graph@),
            texts(names@) == numbers.take(i as int).filter(shown).map_values(convert),
        decreases list.len() - i,
    {
        let id = list[i];
        let ghost before = names@;
        proof {
            numbers.lemma_take_succ_push(i as int);
            numbers.take(i as int).lemma_filter_push(id as int, shown);
        }
        if all || workspace.contains(id) {
            let name = graph.package(id).name.clone();
            names.push(name);
            proof {
                assert(texts(names@) =~= texts(before).push(name@));
            }
        }
        i += 1;
    }
    assert(numbers.take(numbers.len() as int) =~= numbers);
    Ok(names)
}

/// The development-only dependencies of a package, as the summary shows
/// them.
#[derive(Clone, Debug, PartialEq, Eq)]
pub struct DevDependencyEntry {
    pub id: usize,
    pub name: String,
    pub dev_dependencies: Vec<String>,
}

/// What a `DevDependencyEntry` is in contracts.
pub struct DevEntryView {
    pub id: int,
    pub name: Seq<char>,
    pub dev_dependencies: Seq<Seq<char>>,
}

impl View for DevDependencyEntry {
    type V = DevEntryView;

    open spec fn view(&self) -> DevEntryView {
        DevEntryView {
            id: self.id as int,
            name: self.name@,
            dev_dependencies: texts(self.dev_dependencies@),
        }
    }
}

/// What a list of such entries is in contracts.
pub open spec fn dev_entry_views(list: Seq<DevDependencyEntry>) -> Seq<DevEntryView> {
    list.map_values(|entry: DevDependencyEntry| entry@)
}

/// The test that a link passes to be a development-only link of `p`.
pub open spec fn is_dev_link_of(p: int) -> spec_fn(DependencyLink) -> bool {
    |link: DependencyLink| link.dev_only && link.from == p
}

/// The name of the package that a link leads to.
pub open spec fn as_target_name(gv: GraphView) -> spec_fn(DependencyLink) -> Seq<char> {
    |link: DependencyLink| gv.packages[link.to as int].name
}

/// The names of the packages that `p` depends on for development alone, in
/// the order of the links of the graph.
pub open spec fn dev_dependency_names(gv: GraphView, p: int) -> Seq<Seq<char>> {
    gv.links.filter(is_dev_link_of(p)).map_values(as_target_name(gv))
}

/// The test that a package passes to be in the summary: it is a member of
/// the workspace, it is in the subgraph, and it has a development-only
/// dependency.
pub open spec fn has_dev_entry(gv: GraphView, sv: SubgraphView, workspace: Set<int>) -> spec_fn(
    int,
) -> bool {
    |p: int|
        workspace.contains(p) && sv.packages.contains(p) && dev_dependency_names(gv, p).len() > 0
}

/// The entry of the summary for a package.
pub open spec fn as_dev_entry(gv: GraphView) -> spec_fn(int) -> DevEntryView {
    |p: int|
        DevEntryView {
            id: p,
            name: gv.packages[p].name,
            dev_dependencies: dev_dependency_names(gv, p),
        }
}

/// The ids below `n`, ascending.
pub open spec fn ids_below(n: nat) -> Seq<int> {
    Seq::new(n, |i: int| i)
}

/// The summary of development-only dependencies, by ascending id.
pub open spec fn dev_summary(gv: GraphView, sv: SubgraphView, workspace: Set<int>) -> Seq<
    DevEntryView,
> {
    ids_below(gv.packages.len()).filter(has_dev_entry(gv, sv, workspace)).map_values(
        as_dev_entry(gv),
    )
}

/// The names of the development-only dependencies of one package.
fn dev_dependencies_of(graph: &DependencyGraph, id: usize) -> (names: Vec<String>)
    ensures
        texts(names@) == dev_dependency_names(graph@, id as int),
{
    let links = graph.links();
    let ghost wanted = is_dev_link_of(id as int);
    let ghost convert = as_target_name(graph@);
    let mut names: Vec<String> = Vec::new();
    let mut k: usize = 0;
    while k < links.len()
        invariant
            k <= links.len(),
            links@ == graph@.links,
            graph@.wf(),
            wanted == is_dev_link_of(id as int),
            convert == as_target_name(graph@),
            texts(names@) == links@.take(k as int).filter(wanted).map_values(convert),
        decreases links.len() - k,
    {
        let link = links[k];
        let ghost before = names@;
        proof {
            links@.lemma_take_succ_push(k as int);
            links@.take(k as int).lemma_filter_push(link, wanted);
        }
        if link.dev_only && link.from == id {
            let name = graph.package(link.to).name.clone();
            names.push(name);
            proof {
                assert(texts(names@) =~= texts(before).push(name@));
            }
        }
        k += 1;
    }
    assert(links@.take(links@.len() as int) =~= links@);
    names
}

/// Lists, for every member of the workspace that is in `subgraph` and has
/// development-only dependencies, the names of those dependencies. They
/// are read from the graph, so they are listed whether or not `subgraph`
/// kept development-only links. The entries come by ascending id.
pub fn show_dev_dependencies(
    graph: &DependencyGraph,
    subgraph: &ResolvedSubgraph,
    workspace: &WorkspaceMembership,
) -> (summary: Vec<DevDependencyEntry>)
    ensures
        dev_entry_views(summary@) == dev_summary(graph@, subgraph@, workspace@),
{
    let n = graph.package_count();
    let ghost wanted = has_dev_entry(graph@, subgraph@, workspace@);
    let ghost convert = as_dev_entry(graph@);
    let ghost numbers = ids_below(n as nat);
    let mut summary: Vec<DevDependencyEntry> = Vec::new();
    let mut p: usize = 0;
    while p < n
        invariant
            p <= n,
            n == graph@.packages.len(),
            numbers == ids_below(n as nat),
            wanted == has_dev_entry(graph@, subgraph@, workspace@),
            convert == as_dev_entry(graph@),
            dev_entry_views(summary@) == numbers.take(p as int).filter(wanted).map_values(convert),
        decreases n - p,
    {
        let ghost before = summary@;
        proof {
            numbers.lemma_take_succ_push(p as int);
            numbers.take(p as int).lemma_filter_push(p as int, wanted);
        }
        if workspace.contains(p) && subgraph.contains(p) {
            let names = dev_dependencies_of(graph, p);
            if names.len() > 0 {
                let entry = DevDependencyEntry {
                    id: p,
                    name: graph.package(p).name.clone(),
                    dev_dependencies: names,
                };
                summary.push(entry);
                proof {
                    assert(dev_entry_views(summary@) =~= dev_entry_views(before).push(entry@));
                }
            }
        }
        p += 1;
    }
    assert(numbers.take(numbers.len() as int) =~= numbers);
    summary
}

/// The name of an entry.
pub open spec fn entry_name() -> spec_fn(EntryView) -> Seq<char> {
    |entry: EntryView| entry.name
}

/// The compact listing holds the names of the entries of the listing in
/// the same mode, in the same order.
pub proof fn lemma_compact_names_match_listing(
    gv: GraphView,
    sv: SubgraphView,
    workspace: Set<int>,
    order: Seq<int>,
    all: bool,
)
    ensures
        compact_names(gv, workspace, order, all) == listing(
            gv,
            sv,
            workspace,
            order,
            all,
        ).map_values(entry_name()),
{
}

/// A name that is excluded occurs nowhere in the workspace-only listings of
/// an order: not as an entry, not as a dependency, not in the compact
/// listing. A package of the order that carries the name still has its
/// entry in all mode, marked external.
pub proof fn lemma_excluded_name_is_external(
    gv: GraphView,
    sv: SubgraphView,
    members: Seq<usize>,
    excluded: Seq<Seq<char>>,
    order: Seq<int>,
    name: Seq<char>,
)
    requires
        excluded.contains(name),
    ensures
        ({
            let workspace = membership(gv, members, excluded);
            let narrow = listing(gv, sv, workspace, order, false);
            let names = compact_names(gv, workspace, order, false);
            let wide = listing(gv, sv, workspace, order, true);
            &&& forall|i: int| 0 <= i < narrow.len() ==> (#[trigger] narrow[i]).name != name
            &&& forall|i: int, j: int|
                0 <= i < narrow.len() && 0 <= j < narrow[i].dependencies.len()
                    ==> (#[trigger] narrow[i].dependencies[j]).name != name
            &&& forall|i: int| 0 <= i < names.len() ==> #[trigger] names[i] != name
            &&& forall|p: int|
                order.contains(p) && gv.has_name(p, name) ==> exists|i: int|
                    0 <= i < wide.len() && (#[trigger] wide[i]).id == p && wide[i].name == name
                        && !wide[i].in_workspace
        }),
{
    let workspace = membership(gv, members, excluded);
    let wide = listing(gv, sv, workspace, order, true);
    assert forall|p: int| order.contains(p) && gv.has_name(p, name) implies exists|i: int|
        0 <= i < wide.len() && (#[trigger] wide[i]).id == p && wide[i].name == name
            && !wide[i].in_workspace by {
        let every = order.filter(is_shown(workspace, true));
        let at = choose|at: int| 0 <= at < order.len() && order[at] == p;
        order.lemma_filter_contains(is_shown(workspace, true), at);
        let i = choose|i: int| 0 <= i < every.len() && every[i] == p;
        assert(wide[i] == entry_of(gv, sv, workspace, p, true));
    }
}

} // verus!
