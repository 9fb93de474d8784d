//! The subgraph resolver: the part of a graph that can be reached from a set
//! of root packages along the links that a policy admits.
use crate::flags::{count_set, lemma_count_set_bound, lemma_count_set_update};
use crate::graph::{DependencyGraph, DependencyLink, GraphView};
use vstd::prelude::*;

verus! {

/// The two ways to walk or to list a graph. `Forward` goes from a package to
/// what it depends on and lists dependencies first; `Reverse` goes from a
/// package to what depends on it and lists dependents first.
#[derive(Clone, Copy, Debug, PartialEq, Eq, Structural)]
pub enum Direction {
    Forward,
    Reverse,
}

impl Direction {
    pub open spec fn opposite_spec(self) -> Direction {
        match self {
            Direction::Forward => Direction::Reverse,
            Direction::Reverse => Direction::Forward,
        }
    }

    /// The other direction.
    #[verifier::when_used_as_spec(opposite_spec)]
    pub fn opposite(self) -> (other: Direction)
        ensures
            other == self.opposite_spec(),
    {
        match self {
            Direction::Forward => Direction::Reverse,
            Direction::Reverse => Direction::Forward,
        }
    }
}

/// Which links count. Normal links always do; development-only links do
/// under `NormalAndDev` alone.
#[derive(Clone, Copy, Debug, PartialEq, Eq, Structural)]
pub enum EdgePolicy {
    NormalOnly,
    NormalAndDev,
}

impl EdgePolicy {
    pub open spec fn admits(self, link: DependencyLink) -> bool {
        !link.dev_only || self == EdgePolicy::NormalAndDev
    }

    /// The policy that admits development-only links exactly if
    /// `include_dev` is set.
    pub fn new(include_dev: bool) -> (policy: EdgePolicy)
        ensures
            policy == if include_dev {
                EdgePolicy::NormalAndDev
            } else {
                EdgePolicy::NormalOnly
            },
    {
        if include_dev {
            EdgePolicy::NormalAndDev
        } else {
            EdgePolicy::NormalOnly
        }
    }

    /// Whether the policy admits `link`.
    pub fn includes(self, link: &DependencyLink) -> (admitted: bool)
        ensures
            admitted == self.admits(*link),
    {
        !link.dev_only || self == EdgePolicy::NormalAndDev
    }
}

/// The end of `link` at which a walk in `direction` enters it.
pub open spec fn source(link: DependencyLink, direction: Direction) -> int {
    match direction {
        Direction::Forward => link.from as int,
        Direction::Reverse => link.to as int,
    }
}

/// The end of `link` at which a walk in `direction` leaves it.
pub open spec fn target(link: DependencyLink, direction: Direction) -> int {
    match direction {
        Direction::Forward => link.to as int,
        Direction::Reverse => link.from as int,
    }
}

/// An admitted link leads from `a` to `b` in `direction`.
pub open spec fn step(
    gv: GraphView,
    policy: EdgePolicy,
    direction: Direction,
    a: int,
    b: int,
) -> bool {
    exists|k: int|
        0 <= k < gv.links.len() && policy.admits(#[trigger] gv.links[k]) && source(
            gv.links[k],
            direction,
        ) == a && target(gv.links[k], direction) == b
}

/// `walk[i + 1]` is one step from `walk[i]`.
pub open spec fn step_at(
    gv: GraphView,
    policy: EdgePolicy,
    direction: Direction,
    walk: Seq<int>,
    i: int,
) -> bool {
    step(gv, policy, direction, walk[i], walk[i + 1])
}

/// `walk` starts at a root and goes on step by step.
pub open spec fn is_walk(
    gv: GraphView,
    policy: EdgePolicy,
    direction: Direction,
    roots: Set<int>,
    walk: Seq<int>,
) -> bool {
    &&& walk.len() > 0
    &&& roots.contains(walk[0])
    &&& forall|i: int| 0 <= i < walk.len() - 1 ==> #[trigger] step_at(gv, policy, direction, walk, i)
}

/// Some walk from a root ends at `p`.
pub open spec fn reachable(
    gv: GraphView,
    policy: EdgePolicy,
    direction: Direction,
    roots: Set<int>,
    p: int,
) -> bool {
    exists|walk: Seq<int>| #[trigger] is_walk(gv, policy, direction, roots, walk) && walk.last() == p
}

/// The roots that a list of ids stands for: the listed packages, or every
/// package of the graph where the list is empty.
pub open spec fn root_set(gv: GraphView, roots: Seq<usize>) -> Set<int> {
    if roots.len() == 0 {
        Set::new(|p: int| 0 <= p < gv.packages.len())
    } else {
        Set::new(|p: int| exists|i: int| 0 <= i < roots.len() && #[trigger] roots[i] == p)
    }
}

/// Everything that can be reached from the roots, the roots themselves
/// included.
pub open spec fn closure(
    gv: GraphView,
    policy: EdgePolicy,
    direction: Direction,
    roots: Set<int>,
) -> Set<int> {
    Set::new(|p: int| reachable(gv, policy, direction, roots, p))
}

/// The test that a link passes to stay in a subgraph: the policy admits it
/// and both its ends are among `packages`.
pub open spec fn is_retained(policy: EdgePolicy, packages: Set<int>) -> spec_fn(
    DependencyLink,
) -> bool {
    |link: DependencyLink|
        policy.admits(link) && packages.contains(link.from as int) && packages.contains(
            link.to as int,
        )
}

/// What a `ResolvedSubgraph` is in contracts. `universe` is the number of
/// packages of the graph that it was cut from.
pub struct SubgraphView {
    pub universe: nat,
    pub packages: Set<int>,
    pub links: Seq<DependencyLink>,
}

impl SubgraphView {
    /// The packages are ids of the graph, and both ends of every link are
    /// among the packages.
    pub open spec fn wf(self) -> bool {
        &&& forall|p: int| self.packages.contains(p) ==> 0 <= p < self.universe
        &&& forall|k: int|
            0 <= k < self.links.len() ==> self.packages.contains(
                (#[trigger] self.links[k]).from as int,
            ) && self.packages.contains(self.links[k].to as int)
    }
}

/// Some packages of a graph, with the links among them that were kept.
#[derive(Debug, PartialEq, Eq)]
pub struct ResolvedSubgraph {
    included: Vec<bool>,
    links: Vec<DependencyLink>,
}

impl View for ResolvedSubgraph {
    type V = SubgraphView;

    closed spec fn view(&self) -> SubgraphView {
        SubgraphView {
            universe: self.included@.len(),
            packages: Set::new(|p: int| 0 <= p < self.included@.len() && self.included@[p]),
            links: self.links@,
        }
    }
}

impl ResolvedSubgraph {
    /// Holds of every subgraph: its packages are ids of the graph, and both
    /// ends of every link that it kept are among its packages.
    #[verifier::type_invariant]
    pub open spec fn well_formed(&self) -> bool {
        self@.wf()
    }

    /// The number of packages of the graph that the subgraph was cut from.
    pub fn universe(&self) -> (n: usize)
        ensures
            n == self@.universe,
    {
        self.included.len()
    }

    /// Whether the package `id` is in the subgraph.
    pub fn contains(&self, id: usize) -> (present: bool)
        ensures
            present == self@.packages.contains(id as int),
    {
        id < self.included.len() && self.included[id]
    }

    /// The links that were kept, in the order of the graph.
    pub fn links(&self) -> (links: &Vec<DependencyLink>)
        ensures
            links@ == self@.links,
            self@.wf(),
    {
        proof {
            use_type_invariant(self);
        }
        &self.links
    }
}

/// A set that holds the roots and is closed under steps holds every package
/// on a walk.
proof fn lemma_closed_set_holds_walk(
    gv: GraphView,
    policy: EdgePolicy,
    direction: Direction,
    roots: Set<int>,
    closed: Set<int>,
    walk: Seq<int>,
    i: int,
)
    requires
        is_walk(gv, policy, direction, roots, walk),
        0 <= i < walk.len(),
        forall|p: int| roots.contains(p) ==> closed.contains(p),
        forall|k: int|
            0 <= k < gv.links.len() && policy.admits(#[trigger] gv.links[k]) && closed.contains(
                source(gv.links[k], direction),
            ) ==> closed.contains(target(gv.links[k], direction)),
    ensures
        closed.contains(walk[i]),
    decreases i,
{
    if i > 0 {
        lemma_closed_set_holds_walk(gv, policy, direction, roots, closed, walk, i - 1);
        assert(step_at(gv, policy, direction, walk, i - 1));
    }
}

/// One more step from a package that can be reached leads to a package that
/// can be reached.
proof fn lemma_reachable_step(
    gv: GraphView,
    policy: EdgePolicy,
    direction: Direction,
    roots: Set<int>,
    k: int,
)
    requires
        0 <= k < gv.links.len(),
        policy.admits(gv.links[k]),
        reachable(gv, policy, direction, roots, source(gv.links[k], direction)),
    ensures
        reachable(gv, policy, direction, roots, target(gv.links[k], direction)),
{
    let a = source(gv.links[k], direction);
    let b = target(gv.links[k], direction);
    let walk = choose|walk: Seq<int>| #[trigger]
        is_walk(gv, policy, direction, roots, walk) && walk.last() == a;
    let longer = walk.push(b);
    assert forall|i: int| 0 <= i < longer.len() - 1 implies #[trigger] step_at(
        gv,
        policy,
        direction,
        longer,
        i,
    ) by {
        if i < walk.len() - 1 {
            assert(step_at(gv, policy, direction, walk, i));
        }
    }
    assert(is_walk(gv, policy, direction, roots, longer) && longer.last() == b);
}

/// A root can be reached.
proof fn lemma_reachable_root(
    gv: GraphView,
    policy: EdgePolicy,
    direction: Direction,
    roots: Set<int>,
    p: int,
)
    requires
        roots.contains(p),
    ensures
        reachable(gv, policy, direction, roots, p),
{
    let walk = seq![p];
    assert(is_walk(gv, policy, direction, roots, walk) && walk.last() == p);
}

/// `p` waits in `pending` for its links to be followed.
spec fn waits(pending: Seq<usize>, p: int) -> bool {
    exists|j: int| 0 <= j < pending.len() && #[trigger] pending[j] == p
}

/// Link `k` has been followed: it does not lead from a package that is
/// included and no longer waits to one that is not included.
spec fn followed(
    gv: GraphView,
    policy: EdgePolicy,
    direction: Direction,
    included: Seq<bool>,
    pending: Seq<usize>,
    k: int,
) -> bool {
    let a = source(gv.links[k], direction);
    let b = target(gv.links[k], direction);
    policy.admits(gv.links[k]) && included[a] && !waits(pending, a) ==> included[b]
}

/// Computes the closure of `roots` in `graph`: the roots, and every package
/// that a chain of admitted links leads to from a root, walking in
/// `direction`. An empty list of roots stands for every package of the graph.
/// A package is entered once, however many links lead to it. The links that
/// are kept are the admitted links between packages of the closure.
pub fn resolve(
    graph: &DependencyGraph,
    roots: &Vec<usize>,
    direction: Direction,
    policy: EdgePolicy,
) -> (sub: ResolvedSubgraph)
    requires
        forall|i: int| 0 <= i < roots@.len() ==> roots@[i] < graph@.packages.len(),
    ensures
        sub@.universe == graph@.packages.len(),
        sub@.packages == closure(graph@, policy, direction, root_set(graph@, roots@)),
        sub@.links == graph@.links.filter(is_retained(policy, sub@.packages)),
{
    let n = graph.package_count();
    let links = graph.links();
    let ghost gv = graph@;
    let ghost rs = root_set(gv, roots@);
    let whole = roots.len() == 0;
    let mut included: Vec<bool> = Vec::new();
    let mut pending: Vec<usize> = Vec::new();
    let mut p: usize = 0;
    while p < n
        invariant
            p <= n,
            included@.len() == p,
            forall|q: int| 0 <= q < p ==> included@[q] == whole,
        decreases n - p,
    {
        included.push(whole);
        p += 1;
    }
    let mut i: usize = 0;
    while i < roots.len()
        invariant
            i <= roots.len(),
            included@.len() == n,
            n == gv.packages.len(),
            rs == root_set(gv, roots@),
            whole == (roots@.len() == 0),
            forall|j: int| 0 <= j < roots@.len() ==> roots@[j] < n,
            forall|j: int| 0 <= j < pending@.len() ==> pending@[j] < n && included@[pending@[j] as int],
            whole ==> forall|q: int| 0 <= q < n ==> #[trigger] included@[q],
            !whole ==> forall|q: int|
                0 <= q < n && #[trigger] included@[q] ==> rs.contains(q) && waits(pending@, q),
            forall|j: int| 0 <= j < i ==> included@[roots@[j] as int],
        decreases roots.len() - i,
    {
        let r = roots[i];
        if !included[r] {
            let ghost before = pending@;
            included.set(r, true);
            pending.push(r);
            proof {
                assert(pending@[before.len() as int] == r);
                assert forall|q: int| 0 <= q < n && included@[q] implies rs.contains(q) && waits(
                    pending@,
                    q,
                ) by {
                    if q != r {
                        let j = choose|j: int| 0 <= j < before.len() && #[trigger] before[j] == q;
                        assert(pending@[j] == q);
                    }
                }
            }
        }
        i += 1;
    }
    proof {
        assert forall|q: int| 0 <= q < n && included@[q] implies reachable(
            gv,
            policy,
            direction,
            rs,
            q,
        ) by {
            lemma_reachable_root(gv, policy, direction, rs, q);
        }
        lemma_count_set_bound(included@);
    }
    while pending.len() > 0
        invariant
            links@ == gv.links,
            gv.wf(),
            n == gv.packages.len(),
            included@.len() == n,
            count_set(included@) <= n,
            forall|j: int| 0 <= j < pending@.len() ==> pending@[j] < n && included@[pending@[j] as int],
            forall|q: int| 0 <= q < n && included@[q] ==> reachable(gv, policy, direction, rs, q),
            forall|q: int| rs.contains(q) ==> 0 <= q < n && included@[q],
            forall|k: int|
                0 <= k < gv.links.len() ==> #[trigger] followed(
                    gv,
                    policy,
                    direction,
                    included@,
                    pending@,
                    k,
                ),
        decreases n - count_set(included@), pending@.len(),
    {
        let ghost included_before = included@;
        let ghost pending_before = pending@;
        let u = pending.pop().unwrap();
        let ghost pending_rest = pending@;
        proof {
            assert forall|j: int|
                0 <= j < gv.links.len() && source(gv.links[j], direction)
                    != u implies #[trigger] followed(
                gv,
                policy,
                direction,
                included@,
                pending@,
                j,
            ) by {
                let s = source(gv.links[j], direction);
                assert(followed(gv, policy, direction, included@, pending_before, j));
                if waits(pending_before, s) {
                    let w = choose|w: int|
                        0 <= w < pending_before.len() && #[trigger] pending_before[w] == s;
                    assert(pending_rest[w] == s);
                }
            }
        }
        let mut k: usize = 0;
        while k < links.len()
            invariant
                k <= links.len(),
                links@ == gv.links,
                gv.wf(),
                n == gv.packages.len(),
                included@.len() == n,
                u < n,
                included@[u as int],
                pending_before.len() > 0,
                pending_rest == pending_before.drop_last(),
                u == pending_before.last(),
                pending@.len() >= pending_rest.len(),
                count_set(included@) == count_set(included_before) + pending@.len()
                    - pending_rest.len(),
                count_set(included@) <= n,
                forall|j: int|
                    0 <= j < pending@.len() ==> pending@[j] < n && included@[pending@[j] as int],
                forall|q: int|
                    0 <= q < n && included@[q] ==> reachable(gv, policy, direction, rs, q),
                forall|q: int| rs.contains(q) ==> 0 <= q < n && included@[q],
                forall|j: int|
                    0 <= j < gv.links.len() && source(gv.links[j], direction) != u
                        ==> #[trigger] followed(gv, policy, direction, included@, pending@, j),
                forall|j: int|
                    0 <= j < k && policy.admits(#[trigger] gv.links[j]) && source(
                        gv.links[j],
                        direction,
                    ) == u ==> included@[target(gv.links[j], direction)],
            decreases links.len() - k,
        {
            let link = links[k];
            if policy.includes(&link) {
                let (a, b) = match direction {
                    Direction::Forward => (link.from, link.to),
                    Direction::Reverse => (link.to, link.from),
                };
                if a == u && !included[b] {
                    let ghost included_old = included@;
                    let ghost pending_old = pending@;
                    proof {
                        lemma_reachable_step(gv, policy, direction, rs, k as int);
                        lemma_count_set_update(included@, b as int);
                    }
                    included.set(b, true);
                    pending.push(b);
                    proof {
                        lemma_count_set_bound(included@);
                        assert forall|j: int|
                            0 <= j < gv.links.len() && source(gv.links[j], direction)
                                != u implies #[trigger] followed(
                            gv,
                            policy,
                            direction,
                            included@,
                            pending@,
                            j,
                        ) by {
                            let s = source(gv.links[j], direction);
                            assert(followed(gv, policy, direction, included_old, pending_old, j));
                            if policy.admits(gv.links[j]) && included@[s] && !waits(pending@, s) {
                                assert(pending@[pending_old.len() as int] == b);
                                if waits(pending_old, s) {
                                    let w = choose|w: int|
                                        0 <= w < pending_old.len() && #[trigger] pending_old[w]
                                            == s;
                                    assert(pending@[w] == s);
                                }
                            }
                        }
                    }
                }
            }
            k += 1;
        }
    }
    let ghost packages = Set::new(|q: int| 0 <= q < n && included@[q]);
    proof {
        assert forall|k: int|
            0 <= k < gv.links.len() && policy.admits(#[trigger] gv.links[k]) && packages.contains(
                source(gv.links[k], direction),
            ) implies packages.contains(target(gv.links[k], direction)) by {
            assert(followed(gv, policy, direction, included@, pending@, k));
        }
        assert forall|q: int| reachable(gv, policy, direction, rs, q) implies packages.contains(
            q,
        ) by {
            let walk = choose|walk: Seq<int>| #[trigger]
                is_walk(gv, policy, direction, rs, walk) && walk.last() == q;
            lemma_closed_set_holds_walk(
                gv,
                policy,
                direction,
                rs,
                packages,
                walk,
                walk.len() - 1,
            );
        }
    }
    let ghost keep = is_retained(policy, packages);
    let mut kept: Vec<DependencyLink> = Vec::new();
    let mut k: usize = 0;
    while k < links.len()
        invariant
            k <= links.len(),
            links@ == gv.links,
            gv.wf(),
            n == gv.packages.len(),
            included@.len() == n,
            packages == Set::new(|q: int| 0 <= q < n && included@[q]),
            keep == is_retained(policy, packages),
            kept@ == links@.take(k as int).filter(keep),
            forall|j: int|
                0 <= j < kept@.len() ==> packages.contains((#[trigger] kept@[j]).from as int)
                    && packages.contains(kept@[j].to as int),
        decreases links.len() - k,
    {
        let link = links[k];
        proof {
            links@.lemma_take_succ_push(k as int);
            links@.take(k as int).lemma_filter_push(link, keep);
        }
        if policy.includes(&link) && included[link.from] && included[link.to] {
            kept.push(link);
        }
        k += 1;
    }
    proof {
        assert(links@.take(links@.len() as int) =~= links@);
    }
    ResolvedSubgraph { included, links: kept }
}

} // verus!
