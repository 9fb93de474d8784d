use cargo_topo::error::TopoError;
use cargo_topo::graph::{DependencyLink, Package, DependencyGraph};
use cargo_topo::order::order;
use cargo_topo::resolve::{resolve, Direction, EdgePolicy};

fn package(name: &str, version: &str) -> Package {
    Package { name: name.to_string(), version: version.to_string() }
}

fn normal(from: usize, to: usize) -> DependencyLink {
    DependencyLink { from, to, dev_only: false }
}

fn dev(from: usize, to: usize) -> DependencyLink {
    DependencyLink { from, to, dev_only: true }
}

fn graph(names: &[&str], links: Vec<DependencyLink>) -> DependencyGraph {
    let packages = names.iter().map(|name| package(name, "0.1.0")).collect();
    DependencyGraph::new(packages, links).expect("links name packages of the graph")
}

fn names(graph: &DependencyGraph, ids: &[usize]) -> Vec<String> {
    ids.iter().map(|id| graph.package(*id).name.clone()).collect()
}

/// A depends on B and C; B depends on C.
fn triangle() -> DependencyGraph {
    graph(&["A", "B", "C"], vec![normal(0, 1), normal(1, 2), normal(0, 2)])
}

#[test]
fn graph_rejects_a_link_to_a_missing_package() {
    let packages = vec![package("A", "1.0.0"), package("B", "1.0.0")];
    assert!(DependencyGraph::new(packages.clone(), vec![normal(0, 2)]).is_none());
    assert!(DependencyGraph::new(packages.clone(), vec![normal(2, 0)]).is_none());
    assert!(DependencyGraph::new(packages.clone(), vec![normal(0, 1), dev(1, 5)]).is_none());
    let built = DependencyGraph::new(packages, vec![normal(0, 1), dev(1, 0)]).unwrap();
    assert_eq!(built.package_count(), 2);
    assert_eq!(built.links().len(), 2);
    assert_eq!(built.links()[1], dev(1, 0));
    assert_eq!(built.package(1).name, "B");
}

#[test]
fn graph_without_packages_is_a_graph() {
    let empty = DependencyGraph::new(Vec::new(), Vec::new()).unwrap();
    assert_eq!(empty.package_count(), 0);
    assert!(DependencyGraph::new(Vec::new(), vec![normal(0, 0)]).is_none());
}

#[test]
fn find_package_takes_the_first_of_equal_names() {
    let g = graph(&["serde", "log", "serde"], Vec::new());
    assert_eq!(g.find_package(&"serde".to_string()), Some(0));
    assert_eq!(g.find_package(&"log".to_string()), Some(1));
    assert_eq!(g.find_package(&"Log".to_string()), None);
    assert_eq!(g.find_package(&"".to_string()), None);
}

#[test]
fn direction_has_an_opposite() {
    assert_eq!(Direction::Forward.opposite(), Direction::Reverse);
    assert_eq!(Direction::Reverse.opposite(), Direction::Forward);
    assert_eq!(Direction::Forward.opposite().opposite(), Direction::Forward);
}

#[test]
fn policy_admits_dev_links_on_request_only() {
    assert_eq!(EdgePolicy::new(false), EdgePolicy::NormalOnly);
    assert_eq!(EdgePolicy::new(true), EdgePolicy::NormalAndDev);
    assert!(EdgePolicy::NormalOnly.includes(&normal(0, 1)));
    assert!(!EdgePolicy::NormalOnly.includes(&dev(0, 1)));
    assert!(EdgePolicy::NormalAndDev.includes(&normal(0, 1)));
    assert!(EdgePolicy::NormalAndDev.includes(&dev(0, 1)));
}

#[test]
fn resolve_without_roots_takes_every_package() {
    let g = graph(&["A", "B", "C", "D"], vec![normal(0, 1), dev(2, 3)]);
    let sub = resolve(&g, &Vec::new(), Direction::Forward, EdgePolicy::NormalOnly);
    assert_eq!(sub.universe(), 4);
    for id in 0..4 {
        assert!(sub.contains(id));
    }
    assert!(!sub.contains(4));
    assert_eq!(sub.links(), &vec![normal(0, 1)]);
    let with_dev = resolve(&g, &Vec::new(), Direction::Forward, EdgePolicy::NormalAndDev);
    assert_eq!(with_dev.links(), &vec![normal(0, 1), dev(2, 3)]);
}

#[test]
fn resolve_follows_admitted_links_only() {
    // A -> B -> C, A -dev-> D -> E, F on its own
    let g = graph(
        &["A", "B", "C", "D", "E", "F"],
        vec![normal(0, 1), normal(1, 2), dev(0, 3), normal(3, 4)],
    );
    let sub = resolve(&g, &vec![0], Direction::Forward, EdgePolicy::NormalOnly);
    let inside: Vec<usize> = (0..6).filter(|id| sub.contains(*id)).collect();
    assert_eq!(inside, vec![0, 1, 2]);
    assert_eq!(sub.links(), &vec![normal(0, 1), normal(1, 2)]);

    let sub = resolve(&g, &vec![0], Direction::Forward, EdgePolicy::NormalAndDev);
    let inside: Vec<usize> = (0..6).filter(|id| sub.contains(*id)).collect();
    assert_eq!(inside, vec![0, 1, 2, 3, 4]);
    assert_eq!(sub.links(), &vec![normal(0, 1), normal(1, 2), dev(0, 3), normal(3, 4)]);
}

#[test]
fn resolve_reaches_a_package_by_another_link() {
    // D is behind a dev link from A and behind a normal link from B.
    let g = graph(&["A", "B", "D"], vec![dev(0, 2), normal(0, 1), normal(1, 2)]);
    let sub = resolve(&g, &vec![0], Direction::Forward, EdgePolicy::NormalOnly);
    assert!(sub.contains(2));
    assert_eq!(sub.links(), &vec![normal(0, 1), normal(1, 2)]);
}

#[test]
fn resolve_in_reverse_collects_dependents() {
    let g = triangle();
    let sub = resolve(&g, &vec![1], Direction::Reverse, EdgePolicy::NormalOnly);
    let inside: Vec<usize> = (0..3).filter(|id| sub.contains(*id)).collect();
    assert_eq!(inside, vec![0, 1]);
    assert_eq!(sub.links(), &vec![normal(0, 1)]);
}

#[test]
fn resolve_survives_a_cycle_and_repeated_roots() {
    let g = graph(&["A", "B", "C"], vec![normal(0, 1), normal(1, 0), normal(1, 1)]);
    let sub = resolve(&g, &vec![1, 1, 0], Direction::Forward, EdgePolicy::NormalOnly);
    let inside: Vec<usize> = (0..3).filter(|id| sub.contains(*id)).collect();
    assert_eq!(inside, vec![0, 1]);
    assert_eq!(sub.links().len(), 3);
}

#[test]
fn triangle_whole_workspace_forward_and_reverse() {
    let g = triangle();
    let sub = resolve(&g, &Vec::new(), Direction::Forward, EdgePolicy::NormalOnly);
    let forward = order(&sub, Direction::Forward).unwrap();
    assert_eq!(names(&g, &forward), vec!["C", "B", "A"]);
    let reverse = order(&sub, Direction::Reverse).unwrap();
    assert_eq!(names(&g, &reverse), vec!["A", "B", "C"]);
}

#[test]
fn triangle_from_root_b() {
    let g = triangle();
    let root = g.find_package(&"B".to_string()).unwrap();
    let sub = resolve(&g, &vec![root], Direction::Forward, EdgePolicy::NormalOnly);
    let forward = order(&sub, Direction::Forward).unwrap();
    assert_eq!(names(&g, &forward), vec!["C", "B"]);
}

#[test]
fn order_is_built_in_rounds_by_ascending_id() {
    // A -> B -> C, and D on its own: C and D can be built at once.
    let g = graph(&["A", "B", "C", "D"], vec![normal(0, 1), normal(1, 2)]);
    let sub = resolve(&g, &Vec::new(), Direction::Forward, EdgePolicy::NormalOnly);
    assert_eq!(order(&sub, Direction::Forward).unwrap(), vec![2, 3, 1, 0]);
    assert_eq!(order(&sub, Direction::Reverse).unwrap(), vec![0, 1, 3, 2]);
}

#[test]
fn order_of_unrelated_packages_is_by_id() {
    let g = graph(&["z", "m", "a"], Vec::new());
    let sub = resolve(&g, &Vec::new(), Direction::Forward, EdgePolicy::NormalOnly);
    assert_eq!(order(&sub, Direction::Forward).unwrap(), vec![0, 1, 2]);
    assert_eq!(order(&sub, Direction::Reverse).unwrap(), vec![2, 1, 0]);
}

#[test]
fn order_holds_every_package_once() {
    // a diamond with a tail and a second entry
    let g = graph(
        &["app", "left", "right", "base", "tool", "extra"],
        vec![
            normal(0, 1),
            normal(0, 2),
            normal(1, 3),
            normal(2, 3),
            normal(4, 2),
            normal(0, 3),
            normal(0, 1),
        ],
    );
    let sub = resolve(&g, &Vec::new(), Direction::Forward, EdgePolicy::NormalOnly);
    for direction in [Direction::Forward, Direction::Reverse] {
        let mut list = order(&sub, direction).unwrap();
        assert_eq!(list.len(), 6);
        list.sort();
        assert_eq!(list, vec![0, 1, 2, 3, 4, 5]);
    }
    assert_eq!(order(&sub, Direction::Forward).unwrap(), vec![3, 5, 1, 2, 0, 4]);
}

#[test]
fn order_puts_each_dependency_on_the_right_side() {
    let g = graph(
        &["app", "left", "right", "base", "tool"],
        vec![normal(0, 1), normal(0, 2), normal(1, 3), normal(2, 3), normal(4, 2)],
    );
    let sub = resolve(&g, &vec![0, 4], Direction::Forward, EdgePolicy::NormalOnly);
    let forward = order(&sub, Direction::Forward).unwrap();
    let reverse = order(&sub, Direction::Reverse).unwrap();
    let place = |list: &Vec<usize>, id: usize| list.iter().position(|x| *x == id).unwrap();
    for link in sub.links() {
        assert!(place(&forward, link.to) < place(&forward, link.from));
        assert!(place(&reverse, link.to) > place(&reverse, link.from));
    }
}

#[test]
fn reverse_order_is_forward_order_backwards() {
    let g = graph(
        &["a", "b", "c", "d", "e"],
        vec![normal(0, 3), normal(1, 3), normal(3, 4), normal(2, 4)],
    );
    let sub = resolve(&g, &Vec::new(), Direction::Forward, EdgePolicy::NormalOnly);
    let forward = order(&sub, Direction::Forward).unwrap();
    let mut backward = order(&sub, Direction::Forward.opposite()).unwrap();
    assert_eq!(forward, vec![4, 2, 3, 0, 1]);
    assert_eq!(backward, vec![1, 0, 3, 2, 4]);
    backward.reverse();
    assert_eq!(backward, forward);
    assert_eq!(order(&sub, Direction::Forward.opposite().opposite()).unwrap(), forward);
    assert_eq!(
        order(&sub, Direction::Reverse.opposite().opposite()).unwrap(),
        order(&sub, Direction::Reverse).unwrap()
    );
}

#[test]
fn cycle_of_normal_links_is_detected() {
    let g = graph(&["A", "B", "C"], vec![normal(0, 1), normal(1, 0)]);
    let sub = resolve(&g, &Vec::new(), Direction::Forward, EdgePolicy::NormalOnly);
    assert_eq!(order(&sub, Direction::Forward), Err(TopoError::CycleDetected));
    assert_eq!(order(&sub, Direction::Reverse), Err(TopoError::CycleDetected));
    // the cycle is out of reach from C
    let sub = resolve(&g, &vec![2], Direction::Forward, EdgePolicy::NormalOnly);
    assert_eq!(order(&sub, Direction::Forward), Ok(vec![2]));
}

#[test]
fn package_that_needs_itself_is_a_cycle() {
    let g = graph(&["A", "B"], vec![normal(0, 1), normal(1, 1)]);
    let sub = resolve(&g, &Vec::new(), Direction::Forward, EdgePolicy::NormalOnly);
    assert_eq!(order(&sub, Direction::Forward), Err(TopoError::CycleDetected));
}

#[test]
fn cycle_through_a_dev_link_is_tolerated() {
    // A needs B; B needs A for its tests only.
    let g = graph(&["A", "B"], vec![normal(0, 1), dev(1, 0)]);
    let sub = resolve(&g, &Vec::new(), Direction::Forward, EdgePolicy::NormalAndDev);
    assert_eq!(sub.links().len(), 2);
    assert_eq!(order(&sub, Direction::Forward), Ok(vec![1, 0]));
    assert_eq!(order(&sub, Direction::Reverse), Ok(vec![0, 1]));
}

#[test]
fn order_of_nothing_is_empty() {
    let g = DependencyGraph::new(Vec::new(), Vec::new()).unwrap();
    let sub = resolve(&g, &Vec::new(), Direction::Forward, EdgePolicy::NormalOnly);
    assert_eq!(sub.universe(), 0);
    assert_eq!(order(&sub, Direction::Forward), Ok(Vec::new()));
    assert_eq!(order(&sub, Direction::Reverse), Ok(Vec::new()));
}

#[test]
fn error_messages() {
    assert_eq!(
        TopoError::PackageNotFound("nope".to_string()).message(),
        "Package 'nope' not found in workspace"
    );
    assert_eq!(
        TopoError::ManifestResolutionFailure("`cargo metadata` failed".to_string()).message(),
        "`cargo metadata` failed"
    );
    assert_eq!(
        TopoError::CycleDetected.message(),
        "Dependency cycle detected among non-dev dependencies"
    );
}
