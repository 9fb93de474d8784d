//! The graph model: packages, dependency links and the graph that holds them.
//!
//! A package is known by its id, which is its position in the graph's list of
//! packages. Names need not be unique; ids are.
use vstd::prelude::*;

verus! {

/// A package: a name and a version.
#[derive(Clone, Debug, PartialEq, Eq)]
pub struct Package {
    pub name: String,
    pub version: String,
}

/// What a `Package` is in contracts.
pub struct PackageView {
    pub name: Seq<char>,
    pub version: Seq<char>,
}

impl View for Package {
    type V = PackageView;

    open spec fn view(&self) -> PackageView {
        PackageView { name: self.name@, version: self.version@ }
    }
}

/// A directed link: the package `from` depends on the package `to`.
/// `dev_only` says that the link exists for development and tests alone.
#[derive(Clone, Copy, Debug, PartialEq, Eq)]
pub struct DependencyLink {
    pub from: usize,
    pub to: usize,
    pub dev_only: bool,
}

/// What a `DependencyGraph` is in contracts: its packages by id, and its links
/// in the order in which they were added.
pub struct GraphView {
    pub packages: Seq<PackageView>,
    pub links: Seq<DependencyLink>,
}

impl GraphView {
    /// Both ends of every link are packages of the graph.
    pub open spec fn wf(self) -> bool {
        forall|k: int|
            0 <= k < self.links.len() ==> (#[trigger] self.links[k]).from < self.packages.len()
                && self.links[k].to < self.packages.len()
    }

    /// `id` is a package of the graph and carries the name `name`.
    pub open spec fn has_name(self, id: int, name: Seq<char>) -> bool {
        0 <= id < self.packages.len() && self.packages[id].name == name
    }
}

/// The packages and the links between them. Read-only once it is built.
#[derive(Debug, PartialEq, Eq)]
pub struct DependencyGraph {
    packages: Vec<Package>,
    links: Vec<DependencyLink>,
}

impl View for DependencyGraph {
    type V = GraphView;

    closed spec fn view(&self) -> GraphView {
        GraphView { packages: self.packages@.map_values(|p: Package| p@), links: self.links@ }
    }
}

impl DependencyGraph {
    /// Holds of every graph: both ends of every link are packages of it.
    #[verifier::type_invariant]
    pub open spec fn well_formed(&self) -> bool {
        self@.wf()
    }

    /// The graph of these packages and links, where the id of a package is
    /// its position in `packages`. There is no such graph if a link names a
    /// package that is not among them.
    pub fn new(packages: Vec<Package>, links: Vec<DependencyLink>) -> (built: Option<DependencyGraph>)
        ensures
            built is Some <==> forall|k: int|
                0 <= k < links@.len() ==> (#[trigger] links@[k]).from < packages@.len()
                    && links@[k].to < packages@.len(),
            built matches Some(g) ==> g@.packages == packages@.map_values(|p: Package| p@)
                && g@.links == links@,
    {
        let n = packages.len();
        let mut k: usize = 0;
        while k < links.len()
            invariant
                k <= links.len(),
                n == packages@.len(),
                forall|j: int|
                    0 <= j < k ==> (#[trigger] links@[j]).from < n && links@[j].to < n,
            decreases links.len() - k,
        {
            if links[k].from >= n || links[k].to >= n {
                return None;
            }
            k += 1;
        }
        Some(DependencyGraph { packages, links })
    }

    /// The number of packages; the ids are the numbers below it.
    pub fn package_count(&self) -> (n: usize)
        ensures
            n == self@.packages.len(),
    {
        self.packages.len()
    }

    /// The package with the id `id`.
    pub fn package(&self, id: usize) -> (p: &Package)
        requires
            id < self@.packages.len(),
        ensures
            p@ == self@.packages[id as int],
    {
        &self.packages[id]
    }

    /// The links, in the order in which they were added.
    pub fn links(&self) -> (links: &Vec<DependencyLink>)
        ensures
            links@ == self@.links,
            self@.wf(),
    {
        proof {
            use_type_invariant(self);
        }
        &self.links
    }

    /// The first package, by id, that carries the name `name`.
    pub fn find_package(&self, name: &String) -> (found: Option<usize>)
        ensures
            match found {
                Some(id) => self@.has_name(id as int, name@) && forall|j: int|
                    0 <= j < id ==> !self@.has_name(j, name@),
                None => forall|j: int| !self@.has_name(j, name@),
            },
    {
        let mut i: usize = 0;
        while i < self.packages.len()
            invariant
                i <= self.packages.len(),
                forall|j: int| 0 <= j < i ==> !self@.has_name(j, name@),
            decreases self.packages.len() - i,
        {
            if self.packages[i].name == *name {
                return Some(i);
            }
            i += 1;
        }
        None
    }
}

} // verus!
