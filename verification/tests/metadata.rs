use cargo_topo::command::{run_topo_command, Report, TopoArgs};
use cargo_topo::error::TopoError;
use cargo_topo::graph::DependencyLink;
use cargo_topo::metadata::{assemble, from_guppy, LinkRecord, PackageRecord};

fn record(id: &str, name: &str, version: &str) -> PackageRecord {
    PackageRecord { id: id.to_string(), name: name.to_string(), version: version.to_string() }
}

fn link(from: &str, to: &str, dev_only: bool) -> LinkRecord {
    LinkRecord { from: from.to_string(), to: to.to_string(), dev_only }
}

fn strings(list: &[&str]) -> Vec<String> {
    list.iter().map(|text| text.to_string()).collect()
}

fn inconsistent() -> TopoError {
    TopoError::ManifestResolutionFailure(
        "the resolved graph names a package that it does not hold".to_string(),
    )
}

/// The id string that cargo gives a package of the workspace at /ws.
fn member_id(name: &str, version: &str) -> String {
    format!("path+file:///ws/{}#{}", name, version)
}

/// The id string that cargo gives a package from crates.io.
fn registry_id(name: &str, version: &str) -> String {
    format!("registry+https://github.com/rust-lang/crates.io-index#{}@{}", name, version)
}

/// One package in the form of `cargo metadata`: its name, its version,
/// whether it is a member of the workspace, and its dependencies by name
/// and kind.
fn package_json(name: &str, version: &str, member: bool, needs: &[(&str, bool)]) -> String {
    let (id, source, manifest) = if member {
        (member_id(name, version), "null".to_string(), format!("/ws/{}/Cargo.toml", name))
    } else {
        (
            registry_id(name, version),
            "\"registry+https://github.com/rust-lang/crates.io-index\"".to_string(),
            format!("/registry/{}-{}/Cargo.toml", name, version),
        )
    };
    let dependencies: Vec<String> = needs
        .iter()
        .map(|(needed, dev)| {
            format!(
                "{{\"name\":\"{}\",\"source\":null,\"req\":\"*\",\"kind\":{},\"rename\":null,\
                 \"optional\":false,\"uses_default_features\":true,\"features\":[],\
                 \"target\":null,\"registry\":null}}",
                needed,
                if *dev { "\"dev\"" } else { "null" }
            )
        })
        .collect();
    format!(
        "{{\"name\":\"{name}\",\"version\":\"{version}\",\"id\":\"{id}\",\"license\":null,\
         \"license_file\":null,\"description\":null,\"source\":{source},\
         \"dependencies\":[{dependencies}],\
         \"targets\":[{{\"kind\":[\"lib\"],\"crate_types\":[\"lib\"],\"name\":\"{name}\",\
         \"src_path\":\"/src/{name}/lib.rs\",\"edition\":\"2021\",\"doc\":true,\
         \"doctest\":true,\"test\":true}}],\
         \"features\":{{}},\"manifest_path\":\"{manifest}\",\"metadata\":null,\
         \"publish\":null,\"authors\":[],\"categories\":[],\"keywords\":[],\"readme\":null,\
         \"repository\":null,\"homepage\":null,\"documentation\":null,\"edition\":\"2021\",\
         \"links\":null,\"default_run\":null,\"rust_version\":null}}",
        name = name,
        version = version,
        id = id,
        source = source,
        dependencies = dependencies.join(","),
        manifest = manifest
    )
}

/// One node of the resolution in the form of `cargo metadata`.
fn node_json(id: &str, needs: &[(&str, String, bool)]) -> String {
    let deps: Vec<String> = needs
        .iter()
        .map(|(name, pkg, dev)| {
            format!(
                "{{\"name\":\"{}\",\"pkg\":\"{}\",\"dep_kinds\":[{{\"kind\":{},\"target\":null}}]}}",
                name,
                pkg,
                if *dev { "\"dev\"" } else { "null" }
            )
        })
        .collect();
    let plain: Vec<String> = needs.iter().map(|(_, pkg, _)| format!("\"{}\"", pkg)).collect();
    format!(
        "{{\"id\":\"{}\",\"dependencies\":[{}],\"deps\":[{}],\"features\":[]}}",
        id,
        plain.join(","),
        deps.join(",")
    )
}

/// What `cargo metadata` prints for a workspace with the members app, core
/// and util and the external package log. app needs core and log, core
/// needs util, util needs log; core needs app for its tests.
fn workspace_json() -> String {
    let app = member_id("app", "0.3.0");
    let core = member_id("core", "0.2.0");
    let util = member_id("util", "0.1.0");
    let log = registry_id("log", "0.4.21");
    let packages = vec![
        package_json("app", "0.3.0", true, &[("core", false), ("log", false)]),
        package_json("core", "0.2.0", true, &[("util", false), ("app", true)]),
        package_json("util", "0.1.0", true, &[("log", false)]),
        package_json("log", "0.4.21", false, &[]),
    ];
    let nodes = vec![
        node_json(&app, &[("core", core.clone(), false), ("log", log.clone(), false)]),
        node_json(&core, &[("util", util.clone(), false), ("app", app.clone(), true)]),
        node_json(&util, &[("log", log.clone(), false)]),
        node_json(&log, &[]),
    ];
    format!(
        "{{\"packages\":[{}],\"workspace_members\":[\"{}\",\"{}\",\"{}\"],\
         \"resolve\":{{\"nodes\":[{}],\"root\":null}},\"target_directory\":\"/ws/target\",\
         \"version\":1,\"workspace_root\":\"/ws\",\"metadata\":null}}",
        packages.join(","),
        app,
        core,
        util,
        nodes.join(",")
    )
}

#[test]
fn assemble_numbers_packages_by_position() {
    let packages =
        vec![record("id-a", "a", "1.0.0"), record("id-b", "b", "2.0.0"), record("id-c", "c", "3.0.0")];
    let links = vec![link("id-c", "id-a", false), link("id-b", "id-c", true)];
    let (graph, members) = assemble(&packages, &links, &strings(&["id-c", "id-a"])).unwrap();
    assert_eq!(graph.package_count(), 3);
    assert_eq!(graph.package(0).name, "a");
    assert_eq!(graph.package(1).version, "2.0.0");
    assert_eq!(graph.package(2).name, "c");
    assert_eq!(
        graph.links(),
        &vec![
            DependencyLink { from: 2, to: 0, dev_only: false },
            DependencyLink { from: 1, to: 2, dev_only: true }
        ]
    );
    assert_eq!(members, vec![2, 0]);
}

#[test]
fn assemble_takes_the_first_of_equal_id_strings() {
    let packages = vec![record("x", "one", "1.0.0"), record("x", "two", "1.0.0")];
    let (graph, members) = assemble(&packages, &vec![link("x", "x", true)], &strings(&["x"])).unwrap();
    assert_eq!(graph.links(), &vec![DependencyLink { from: 0, to: 0, dev_only: true }]);
    assert_eq!(members, vec![0]);
}

#[test]
fn assemble_fails_on_an_unknown_id_string() {
    let packages = vec![record("id-a", "a", "1.0.0"), record("id-b", "b", "2.0.0")];
    let fine = vec![link("id-a", "id-b", false)];
    assert!(assemble(&packages, &fine, &strings(&["id-a"])).is_ok());
    assert_eq!(
        assemble(&packages, &vec![link("id-a", "id-z", false)], &Vec::new()).unwrap_err(),
        inconsistent()
    );
    assert_eq!(
        assemble(&packages, &vec![link("a", "id-b", false)], &Vec::new()).unwrap_err(),
        inconsistent()
    );
    assert_eq!(assemble(&packages, &fine, &strings(&["id-a", "b"])).unwrap_err(), inconsistent());
    assert_eq!(
        assemble(&Vec::new(), &Vec::new(), &strings(&[""])).unwrap_err().message(),
        "the resolved graph names a package that it does not hold"
    );
}

#[test]
fn assemble_of_nothing_is_the_empty_graph() {
    let (graph, members) = assemble(&Vec::new(), &Vec::new(), &Vec::new()).unwrap();
    assert_eq!(graph.package_count(), 0);
    assert!(graph.links().is_empty());
    assert!(members.is_empty());
}

#[test]
fn from_guppy_takes_packages_links_and_members() {
    let resolved = guppy::graph::PackageGraph::from_json(workspace_json()).unwrap();
    let (graph, members) = from_guppy(&resolved).unwrap();
    assert_eq!(graph.package_count(), 4);
    let id_of = |name: &str| graph.find_package(&name.to_string()).unwrap();
    let (app, core, util, log) = (id_of("app"), id_of("core"), id_of("util"), id_of("log"));
    assert_eq!(graph.package(app).version, "0.3.0");
    assert_eq!(graph.package(log).version, "0.4.21");
    let mut links: Vec<(usize, usize, bool)> =
        graph.links().iter().map(|link| (link.from, link.to, link.dev_only)).collect();
    links.sort();
    let mut expected = vec![
        (app, core, false),
        (app, log, false),
        (core, util, false),
        (core, app, true),
        (util, log, false),
    ];
    expected.sort();
    assert_eq!(links, expected);
    let mut sorted = members.clone();
    sorted.sort();
    let mut expected = vec![app, core, util];
    expected.sort();
    assert_eq!(sorted, expected);
}

#[test]
fn test_workspace_member_identification() {
    let resolved = guppy::graph::PackageGraph::from_json(workspace_json()).unwrap();
    let (graph, members) = from_guppy(&resolved).unwrap();
    // Should be able to identify workspace members
    assert!(!members.is_empty());
    // Each workspace member should be found in the package graph
    for id in members {
        assert!(id < graph.package_count());
    }
}

#[test]
fn test_current_workspace() {
    let resolved = guppy::graph::PackageGraph::from_json(workspace_json()).unwrap();
    let (graph, members) = from_guppy(&resolved).unwrap();
    // Should have at least one workspace member
    assert!(members.len() > 0);
    // Test topological ordering doesn't panic
    let query = TopoArgs {
        reverse: false,
        include_dev: false,
        all: true,
        compact: true,
        package: None,
        exclude: Vec::new(),
    };
    let packages = match run_topo_command(&graph, &members, &query).unwrap() {
        Report::Compact(names) => names,
        Report::Listing { .. } => panic!("bare names were asked for"),
    };
    assert!(!packages.is_empty());
}

#[test]
fn guppy_graph_in_build_order() {
    let resolved = guppy::graph::PackageGraph::from_json(workspace_json()).unwrap();
    let (graph, members) = from_guppy(&resolved).unwrap();
    let mut query = TopoArgs {
        reverse: false,
        include_dev: true,
        all: false,
        compact: true,
        package: None,
        exclude: Vec::new(),
    };
    assert_eq!(
        run_topo_command(&graph, &members, &query),
        Ok(Report::Compact(strings(&["util", "core", "app"])))
    );
    query.all = true;
    query.reverse = true;
    assert_eq!(
        run_topo_command(&graph, &members, &query),
        Ok(Report::Compact(strings(&["app", "core", "util", "log"])))
    );
    query.package = Some("util".to_string());
    query.reverse = false;
    assert_eq!(
        run_topo_command(&graph, &members, &query),
        Ok(Report::Compact(strings(&["log", "util"])))
    );
}
