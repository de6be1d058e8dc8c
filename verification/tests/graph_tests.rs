use pkg_graph::graph::find_package;
use pkg_graph::graph::get_packages_hashmap;
use pkg_graph::graph::get_packages_vec;
use pkg_graph::graph::AppData;
use pkg_graph::graph::Package;

fn lines(v: &[&str]) -> Vec<String> {
    v.iter().map(|s| s.to_string()).collect()
}

fn load(v: &[&str]) -> Vec<Package> {
    get_packages_hashmap(&lines(v))
}

fn node<'a>(packages: &'a Vec<Package>, name: &str) -> &'a Package {
    let i = find_package(packages, name).expect("package not found");
    &packages[i]
}

#[test]
fn one_node_per_distinct_mentioned_name() {
    // Two subjects plus three names seen only in Depends clauses, with `b`
    // mentioned both ways: five distinct names, five nodes.
    let packages = load(&[
        "Package: a",
        "Depends: b, c | d",
        "",
        "Package: b",
        "Depends: e",
        "",
    ]);
    assert_eq!(packages.len(), 5);
    for name in ["a", "b", "c", "d", "e"] {
        assert!(find_package(&packages, name).is_some());
    }
}

#[test]
fn dependency_edges_have_reverse_edges() {
    let packages = load(&["Package: a", "Depends: b | c", ""]);
    let a = find_package(&packages, "a").unwrap();
    let deps = &node(&packages, "a").dependencies;
    assert_eq!(deps.len(), 1);
    for &alt in &deps[0] {
        assert!(packages[alt].reverse_dependencies.contains(&a));
    }
    // The reverse holds of nothing here: `a` depends on `b`, not vice versa.
    let b = find_package(&packages, "b").unwrap();
    assert!(!node(&packages, "a").reverse_dependencies.contains(&b));
}

#[test]
fn placeholder_nodes_are_not_installed_and_have_no_groups() {
    let packages = load(&["Package: a", "Depends: ghost", ""]);
    let ghost = node(&packages, "ghost");
    assert!(!ghost.installed);
    assert!(ghost.dependencies.is_empty());
    assert_eq!(ghost.reverse_dependencies, vec![
        find_package(&packages, "a").unwrap(),
    ]);
    assert!(node(&packages, "a").installed);
}

#[test]
fn forward_reference_becomes_installed_and_keeps_its_edges() {
    let packages = load(&[
        "Package: a",
        "Depends: b",
        "",
        "Package: b",
        "Description: late",
        "",
    ]);
    assert_eq!(packages.len(), 2);
    let b = node(&packages, "b");
    assert!(b.installed);
    assert_eq!(b.description, vec!["late".to_string()]);
    assert_eq!(b.reverse_dependencies, vec![find_package(&packages, "a").unwrap()]);
}

#[test]
fn duplicate_stanza_merges_in_place() {
    let packages = load(&[
        "Package: a",
        "Description: old",
        "Depends: b",
        "",
        "Package: a",
        "Description: new",
        "Depends: c",
        "",
    ]);
    // Still one node for `a`; description refreshed, dependencies replaced.
    assert_eq!(packages.len(), 3);
    let a = node(&packages, "a");
    assert_eq!(a.description, vec!["new".to_string()]);
    assert_eq!(a.dependencies.len(), 1);
    assert_eq!(a.dependencies[0], vec![find_package(&packages, "c").unwrap()]);
    // `b` keeps the reverse edge gained when the first stanza was read.
    let b = node(&packages, "b");
    assert_eq!(b.reverse_dependencies, vec![find_package(&packages, "a").unwrap()]);
}

#[test]
fn self_dependency_is_its_own_reverse_edge() {
    let packages = load(&["Package: a", "Depends: a", ""]);
    assert_eq!(packages.len(), 1);
    assert_eq!(packages[0].dependencies, vec![vec![0]]);
    assert_eq!(packages[0].reverse_dependencies, vec![0]);
}

#[test]
fn parse_failure_halts_ingestion() {
    // The first paragraph has no Package line: nothing at all is loaded,
    // not even the well-formed paragraph after it.
    let packages = load(&["Homepage: nowhere", "", "Package: ok", ""]);
    assert!(packages.is_empty());
}

#[test]
fn parse_failure_keeps_earlier_paragraphs() {
    let packages = load(&[
        "Package: a",
        "",
        "Homepage: nowhere",
        "",
        "Package: late",
        "",
    ]);
    assert_eq!(packages.len(), 1);
    assert!(find_package(&packages, "a").is_some());
    assert!(find_package(&packages, "late").is_none());
}

#[test]
fn reloading_identical_input_reproduces_the_graph() {
    let v = &[
        "Package: a",
        "Depends: b | c, d",
        "",
        "Package: d",
        "Description: d-desc",
        "",
    ];
    let first = load(v);
    let second = load(v);
    assert_eq!(first.len(), second.len());
    for (x, y) in first.iter().zip(second.iter()) {
        assert_eq!(x.name, y.name);
        assert_eq!(x.description, y.description);
        assert_eq!(x.dependencies, y.dependencies);
        assert_eq!(x.reverse_dependencies, y.reverse_dependencies);
        assert_eq!(x.installed, y.installed);
    }
}

#[test]
fn listing_is_sorted_by_name() {
    let packages = load(&[
        "Package: zsh",
        "",
        "Package: bash",
        "Depends: awk",
        "",
    ]);
    let order = get_packages_vec(&packages);
    assert_eq!(order.len(), packages.len());
    let names: Vec<&str> = order.iter().map(|&i| packages[i].name.as_str()).collect();
    assert_eq!(names, vec!["awk", "bash", "zsh"]);
}

#[test]
fn listing_of_empty_registry_is_empty() {
    let packages = load(&[]);
    assert!(packages.is_empty());
    assert!(get_packages_vec(&packages).is_empty());
}

#[test]
fn app_data_bundles_registry_and_listing() {
    let data = AppData::new_from_lines(&lines(&[
        "Package: b",
        "Depends: a",
        "",
    ]));
    assert_eq!(data.packages.len(), 2);
    assert_eq!(data.order.len(), 2);
    assert_eq!(data.packages[data.order[0]].name, "a");
    assert_eq!(data.packages[data.order[1]].name, "b");
}

#[test]
fn find_package_misses_unknown_names() {
    let packages = load(&["Package: a", ""]);
    assert!(find_package(&packages, "zzz").is_none());
}

#[test]
fn doubled_blank_line_halts_ingestion() {
    // The second blank line opens a paragraph that ends blank with no
    // Package line, which stops the load there.
    let packages = load(&["Package: a", "", "", "Package: b", ""]);
    assert_eq!(packages.len(), 1);
    assert!(find_package(&packages, "a").is_some());
}

#[test]
fn repeated_dependency_adds_one_reverse_edge_per_mention() {
    let packages = load(&["Package: a", "Depends: b, b", ""]);
    let a = find_package(&packages, "a").unwrap();
    let b = node(&packages, "b");
    assert_eq!(b.reverse_dependencies, vec![a, a]);
}

#[test]
fn trailing_comma_yields_an_empty_named_node() {
    let packages = load(&["Package: a", "Depends: b,", ""]);
    assert_eq!(packages.len(), 3);
    assert!(find_package(&packages, "").is_some());
    assert!(!node(&packages, "").installed);
}
