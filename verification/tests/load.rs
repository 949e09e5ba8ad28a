use cargo_deps::dependency::Dependency;
use cargo_deps::metadata::{
    edge_accepts, find_locked, kind_text, latest_version, load_dependencies, next_leader,
    resolve_edge, DependencyKind, Edge, Graph, LoadError, Package,
};

fn strings(items: &[&str]) -> Vec<String> {
    items.iter().map(|s| s.to_string()).collect()
}

fn package(name: &str, version: &str, features: &[&str]) -> Package {
    Package { name: name.to_string(), version: version.to_string(), features: strings(features) }
}

fn edge(name: &str, req: &str, kind: DependencyKind, features: &[&str]) -> Edge {
    Edge {
        name: name.to_string(),
        req: req.to_string(),
        kind,
        target: None,
        features: strings(features),
    }
}

fn graph(edges: Vec<Edge>, packages: Vec<Package>) -> Graph {
    Graph { root_dependencies: Some(edges), packages }
}

fn names(deps: &[Dependency]) -> Vec<String> {
    deps.iter().map(|d| d.name.clone()).collect()
}

#[test]
fn missing_root_package_is_an_error() {
    let g = Graph { root_dependencies: None, packages: vec![package("serde", "1.0.0", &[])] };
    assert_eq!(load_dependencies(&g), Err(LoadError::MissingRootPackage));
}

#[test]
fn root_without_dependencies_gives_an_empty_list() {
    let g = graph(vec![], vec![package("serde", "1.0.0", &[])]);
    assert_eq!(load_dependencies(&g), Ok(vec![]));
}

#[test]
fn unresolved_dependency_names_the_edge() {
    let g = graph(
        vec![edge("serde", "^1", DependencyKind::Normal, &[])],
        vec![package("serde", "0.9.0", &[]), package("libc", "1.0.0", &[])],
    );
    assert_eq!(
        load_dependencies(&g),
        Err(LoadError::UnresolvedDependency("serde".to_string()))
    );
}

#[test]
fn the_first_unresolved_edge_is_reported() {
    let g = graph(
        vec![
            edge("serde", "^1", DependencyKind::Normal, &[]),
            edge("zzz", "^1", DependencyKind::Normal, &[]),
            edge("aaa", "^1", DependencyKind::Normal, &[]),
        ],
        vec![package("serde", "1.0.0", &[])],
    );
    assert_eq!(load_dependencies(&g), Err(LoadError::UnresolvedDependency("zzz".to_string())));
}

#[test]
fn error_messages() {
    assert_eq!(LoadError::MissingRootPackage.message(), "No root package found");
    assert_eq!(
        LoadError::UnresolvedDependency("serde".to_string()).message(),
        "Resolved package not found for serde"
    );
}

#[test]
fn record_holds_locked_and_latest_version() {
    let g = graph(
        vec![edge("serde", "^1.0.190", DependencyKind::Normal, &["derive"])],
        vec![
            package("libc", "0.2.150", &[]),
            package("serde", "1.0.195", &["std", "derive", "alloc"]),
            package("serde", "1.0.210", &["std"]),
        ],
    );
    let deps = load_dependencies(&g).unwrap();
    assert_eq!(
        deps,
        vec![Dependency {
            name: "serde".to_string(),
            version: "1.0.210".to_string(),
            locked_version: Some("1.0.195".to_string()),
            kind: "normal".to_string(),
            enabled_features: strings(&["derive"]),
            disabled_features: strings(&["alloc", "std"]),
            all_features: strings(&["alloc", "derive", "std"]),
        }]
    );
}

#[test]
fn the_first_satisfying_package_is_locked() {
    let packages = vec![
        package("foo", "1.3.0", &["late"]),
        package("foo", "1.2.0", &["early"]),
        package("foo", "1.4.0", &[]),
    ];
    let e = edge("foo", ">=1.2, <1.4", DependencyKind::Normal, &[]);
    assert_eq!(find_locked(&e, &packages), Some(0));
    let deps = load_dependencies(&graph(vec![e], packages)).unwrap();
    assert_eq!(deps[0].locked_version, Some("1.3.0".to_string()));
    assert_eq!(deps[0].all_features, strings(&["late"]));
    assert_eq!(deps[0].version, "1.4.0");
}

#[test]
fn a_package_of_another_name_is_never_locked() {
    let packages = vec![package("bar", "1.0.0", &[]), package("foo", "1.0.0", &[])];
    let e = edge("foo", "^1", DependencyKind::Normal, &[]);
    assert_eq!(find_locked(&e, &packages), Some(1));
    let none = edge("baz", "*", DependencyKind::Normal, &[]);
    assert_eq!(find_locked(&none, &packages), None);
}

#[test]
fn latest_version_may_fall_outside_the_requirement() {
    let g = graph(
        vec![edge("foo", "^1", DependencyKind::Normal, &[])],
        vec![package("foo", "2.0.1", &[]), package("foo", "1.9.0", &[])],
    );
    let deps = load_dependencies(&g).unwrap();
    assert_eq!(deps[0].locked_version, Some("1.9.0".to_string()));
    assert_eq!(deps[0].version, "2.0.1");
}

#[test]
fn versions_are_ordered_by_number_not_by_text() {
    let packages = vec![
        package("foo", "1.9.0", &[]),
        package("foo", "1.10.0", &[]),
        package("foo", "1.2.0", &[]),
    ];
    assert_eq!(latest_version("foo", &packages), "1.10.0");
}

#[test]
fn a_release_is_greater_than_its_prereleases() {
    let packages = vec![
        package("foo", "1.0.0", &[]),
        package("foo", "1.0.0-rc.1", &[]),
        package("foo", "1.0.0-alpha", &[]),
    ];
    assert_eq!(latest_version("foo", &packages), "1.0.0");
    let only_pre = vec![package("foo", "1.0.0-alpha", &[]), package("foo", "1.0.0-beta", &[])];
    assert_eq!(latest_version("foo", &only_pre), "1.0.0-beta");
}

#[test]
fn latest_version_ignores_other_names_and_broken_versions() {
    let packages = vec![
        package("bar", "9.0.0", &[]),
        package("foo", "0.1.0", &[]),
        package("foo", "not a version", &[]),
    ];
    assert_eq!(latest_version("foo", &packages), "0.1.0");
    assert_eq!(latest_version("baz", &packages), "?");
}

#[test]
fn a_prerelease_needs_a_requirement_that_names_it() {
    let packages = vec![package("foo", "1.0.0-alpha.1", &[])];
    assert_eq!(find_locked(&edge("foo", "^1", DependencyKind::Normal, &[]), &packages), None);
    assert_eq!(
        find_locked(&edge("foo", "=1.0.0-alpha.1", DependencyKind::Normal, &[]), &packages),
        Some(0)
    );
}

#[test]
fn a_requirement_that_does_not_parse_admits_nothing() {
    let packages = vec![package("foo", "1.0.0", &[])];
    assert_eq!(find_locked(&edge("foo", "???", DependencyKind::Normal, &[]), &packages), None);
}

#[test]
fn edge_accepts_needs_the_name_and_a_known_yes() {
    assert!(edge_accepts(true, Some(true)));
    assert!(!edge_accepts(true, Some(false)));
    assert!(!edge_accepts(true, None));
    assert!(!edge_accepts(false, Some(true)));
}

#[test]
fn next_leader_steps() {
    assert_eq!(next_leader(None, 3, false, None), None);
    assert_eq!(next_leader(Some(1), 3, false, Some(false)), Some(1));
    assert_eq!(next_leader(None, 3, true, None), Some(3));
    assert_eq!(next_leader(Some(1), 3, true, Some(true)), Some(1));
    assert_eq!(next_leader(Some(1), 3, true, Some(false)), Some(3));
    assert_eq!(next_leader(Some(1), 3, true, None), Some(3));
}

#[test]
fn kinds_have_their_words() {
    assert_eq!(kind_text(&edge("a", "*", DependencyKind::Normal, &[])), "normal");
    assert_eq!(kind_text(&edge("a", "*", DependencyKind::Development, &[])), "dev");
    assert_eq!(kind_text(&edge("a", "*", DependencyKind::Build, &[])), "build");
    assert_eq!(kind_text(&edge("a", "*", DependencyKind::Unknown, &[])), "unknown");
}

#[test]
fn a_target_overrides_the_class() {
    let mut e = edge("winapi", "*", DependencyKind::Build, &[]);
    e.target = Some("cfg(windows)".to_string());
    assert_eq!(kind_text(&e), "target(cfg(windows))");
    e.target = Some("x86_64-unknown-linux-gnu".to_string());
    assert_eq!(kind_text(&e), "target(x86_64-unknown-linux-gnu)");
}

#[test]
fn the_list_is_sorted_by_name() {
    let g = graph(
        vec![
            edge("serde", "*", DependencyKind::Normal, &[]),
            edge("anyhow", "*", DependencyKind::Normal, &[]),
            edge("libc", "*", DependencyKind::Normal, &[]),
            edge("Zlib", "*", DependencyKind::Normal, &[]),
        ],
        vec![
            package("libc", "0.2.0", &[]),
            package("serde", "1.0.0", &[]),
            package("Zlib", "1.0.0", &[]),
            package("anyhow", "1.0.0", &[]),
        ],
    );
    let deps = load_dependencies(&g).unwrap();
    assert_eq!(names(&deps), strings(&["Zlib", "anyhow", "libc", "serde"]));
}

#[test]
fn records_of_one_name_keep_their_order() {
    let g = graph(
        vec![
            edge("foo", "*", DependencyKind::Build, &[]),
            edge("bar", "*", DependencyKind::Normal, &[]),
            edge("foo", "*", DependencyKind::Normal, &[]),
            edge("foo", "*", DependencyKind::Development, &[]),
        ],
        vec![package("foo", "1.0.0", &[]), package("bar", "1.0.0", &[])],
    );
    let deps = load_dependencies(&g).unwrap();
    assert_eq!(names(&deps), strings(&["bar", "foo", "foo", "foo"]));
    let kinds: Vec<String> = deps.iter().map(|d| d.kind.clone()).collect();
    assert_eq!(kinds, strings(&["normal", "build", "normal", "dev"]));
}

#[test]
fn features_are_sorted_once_each_and_partitioned() {
    let g = graph(
        vec![edge("foo", "*", DependencyKind::Normal, &["std", "absent", "derive"])],
        vec![package("foo", "1.0.0", &["std", "alloc", "derive", "std", "rc", "alloc"])],
    );
    let deps = load_dependencies(&g).unwrap();
    let d = &deps[0];
    assert_eq!(d.all_features, strings(&["alloc", "derive", "rc", "std"]));
    assert_eq!(d.enabled_features, strings(&["derive", "std"]));
    assert_eq!(d.disabled_features, strings(&["alloc", "rc"]));
    for f in &d.all_features {
        assert_ne!(d.enabled_features.contains(f), d.disabled_features.contains(f));
    }
    for f in d.enabled_features.iter().chain(d.disabled_features.iter()) {
        assert!(d.all_features.contains(f));
    }
}

#[test]
fn resolve_edge_reads_the_locked_package() {
    let packages = vec![package("foo", "1.0.0", &["b", "a"]), package("foo", "1.1.0", &["c"])];
    let e = edge("foo", "=1.1.0", DependencyKind::Development, &["c"]);
    let d = resolve_edge(&e, &packages).unwrap();
    assert_eq!(d.name, "foo");
    assert_eq!(d.locked_version, Some("1.1.0".to_string()));
    assert_eq!(d.version, "1.1.0");
    assert_eq!(d.kind, "dev");
    assert_eq!(d.all_features, strings(&["c"]));
    assert_eq!(d.enabled_features, strings(&["c"]));
    assert!(d.disabled_features.is_empty());
}

#[test]
fn resolve_edge_fails_with_the_name() {
    let packages = vec![package("foo", "1.0.0", &[])];
    let e = edge("foo", "^2", DependencyKind::Normal, &[]);
    assert_eq!(
        resolve_edge(&e, &packages),
        Err(LoadError::UnresolvedDependency("foo".to_string()))
    );
}
