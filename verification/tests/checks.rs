use monox::analyzer::ManifestFile;
use monox::checker::{
    calculate_optimal_thread_count, calculate_recommended_version, collect_dependency_usages,
    collect_outdated_records, determine_check_items, find_version_conflicts,
    get_unique_outdated_count, group_by_version, process_dependency_version, ConflictUsage,
    DependencyInfo, HealthChecker,
};
use monox::version::{
    extract_version_from_spec, is_version_satisfied, preserve_version_format,
    should_skip_dependency,
};

fn manifest(folder: &str, text: &str) -> ManifestFile {
    ManifestFile {
        folder: folder.to_string(),
        absolute_dir: format!("/ws/{}", folder),
        dir_name: folder.to_string(),
        text: text.to_string(),
    }
}

fn usage(package: &str, spec: &str) -> ConflictUsage {
    ConflictUsage {
        package: package.to_string(),
        version_spec: spec.to_string(),
        resolved_version: extract_version_from_spec(spec),
        dep_type: "dependencies".to_string(),
    }
}

#[test]
fn extract_version_strips_one_longest_operator() {
    assert_eq!(extract_version_from_spec("^1.2.3"), "1.2.3");
    assert_eq!(extract_version_from_spec("~0.4.0"), "0.4.0");
    assert_eq!(extract_version_from_spec(">=2.0.0"), "2.0.0");
    assert_eq!(extract_version_from_spec("<=2.0.0"), "2.0.0");
    assert_eq!(extract_version_from_spec(">3"), "3");
    assert_eq!(extract_version_from_spec("<3"), "3");
    assert_eq!(extract_version_from_spec("=1.0.0"), "1.0.0");
    assert_eq!(extract_version_from_spec("^^1.0.0"), "^1.0.0");
    assert_eq!(extract_version_from_spec(""), "");
}

#[test]
fn extract_version_is_idempotent_on_bare_versions() {
    for bare in ["1.2.3", "0.0.0", "10.4.1-beta.2", ""] {
        let once = extract_version_from_spec(bare);
        assert_eq!(once, bare);
        assert_eq!(extract_version_from_spec(&once), once);
    }
}

#[test]
fn satisfaction_is_literal_equality() {
    assert!(is_version_satisfied("1.2.3", "1.2.3"));
    assert!(!is_version_satisfied("1.2.3", "1.2.4"));
    assert!(!is_version_satisfied("1.2", "1.2.0"));
}

#[test]
fn locally_resolving_specs_are_skipped() {
    assert!(should_skip_dependency("workspace:*"));
    assert!(should_skip_dependency("file:../local"));
    assert!(should_skip_dependency("link:../local"));
    assert!(should_skip_dependency("git+https://example.invalid/repo.git"));
    assert!(should_skip_dependency("github:owner/repo"));
    assert!(should_skip_dependency("https://example.invalid/archive.git+tar"));
    assert!(!should_skip_dependency("^1.0.0"));
    assert!(!should_skip_dependency("2.3.4"));
}

#[test]
fn preserve_version_format_keeps_the_operator() {
    assert_eq!(preserve_version_format("^1.2.0", "1.3.0"), "^1.3.0");
    assert_eq!(preserve_version_format("~1.2.0", "1.3.0"), "~1.3.0");
    assert_eq!(preserve_version_format(">=1.2.0", "1.3.0"), ">=1.3.0");
    assert_eq!(preserve_version_format("<=1.2.0", "1.3.0"), "<=1.3.0");
    assert_eq!(preserve_version_format(">1.2.0", "1.3.0"), ">1.3.0");
    assert_eq!(preserve_version_format("<1.2.0", "1.3.0"), "<1.3.0");
    assert_eq!(preserve_version_format("=1.2.0", "1.3.0"), "=1.3.0");
    assert_eq!(preserve_version_format("1.2.0", "1.3.0"), "1.3.0");
}

#[test]
fn version_conflict_reports_the_lexicographic_maximum() {
    let files = vec![
        manifest("p1", r#"{"name":"p1","dependencies":{"left":"^1.2.0"}}"#),
        manifest("p2", r#"{"name":"p2","dependencies":{"left":"^1.3.0"}}"#),
    ];
    let checker = HealthChecker::new(".".to_string());
    let conflicts = checker.check_version_conflicts(&files);
    assert_eq!(conflicts.len(), 1);
    assert_eq!(conflicts[0].name, "left");
    assert_eq!(conflicts[0].conflicts.len(), 2);
    let resolved: Vec<&str> =
        conflicts[0].conflicts.iter().map(|u| u.resolved_version.as_str()).collect();
    assert!(resolved.contains(&"1.2.0"));
    assert!(resolved.contains(&"1.3.0"));
    assert_eq!(conflicts[0].recommended_version, "1.3.0");
}

#[test]
fn agreeing_packages_raise_no_conflict() {
    let files = vec![
        manifest("p1", r#"{"name":"p1","dependencies":{"left":"^1.2.0"}}"#),
        manifest("p2", r#"{"name":"p2","dependencies":{"left":"^1.2.0"}}"#),
    ];
    let checker = HealthChecker::new(".".to_string());
    assert!(checker.check_version_conflicts(&files).is_empty());
}

#[test]
fn recommended_version_is_lexicographic_not_numeric() {
    let usages = vec![usage("p1", "10.0.0"), usage("p2", "9.0.0")];
    assert_eq!(calculate_recommended_version(&usages), "9.0.0");
    let empty: Vec<ConflictUsage> = Vec::new();
    assert_eq!(calculate_recommended_version(&empty), "unknown");
}

#[test]
fn group_by_version_groups_all_usages() {
    let usages = vec![usage("p1", "^1.0.0"), usage("p2", "~1.0.0"), usage("p3", "2.0.0")];
    let groups = group_by_version(&usages);
    assert_eq!(groups.len(), 2);
    for (version, members) in &groups {
        for member in members {
            assert_eq!(&member.resolved_version, version);
        }
    }
    let total: usize = groups.iter().map(|g| g.1.len()).sum();
    assert_eq!(total, 3);
}

#[test]
fn outdated_check_skips_locally_resolving_specs() {
    let files = vec![manifest(
        "p1",
        r#"{"name":"p1","dependencies":{"loc":"workspace:*","fil":"file:../x","lnk":"link:../y","git":"git+ssh://example.invalid","hub":"github:o/r","ok":"^1.0.0"}}"#,
    )];
    let checker = HealthChecker::new(".".to_string());
    let unique = checker.collect_unique_dependencies(&files);
    assert_eq!(unique.len(), 1);
    assert_eq!(unique[0].name, "ok");
}

#[test]
fn outdated_records_fan_out_per_using_package() {
    let files = vec![
        manifest("p1", r#"{"name":"p1","dependencies":{"tool":"^2.0.0"}}"#),
        manifest("p2", r#"{"name":"p2","dependencies":{"tool":"^2.0.0"}}"#),
        manifest("p3", r#"{"name":"p3","dependencies":{"tool":"^2.0.0"}}"#),
    ];
    let checker = HealthChecker::new(".".to_string());
    let unique = checker.collect_unique_dependencies(&files);
    assert_eq!(unique.len(), 1);
    let answers = vec![Some("2.1.0".to_string())];
    let records = collect_outdated_records(&unique, &answers);
    assert_eq!(records.len(), 3);
    for record in &records {
        assert_eq!(record.name, "tool");
        assert_eq!(record.current, "2.0.0");
        assert_eq!(record.latest, "2.1.0");
    }
    assert_eq!(get_unique_outdated_count(&records), 1);
}

#[test]
fn an_up_to_date_dependency_yields_no_record() {
    let dep = DependencyInfo {
        name: "tool".to_string(),
        version_spec: "^2.1.0".to_string(),
        used_by: vec![("p1".to_string(), "dependencies".to_string())],
    };
    assert!(process_dependency_version(&dep, &Some("2.1.0".to_string())).is_empty());
    assert!(process_dependency_version(&dep, &None).is_empty());
    let records = process_dependency_version(&dep, &Some("2.2.0".to_string()));
    assert_eq!(records.len(), 1);
    assert_eq!(records[0].package, "p1");
    assert_eq!(records[0].dep_type, "dependencies");
}

#[test]
fn outdated_check_twice_gives_the_same_records() {
    let files = vec![manifest("p1", r#"{"name":"p1","dependencies":{"tool":"^2.0.0"}}"#)];
    let checker = HealthChecker::new(".".to_string());
    let unique1 = checker.collect_unique_dependencies(&files);
    let unique2 = checker.collect_unique_dependencies(&files);
    let answers = vec![Some("9.9.9".to_string())];
    let first = collect_outdated_records(&unique1, &answers);
    let second = collect_outdated_records(&unique2, &answers);
    assert_eq!(first.len(), second.len());
    for (a, b) in first.iter().zip(second.iter()) {
        assert_eq!(a.name, b.name);
        assert_eq!(a.current, b.current);
        assert_eq!(a.latest, b.latest);
        assert_eq!(a.package, b.package);
        assert_eq!(a.dep_type, b.dep_type);
    }
}

#[test]
fn circular_check_finds_the_cycle() {
    let files = vec![
        manifest("x", r#"{"name":"x","dependencies":{"y":"1"}}"#),
        manifest("y", r#"{"name":"y","dependencies":{"x":"1"}}"#),
    ];
    let checker = HealthChecker::new(".".to_string());
    let cycles = checker.check_circular_dependencies(&files).unwrap();
    assert_eq!(cycles.len(), 1);
    assert_eq!(cycles[0].len(), 2);
}

#[test]
fn optimal_concurrency_follows_the_documented_bands() {
    assert_eq!(calculate_optimal_thread_count(0, 8), 1);
    assert_eq!(calculate_optimal_thread_count(1, 8), 1);
    assert_eq!(calculate_optimal_thread_count(5, 8), 2);
    assert_eq!(calculate_optimal_thread_count(10, 8), 2);
    assert_eq!(calculate_optimal_thread_count(40, 8), 8);
    assert_eq!(calculate_optimal_thread_count(40, 64), 20);
    assert_eq!(calculate_optimal_thread_count(100, 4), 8);
    assert_eq!(calculate_optimal_thread_count(100, 64), 25);
    assert_eq!(calculate_optimal_thread_count(400, 4), 12);
    assert_eq!(calculate_optimal_thread_count(400, 64), 50);
}

#[test]
fn check_items_default_to_the_circular_check() {
    let all_default = determine_check_items(false, false, false);
    assert!(all_default.circular && !all_default.versions && !all_default.outdated);
    let versions_only = determine_check_items(false, true, false);
    assert!(!versions_only.circular && versions_only.versions && !versions_only.outdated);
    let explicit = determine_check_items(true, true, true);
    assert!(explicit.circular && explicit.versions && explicit.outdated);
}

#[test]
fn one_package_at_two_versions_is_not_a_conflict() {
    let files = vec![manifest(
        "p1",
        r#"{"name":"p1","dependencies":{"left":"^1.0.0"},"devDependencies":{"left":"^2.0.0"}}"#,
    )];
    let checker = HealthChecker::new(".".to_string());
    assert!(checker.check_version_conflicts(&files).is_empty());
}

#[test]
fn conflicts_require_two_distinct_resolved_versions() {
    let groups = vec![
        ("same".to_string(), vec![usage("p1", "^1.0.0"), usage("p2", "~1.0.0")]),
        ("diff".to_string(), vec![usage("p1", "1.0.0"), usage("p2", "2.0.0")]),
        ("lonely".to_string(), vec![usage("p1", "1.0.0")]),
    ];
    let conflicts = find_version_conflicts(&groups);
    assert_eq!(conflicts.len(), 1);
    assert_eq!(conflicts[0].name, "diff");
    assert_eq!(conflicts[0].recommended_version, "2.0.0");
}

#[test]
fn usage_collection_records_kind_and_spec() {
    let files = vec![manifest(
        "p1",
        r#"{"name":"p1","dependencies":{"a":"^1.0.0"},"devDependencies":{"a":"^2.0.0"}}"#,
    )];
    let groups = collect_dependency_usages(&files);
    assert_eq!(groups.len(), 1);
    assert_eq!(groups[0].0, "a");
    assert_eq!(groups[0].1.len(), 2);
    let kinds: Vec<&str> = groups[0].1.iter().map(|u| u.dep_type.as_str()).collect();
    assert!(kinds.contains(&"dependencies"));
    assert!(kinds.contains(&"devDependencies"));
}
