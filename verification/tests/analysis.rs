use monox::analyzer::{AnalyzeError, DependencyAnalyzer, ManifestFile};

fn manifest(folder: &str, text: &str) -> ManifestFile {
    ManifestFile {
        folder: folder.to_string(),
        absolute_dir: format!("/ws/{}", folder),
        dir_name: folder.to_string(),
        text: text.to_string(),
    }
}

fn stage_names(stages: &Vec<Vec<monox::package::WorkspacePackage>>) -> Vec<Vec<String>> {
    stages
        .iter()
        .map(|stage| stage.iter().map(|p| p.name.clone()).collect())
        .collect()
}

#[test]
fn linear_chain_has_three_stages() {
    let analyzer = DependencyAnalyzer::new(".".to_string());
    let files = vec![
        manifest("a", r#"{"name":"a","version":"1.0.0"}"#),
        manifest("b", r#"{"name":"b","version":"1.0.0","dependencies":{"a":"^1.0.0"}}"#),
        manifest("c", r#"{"name":"c","version":"1.0.0","dependencies":{"b":"^1.0.0"}}"#),
    ];
    let result = analyzer.analyze(&files).unwrap();
    assert_eq!(result.packages.len(), 3);
    assert!(result.circular_dependencies.is_empty());
    assert_eq!(
        stage_names(&result.stages),
        vec![vec!["a".to_string()], vec!["b".to_string()], vec!["c".to_string()]]
    );
    assert_eq!(result.statistics.total_packages, 3);
    assert_eq!(result.statistics.total_stages, 3);
    assert_eq!(result.statistics.packages_with_workspace_deps, 2);
    assert_eq!(result.statistics.circular_dependency_count, 0);
}

#[test]
fn two_package_cycle_is_reported_and_stages_are_empty() {
    let analyzer = DependencyAnalyzer::new(".".to_string());
    let files = vec![
        manifest("x", r#"{"name":"x","version":"1.0.0","dependencies":{"y":"^1.0.0"}}"#),
        manifest("y", r#"{"name":"y","version":"1.0.0","dependencies":{"x":"^1.0.0"}}"#),
    ];
    let result = analyzer.analyze(&files).unwrap();
    assert!(result.stages.is_empty());
    assert_eq!(result.circular_dependencies.len(), 1);
    let mut cycle = result.circular_dependencies[0].clone();
    cycle.sort();
    assert_eq!(cycle, vec!["x".to_string(), "y".to_string()]);
}

#[test]
fn parallel_siblings_share_the_second_stage() {
    let analyzer = DependencyAnalyzer::new(".".to_string());
    let files = vec![
        manifest("lib", r#"{"name":"lib","version":"1.0.0"}"#),
        manifest("app1", r#"{"name":"app1","version":"1.0.0","dependencies":{"lib":"^1.0.0"}}"#),
        manifest("app2", r#"{"name":"app2","version":"1.0.0","dependencies":{"lib":"^1.0.0"}}"#),
    ];
    let result = analyzer.analyze(&files).unwrap();
    assert!(result.circular_dependencies.is_empty());
    let names = stage_names(&result.stages);
    assert_eq!(names.len(), 2);
    assert_eq!(names[0], vec!["lib".to_string()]);
    let mut second = names[1].clone();
    second.sort();
    assert_eq!(second, vec!["app1".to_string(), "app2".to_string()]);
}

#[test]
fn empty_workspace_is_rejected() {
    let analyzer = DependencyAnalyzer::new(".".to_string());
    let files = vec![manifest("broken", "this is not a manifest")];
    match analyzer.analyze(&files) {
        Err(AnalyzeError::WorkspaceEmpty) => {},
        _ => panic!("a workspace without a decodable manifest must be rejected"),
    }
}

#[test]
fn unparseable_manifest_is_skipped() {
    let analyzer = DependencyAnalyzer::new(".".to_string());
    let files = vec![
        manifest("a", r#"{"name":"a","version":"1.0.0"}"#),
        manifest("broken", "{ not json"),
    ];
    let result = analyzer.analyze(&files).unwrap();
    assert_eq!(result.packages.len(), 1);
    assert_eq!(result.packages[0].name, "a");
}

#[test]
fn name_falls_back_to_directory_and_version_to_zero() {
    let analyzer = DependencyAnalyzer::new(".".to_string());
    let files = vec![manifest("nameless", r#"{"dependencies":{}}"#)];
    let result = analyzer.analyze(&files).unwrap();
    assert_eq!(result.packages[0].name, "nameless");
    assert_eq!(result.packages[0].version, "0.0.0");
}

#[test]
fn duplicate_names_keep_the_last_seen_package() {
    let analyzer = DependencyAnalyzer::new(".".to_string());
    let files = vec![
        manifest("one", r#"{"name":"dup","version":"1.0.0"}"#),
        manifest("two", r#"{"name":"dup","version":"2.0.0"}"#),
    ];
    let result = analyzer.analyze(&files).unwrap();
    assert_eq!(result.packages.len(), 1);
    assert_eq!(result.packages[0].version, "2.0.0");
    assert_eq!(result.packages[0].folder, "two");
}

#[test]
fn dependency_kinds_are_merged_into_workspace_dependencies() {
    let analyzer = DependencyAnalyzer::new(".".to_string());
    let files = vec![
        manifest("a", r#"{"name":"a"}"#),
        manifest("b", r#"{"name":"b"}"#),
        manifest("c", r#"{"name":"c"}"#),
        manifest(
            "top",
            r#"{"name":"top","dependencies":{"a":"1"},"devDependencies":{"b":"1"},"peerDependencies":{"c":"1"},"scripts":{"build":"make"}}"#,
        ),
    ];
    let result = analyzer.analyze(&files).unwrap();
    let top = result.packages.iter().find(|p| p.name == "top").unwrap();
    let mut wdeps = top.workspace_dependencies.clone();
    wdeps.sort();
    assert_eq!(wdeps, vec!["a".to_string(), "b".to_string(), "c".to_string()]);
    assert_eq!(result.stages.len(), 2);
}

#[test]
fn single_package_plan_is_restricted_to_the_target_closure() {
    let analyzer = DependencyAnalyzer::new(".".to_string());
    let files = vec![
        manifest("a", r#"{"name":"a"}"#),
        manifest("b", r#"{"name":"b","dependencies":{"a":"1"}}"#),
        manifest("c", r#"{"name":"c","dependencies":{"b":"1"}}"#),
        manifest("other", r#"{"name":"other"}"#),
    ];
    let result = analyzer.analyze_single_package(&files, "b").unwrap();
    assert_eq!(result.packages.len(), 1);
    assert_eq!(result.packages[0].name, "b");
    assert_eq!(
        stage_names(&result.stages),
        vec![vec!["a".to_string()], vec!["b".to_string()]]
    );
}

#[test]
fn single_package_analysis_rejects_an_unknown_name() {
    let analyzer = DependencyAnalyzer::new(".".to_string());
    let files = vec![manifest("a", r#"{"name":"a"}"#)];
    match analyzer.analyze_single_package(&files, "missing") {
        Err(AnalyzeError::PackageNotFound) => {},
        _ => panic!("an unknown target package must be rejected"),
    }
}

#[test]
fn every_stage_member_depends_only_on_earlier_stages() {
    let analyzer = DependencyAnalyzer::new(".".to_string());
    let files = vec![
        manifest("ui", r#"{"name":"ui","dependencies":{"core":"1","util":"1"}}"#),
        manifest("core", r#"{"name":"core","dependencies":{"util":"1"}}"#),
        manifest("util", r#"{"name":"util"}"#),
        manifest("cli", r#"{"name":"cli","dependencies":{"core":"1"}}"#),
    ];
    let result = analyzer.analyze(&files).unwrap();
    let names = stage_names(&result.stages);
    for (k, stage) in result.stages.iter().enumerate() {
        for member in stage {
            for dep in &member.workspace_dependencies {
                let earlier: Vec<&String> = names[..k].iter().flatten().collect();
                assert!(
                    earlier.contains(&dep),
                    "dependency {} of {} is not in an earlier stage",
                    dep,
                    member.name
                );
            }
        }
    }
    let placed: usize = names.iter().map(|s| s.len()).sum();
    assert_eq!(placed, result.packages.len());
}
