use weave_cli::generator::{post_scaffold, ScaffoldAction, ScaffoldError, ScaffoldEvent, ScaffoldPhase, BUNFIG_CONTENT};
use weave_cli::manifest::{ManifestEntry, TemplateInfo, WeaveManifest};
use weave_cli::selections::UserSelections;
use weave_cli::strmap::StrMap;

fn strings(items: &[&str]) -> Vec<String> {
    items.iter().map(|s| s.to_string()).collect()
}

fn manifest(services: &[&str], env: &[&str]) -> WeaveManifest {
    let mut backends = StrMap::new();
    backends.insert(
        "rust".to_string(),
        ManifestEntry {
            label: "Rust".to_string(),
            description: Some("Axum API".to_string()),
            keep: strings(&["apps/api-rust", "packages/shared"]),
            terraform_keep: Vec::new(),
            env_vars: strings(env),
            docker_services: strings(services),
            requires: Vec::new(),
            conflicts_with: Vec::new(),
            dependencies: strings(&["zod"]),
            dev_dependencies: Vec::new(),
        },
    );
    WeaveManifest {
        template: TemplateInfo { name: "t".to_string(), version: "v1".to_string(), minimum_cli_version: None },
        platforms: StrMap::new(),
        backends,
        auth: StrMap::new(),
        database: StrMap::new(),
        cloud: StrMap::new(),
        microservices: StrMap::new(),
        infrastructure: StrMap::new(),
        extras: StrMap::new(),
    }
}

fn selections() -> UserSelections {
    let mut s = UserSelections::new("demo".to_string());
    s.set_multi("backends", strings(&["rust"]));
    s
}

fn name(a: &ScaffoldAction) -> &'static str {
    match a {
        ScaffoldAction::WriteWeaveToml => "weave.toml",
        ScaffoldAction::InspectPackageJson { .. } => "inspect package",
        ScaffoldAction::WritePackageJson(_) => "write package",
        ScaffoldAction::WriteBunfig(_) => "bunfig",
        ScaffoldAction::WriteEnvFiles(_) => "env",
        ScaffoldAction::InspectCompose => "inspect compose",
        ScaffoldAction::RemoveCompose => "remove compose",
        ScaffoldAction::ReadCompose => "read compose",
        ScaffoldAction::WriteCompose(_) => "write compose",
        ScaffoldAction::RemoveArtifacts(_) => "artifacts",
        ScaffoldAction::InitGit => "git",
        ScaffoldAction::Finish => "finish",
        ScaffoldAction::Abort(_) => "abort",
    }
}

/// Runs the steps, answering each action as a project with a package.json,
/// whose first candidate holds a package, and a docker-compose file.
fn run(m: &WeaveManifest, s: &UserSelections, skip_git: bool) -> Vec<&'static str> {
    let mut phase = ScaffoldPhase::Start;
    let mut event = ScaffoldEvent::Completed;
    let mut seen = Vec::new();
    loop {
        let (next, action) = post_scaffold(m, s, skip_git, phase, event);
        seen.push(name(&action));
        event = match &action {
            ScaffoldAction::InspectPackageJson { workspace_candidates } => {
                assert_eq!(workspace_candidates, &strings(&["apps/api-rust", "packages/shared"]));
                ScaffoldEvent::PackageJson { text: "null".to_string(), has_package_json: vec![true, false] }
            }
            ScaffoldAction::WriteBunfig(c) => {
                assert_eq!(c, BUNFIG_CONTENT);
                ScaffoldEvent::Completed
            }
            ScaffoldAction::InspectCompose => ScaffoldEvent::ComposePresent,
            ScaffoldAction::ReadCompose => {
                ScaffoldEvent::Compose("services:\n  postgres:\n    image: postgres\n".to_string())
            }
            ScaffoldAction::Finish => break,
            _ => ScaffoldEvent::Completed,
        };
        phase = next;
    }
    seen
}

#[test]
fn steps_run_in_order() {
    let m = manifest(&["postgres"], &["DATABASE_URL"]);
    assert_eq!(
        run(&m, &selections(), false),
        vec![
            "weave.toml", "inspect package", "write package", "bunfig", "env", "inspect compose",
            "read compose", "write compose", "artifacts", "git", "finish"
        ]
    );
}

#[test]
fn skipped_steps() {
    let m = manifest(&[], &[]);
    assert_eq!(
        run(&m, &selections(), true),
        vec!["weave.toml", "inspect package", "write package", "bunfig", "inspect compose", "remove compose", "artifacts", "finish"]
    );
}

#[test]
fn missing_files_skip_their_rewrites() {
    let m = manifest(&["postgres"], &[]);
    let s = selections();
    let (p, a) = post_scaffold(&m, &s, false, ScaffoldPhase::InspectPackage, ScaffoldEvent::PackageJsonMissing);
    assert_eq!(p, ScaffoldPhase::Bunfig);
    assert_eq!(name(&a), "bunfig");
    let (p, a) = post_scaffold(&m, &s, false, ScaffoldPhase::InspectCompose, ScaffoldEvent::ComposeMissing);
    assert_eq!(p, ScaffoldPhase::Artifacts);
    match a {
        ScaffoldAction::RemoveArtifacts(files) => assert_eq!(files.len(), 5),
        _ => panic!("expected artifact removal"),
    }
}

#[test]
fn package_written_with_project_name_and_workspaces() {
    let m = manifest(&[], &[]);
    let s = selections();
    let (_, a) = post_scaffold(
        &m,
        &s,
        false,
        ScaffoldPhase::InspectPackage,
        ScaffoldEvent::PackageJson { text: "null".to_string(), has_package_json: vec![false, true] },
    );
    match a {
        ScaffoldAction::WritePackageJson(text) => {
            let v: serde_json::Value = serde_json::from_str(&text).unwrap();
            assert_eq!(v["name"], serde_json::Value::String("demo".to_string()));
            assert_eq!(
                v["workspaces"],
                serde_json::Value::Array(vec![serde_json::Value::String("packages/shared".to_string())])
            );
            assert!(v.get("dependencies").is_some());
        }
        _ => panic!("expected package.json"),
    }
}

#[test]
fn unreadable_files_stop_scaffolding() {
    let m = manifest(&["postgres"], &[]);
    let s = selections();
    let (p, a) = post_scaffold(
        &m,
        &s,
        false,
        ScaffoldPhase::InspectPackage,
        ScaffoldEvent::PackageJson { text: "{ not json".to_string(), has_package_json: vec![false, false] },
    );
    assert_eq!(p, ScaffoldPhase::Finished);
    assert!(matches!(a, ScaffoldAction::Abort(ScaffoldError::PackageJsonUnparsable)));
    let (p, a) = post_scaffold(
        &m,
        &s,
        false,
        ScaffoldPhase::InspectPackage,
        ScaffoldEvent::PackageJson { text: "[1, 2]".to_string(), has_package_json: vec![false, false] },
    );
    assert_eq!(p, ScaffoldPhase::Finished);
    assert!(matches!(a, ScaffoldAction::Abort(ScaffoldError::PackageJsonNotAnObject)));
    let (p, a) = post_scaffold(
        &m,
        &s,
        false,
        ScaffoldPhase::ReadCompose,
        ScaffoldEvent::Compose("services: [unclosed".to_string()),
    );
    assert_eq!(p, ScaffoldPhase::Finished);
    assert!(matches!(a, ScaffoldAction::Abort(ScaffoldError::ComposeUnparsable)));
}

#[test]
fn finished_stays_finished() {
    let m = manifest(&[], &[]);
    let (p, a) = post_scaffold(&m, &selections(), false, ScaffoldPhase::Finished, ScaffoldEvent::Completed);
    assert_eq!(p, ScaffoldPhase::Finished);
    assert_eq!(name(&a), "finish");
}
