use weave_cli::manifest::{ManifestEntry, TemplateInfo, WeaveManifest};
use weave_cli::strmap::StrMap;

fn strings(items: &[&str]) -> Vec<String> {
    items.iter().map(|s| s.to_string()).collect()
}

fn entry(label: &str, keep: &[&str], env: &[&str], services: &[&str], deps: &[&str], dev: &[&str]) -> ManifestEntry {
    ManifestEntry {
        label: label.to_string(),
        description: None,
        keep: strings(keep),
        terraform_keep: Vec::new(),
        env_vars: strings(env),
        docker_services: strings(services),
        requires: Vec::new(),
        conflicts_with: Vec::new(),
        dependencies: strings(deps),
        dev_dependencies: strings(dev),
    }
}

fn empty_manifest() -> WeaveManifest {
    WeaveManifest {
        template: TemplateInfo {
            name: "Weave Template".to_string(),
            version: "v1.0.0".to_string(),
            minimum_cli_version: None,
        },
        platforms: StrMap::new(),
        backends: StrMap::new(),
        auth: StrMap::new(),
        database: StrMap::new(),
        cloud: StrMap::new(),
        microservices: StrMap::new(),
        infrastructure: StrMap::new(),
        extras: StrMap::new(),
    }
}

fn sample_manifest() -> WeaveManifest {
    let mut m = empty_manifest();
    let mut rust = entry("Rust", &["apps/api-rust"], &["DATABASE_URL", "RUST_LOG"], &["postgres"], &["zod"], &[]);
    rust.terraform_keep = strings(&["infra/terraform/rust"]);
    m.backends.insert("typescript".to_string(), entry("TypeScript", &["apps/api-ts"], &["DATABASE_URL", "API_PORT"], &["postgres", "redis"], &["express@4.18.2"], &["typescript"]));
    m.backends.insert("rust".to_string(), rust);
    m.backends.insert("go".to_string(), entry("Go", &["apps/api-go"], &[], &[], &[], &[]));
    m.platforms.insert("nexpo-web".to_string(), entry("Nexpo (Web)", &["apps/web"], &["NEXT_PUBLIC_URL"], &[], &["next", "zod"], &["typescript", "eslint"]));
    m.auth.insert("supabase".to_string(), entry("Supabase Auth", &["packages/auth"], &["SUPABASE_URL", "DATABASE_URL"], &[], &[], &[]));
    m
}

fn selections(pairs: &[(&str, &[&str])]) -> StrMap<Vec<String>> {
    let mut s = StrMap::new();
    for (c, keys) in pairs {
        s.insert(c.to_string(), strings(keys));
    }
    s
}

#[test]
fn category_entries_are_sorted_by_key() {
    let m = sample_manifest();
    let entries = m.get_category_entries("backends");
    let keys: Vec<&str> = entries.iter().map(|(k, _)| k.as_str()).collect();
    assert_eq!(keys, vec!["go", "rust", "typescript"]);
    let labels: Vec<&str> = entries.iter().map(|(_, e)| e.label.as_str()).collect();
    assert_eq!(labels, vec!["Go", "Rust", "TypeScript"]);
}

#[test]
fn unknown_category_has_no_entries() {
    let m = sample_manifest();
    assert!(m.get_category_entries("frontends").is_empty());
    assert!(m.get_category_entries("").is_empty());
    assert!(m.get_category_entries("cloud").is_empty());
}

#[test]
fn category_order_is_wizard_order() {
    assert_eq!(
        WeaveManifest::category_order(),
        &["platforms", "backends", "auth", "database", "cloud", "microservices", "infrastructure", "extras"]
    );
}

#[test]
fn keep_paths_follow_selection_order_with_terraform_after_keep() {
    let m = sample_manifest();
    let sel = selections(&[("platforms", &["nexpo-web"]), ("backends", &["typescript", "rust"])]);
    // categories come in key order (backends before platforms), keys in selection order
    assert_eq!(
        m.collect_keep_paths(&sel),
        strings(&["apps/api-ts", "apps/api-rust", "infra/terraform/rust", "apps/web"])
    );
}

#[test]
fn unknown_categories_and_keys_add_nothing() {
    let m = sample_manifest();
    let sel = selections(&[("frontends", &["react"]), ("backends", &["cobol", "go"])]);
    assert_eq!(m.collect_keep_paths(&sel), strings(&["apps/api-go"]));
    assert!(m.collect_env_vars(&sel).is_empty());
}

#[test]
fn env_vars_are_sorted_and_deduplicated() {
    let m = sample_manifest();
    let sel = selections(&[("backends", &["typescript", "rust"]), ("auth", &["supabase"])]);
    assert_eq!(
        m.collect_env_vars(&sel),
        strings(&["API_PORT", "DATABASE_URL", "RUST_LOG", "SUPABASE_URL"])
    );
}

#[test]
fn dependencies_are_sorted_and_deduplicated() {
    let m = sample_manifest();
    let sel = selections(&[("backends", &["typescript", "rust"]), ("platforms", &["nexpo-web"])]);
    let (deps, dev) = m.collect_dependencies(&sel);
    assert_eq!(deps, strings(&["express@4.18.2", "next", "zod"]));
    assert_eq!(dev, strings(&["eslint", "typescript"]));
}

#[test]
fn docker_services_are_sorted_and_deduplicated() {
    let m = sample_manifest();
    let sel = selections(&[("backends", &["typescript", "rust", "go"])]);
    assert_eq!(m.collect_docker_services(&sel), strings(&["postgres", "redis"]));
    let none = selections(&[]);
    assert!(m.collect_docker_services(&none).is_empty());
}
