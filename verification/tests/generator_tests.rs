use weave_cli::generator::{
    artifact_files, bunify_script, env_file_content, filter_docker_compose, filter_docker_compose_text,
    keep_path_target, rewrite_package_json, rewrite_package_json_text, ScaffoldError,
    split_dependency_spec, workspace_paths, BUNFIG_CONTENT, ENV_FILE_HEADER,
};
use weave_cli::json::{json_of_tree, json_string_field, JsonTree, JsonValue};
use weave_cli::strmap::StrMap;

fn strings(items: &[&str]) -> Vec<String> {
    items.iter().map(|s| s.to_string()).collect()
}

fn s(v: &str) -> JsonValue {
    JsonValue::Str(v.to_string())
}

fn obj(fields: Vec<(&str, JsonValue)>) -> JsonValue {
    let mut m = StrMap::new();
    for (k, v) in fields {
        m.insert(k.to_string(), v);
    }
    JsonValue::Object(m)
}

fn field<'a>(v: &'a JsonValue, key: &str) -> Option<&'a JsonValue> {
    match v {
        JsonValue::Object(m) => m.get(key),
        _ => None,
    }
}

fn as_str(v: Option<&JsonValue>) -> Option<&str> {
    match v {
        Some(JsonValue::Str(s)) => Some(s.as_str()),
        _ => None,
    }
}

fn keys(v: Option<&JsonValue>) -> Vec<String> {
    match v {
        Some(JsonValue::Object(m)) => m.keys(),
        _ => panic!("not an object"),
    }
}

#[test]
fn dependency_specs_split_at_last_at() {
    assert_eq!(split_dependency_spec("express@4.18.2"), ("express".to_string(), "4.18.2".to_string()));
    assert_eq!(split_dependency_spec("firebase"), ("firebase".to_string(), "latest".to_string()));
    assert_eq!(
        split_dependency_spec("@aws-sdk/client-dynamodb"),
        ("@aws-sdk/client-dynamodb".to_string(), "latest".to_string())
    );
    assert_eq!(
        split_dependency_spec("@scope/pkg@1.2.3"),
        ("@scope/pkg".to_string(), "1.2.3".to_string())
    );
    assert_eq!(split_dependency_spec("pkg@"), ("pkg".to_string(), "".to_string()));
}

#[test]
fn split_dependency_rejoins() {
    for d in ["express@4.18.2", "@scope/pkg@1.2.3", "a@b"] {
        let (name, version) = split_dependency_spec(d);
        assert_eq!(format!("{}@{}", name, version), d);
        assert!(!version.contains('@'));
    }
}

#[test]
fn scripts_are_rewritten_for_bun() {
    assert_eq!(bunify_script("pnpm run build"), "bun run build");
    assert_eq!(bunify_script("pnpx prisma generate && npx tsc"), "bunx prisma generate && bunx tsc");
    assert_eq!(bunify_script("turbo run dev"), "turbo run dev");
    assert_eq!(bunify_script("pnpm"), "pnpm");
    assert_eq!(bunify_script("pnpm pnpm x"), "bun bun x");
}

#[test]
fn rewritten_script_runs_no_node_runner() {
    let out = bunify_script("ppnpm dev; pnpnpx a; nnpx b; pnpx npx c; pnpm exec pnpx d");
    assert!(!out.contains("pnpm "));
    assert!(!out.contains("pnpx "));
    assert!(!out.contains("npx "));
    assert_eq!(out, "pbun dev; pnbunx a; nbunx b; bunx bunx c; bun exec bunx d");
}

#[test]
fn workspaces_are_the_keep_paths_with_a_package() {
    let keep = strings(&["apps/web", "infra/terraform", "packages/ui"]);
    assert_eq!(workspace_paths(&keep, &vec![true, false, true]), strings(&["apps/web", "packages/ui"]));
    assert!(workspace_paths(&keep, &vec![false, false, false]).is_empty());
}

#[test]
fn package_json_is_rewritten() {
    let package = obj(vec![
        ("name", s("weave-template")),
        ("packageManager", s("pnpm@9.0.0")),
        ("pnpm", obj(vec![])),
        ("version", s("1.0.0")),
        ("dependencies", obj(vec![("next", s("14.0.0"))])),
        ("scripts", obj(vec![("dev", s("pnpm turbo dev")), ("count", JsonValue::Number("3".to_string()))])),
    ]);
    let r = rewrite_package_json(
        package,
        "my-app",
        &strings(&["apps/web"]),
        &strings(&["next@15.0.0", "zod", "@scope/x@2"]),
        &strings(&["typescript"]),
    );
    assert_eq!(as_str(field(&r, "name")), Some("my-app"));
    assert!(field(&r, "packageManager").is_none());
    assert!(field(&r, "pnpm").is_none());
    assert_eq!(as_str(field(&r, "version")), Some("1.0.0"));
    match field(&r, "workspaces") {
        Some(JsonValue::Array(a)) => {
            assert_eq!(a.len(), 1);
            assert_eq!(as_str(a.get(0)), Some("apps/web"));
        }
        _ => panic!("workspaces missing"),
    }
    let deps = field(&r, "dependencies").unwrap();
    assert_eq!(keys(Some(deps)), strings(&["@scope/x", "next", "zod"]));
    assert_eq!(as_str(field(deps, "next")), Some("14.0.0"));
    assert_eq!(as_str(field(deps, "zod")), Some("latest"));
    assert_eq!(as_str(field(deps, "@scope/x")), Some("2"));
    let dev = field(&r, "devDependencies").unwrap();
    assert_eq!(as_str(field(dev, "typescript")), Some("latest"));
    let scripts = field(&r, "scripts").unwrap();
    assert_eq!(as_str(field(scripts, "dev")), Some("bun turbo dev"));
    match field(scripts, "count") {
        Some(JsonValue::Number(n)) => assert_eq!(n, "3"),
        _ => panic!("number changed"),
    }
}

#[test]
fn null_package_becomes_object() {
    let r = rewrite_package_json(JsonValue::Null, "p", &Vec::new(), &Vec::new(), &Vec::new());
    assert_eq!(keys(Some(&r)), strings(&["name"]));
    assert_eq!(as_str(field(&r, "name")), Some("p"));
}

#[test]
fn non_object_dependency_table_is_left_alone() {
    let package = obj(vec![("dependencies", s("none")), ("workspaces", s("keep"))]);
    let r = rewrite_package_json(package, "p", &Vec::new(), &strings(&["zod"]), &Vec::new());
    assert_eq!(as_str(field(&r, "dependencies")), Some("none"));
    assert_eq!(as_str(field(&r, "workspaces")), Some("keep"));
    assert!(field(&r, "devDependencies").is_none());
}

#[test]
fn first_version_of_a_package_wins() {
    let r = rewrite_package_json(obj(vec![]), "p", &Vec::new(), &strings(&["react@18", "react@19"]), &Vec::new());
    let deps = field(&r, "dependencies").unwrap();
    assert_eq!(as_str(field(deps, "react")), Some("18"));
}

#[test]
fn env_file_lists_each_variable() {
    assert!(env_file_content(&Vec::new()).is_none());
    let content = env_file_content(&strings(&["API_KEY", "DATABASE_URL"])).unwrap();
    assert_eq!(content, format!("{}API_KEY=\nDATABASE_URL=\n", ENV_FILE_HEADER));
    assert!(content.starts_with("# ====="));
    assert!(content.contains("# Environment Variables for your Weave project\n# Generated by weave-cli"));
}

#[test]
fn compose_keeps_selected_services_and_their_volumes() {
    let compose = obj(vec![
        ("version", s("3.8")),
        (
            "services",
            obj(vec![
                ("postgres", obj(vec![("volumes", JsonValue::Array(vec![s("pgdata:/var/lib/postgresql/data"), s("./init:/docker-entrypoint")]))])),
                ("redis", obj(vec![("volumes", JsonValue::Array(vec![s("redisdata:/data")]))])),
                ("mongo", obj(vec![("volumes", JsonValue::Array(vec![s("mongodata:/data/db"), s("/abs:/x")]))])),
            ]),
        ),
        ("volumes", obj(vec![("pgdata", JsonValue::Null), ("redisdata", JsonValue::Null), ("mongodata", JsonValue::Null)])),
    ]);
    let r = filter_docker_compose(compose, &strings(&["postgres", "redis", "kafka"]));
    assert_eq!(keys(field(&r, "services")), strings(&["postgres", "redis"]));
    assert_eq!(keys(field(&r, "volumes")), strings(&["pgdata", "redisdata"]));
    assert_eq!(as_str(field(&r, "version")), Some("3.8"));
}

#[test]
fn compose_without_service_table_is_unchanged() {
    let compose = obj(vec![("services", s("oops")), ("volumes", obj(vec![("a", JsonValue::Null)]))]);
    let r = filter_docker_compose(compose, &strings(&["x"]));
    assert_eq!(as_str(field(&r, "services")), Some("oops"));
    assert_eq!(keys(field(&r, "volumes")), strings(&["a"]));
    let r2 = filter_docker_compose(JsonValue::Bool(true), &strings(&["x"]));
    assert!(matches!(r2, JsonValue::Bool(true)));
}

#[test]
fn compose_filter_is_idempotent() {
    let compose = obj(vec![
        ("services", obj(vec![("a", obj(vec![("volumes", JsonValue::Array(vec![s("va:/x")]))])), ("b", obj(vec![]))])),
        ("volumes", obj(vec![("va", JsonValue::Null), ("vb", JsonValue::Null)])),
    ]);
    let once = filter_docker_compose(compose, &strings(&["a"]));
    let twice = filter_docker_compose(once, &strings(&["a"]));
    assert_eq!(keys(field(&twice, "services")), strings(&["a"]));
    assert_eq!(keys(field(&twice, "volumes")), strings(&["va"]));
}

#[test]
fn artifacts_and_bunfig() {
    assert_eq!(
        artifact_files(),
        strings(&["pnpm-workspace.yaml", "pnpm-lock.yaml", ".pnpmrc", ".npmrc", "weave.manifest.toml"])
    );
    assert!(BUNFIG_CONTENT.contains("[install]\n# Use the default registry\npeer = false\n"));
    assert!(BUNFIG_CONTENT.ends_with("save = true\n"));
}

#[test]
fn package_json_text_is_rewritten_and_printed() {
    let text = r#"{"name":"template","version":"1.0.0","n":1.5,"scripts":{"dev":"pnpm dev"},"packageManager":"pnpm@9"}"#;
    let out = rewrite_package_json_text(text, "demo", &strings(&["apps/web"]), &strings(&["zod@3"]), &Vec::new()).unwrap();
    let v: serde_json::Value = serde_json::from_str(&out).unwrap();
    assert_eq!(v["name"], serde_json::Value::String("demo".to_string()));
    assert_eq!(v["version"], serde_json::Value::String("1.0.0".to_string()));
    assert_eq!(v["n"].as_f64(), Some(1.5));
    assert_eq!(v["scripts"]["dev"], serde_json::Value::String("bun dev".to_string()));
    assert_eq!(v["dependencies"]["zod"], serde_json::Value::String("3".to_string()));
    assert_eq!(v["workspaces"][0], serde_json::Value::String("apps/web".to_string()));
    assert!(v.get("packageManager").is_none());
    assert!(out.contains("\n  \"name\": \"demo\""));
}

#[test]
fn package_json_text_errors() {
    let none: Vec<String> = Vec::new();
    assert_eq!(rewrite_package_json_text("{", "p", &none, &none, &none), Err(ScaffoldError::PackageJsonUnparsable));
    assert_eq!(rewrite_package_json_text("\"text\"", "p", &none, &none, &none), Err(ScaffoldError::PackageJsonNotAnObject));
    let out = rewrite_package_json_text("null", "p", &none, &none, &none).unwrap();
    assert!(out.contains("\"name\": \"p\""));
}

#[test]
fn compose_text_is_filtered_and_printed() {
    let text = "services:\n  a:\n    image: x\n    volumes:\n      - data:/d\n  b:\n    image: y\n    volumes:\n      - other:/o\nvolumes:\n  data: {}\n  other: {}\nversion: '3'\n";
    let out = filter_docker_compose_text(text, &strings(&["a"])).unwrap();
    let v: serde_json::Value = serde_yaml::from_str(&out).unwrap();
    assert!(v["services"].get("a").is_some());
    assert!(v["services"].get("b").is_none());
    assert!(v["volumes"].get("data").is_some());
    assert!(v["volumes"].get("other").is_none());
    assert_eq!(v["version"], serde_json::Value::String("3".to_string()));
    assert_eq!(filter_docker_compose_text("a: [", &strings(&["a"])), Err(ScaffoldError::ComposeUnparsable));
}

#[test]
fn keep_paths_name_their_directory() {
    assert_eq!(keep_path_target("apps/web/*"), "apps/web");
    assert_eq!(keep_path_target("apps/web/*/*"), "apps/web");
    assert_eq!(keep_path_target("packages/shared"), "packages/shared");
    assert_eq!(keep_path_target("docker-compose.yml"), "docker-compose.yml");
    assert_eq!(keep_path_target("/*"), "");
    assert_eq!(keep_path_target("a*"), "a*");
}

#[test]
fn tree_object_keeps_the_last_pair_of_a_key() {
    let t = JsonTree::Object(vec![
        ("b".to_string(), JsonTree::Str("first".to_string())),
        ("a".to_string(), JsonTree::Array(vec![JsonTree::Null, JsonTree::Bool(true)])),
        ("b".to_string(), JsonTree::Number("7".to_string())),
    ]);
    match json_of_tree(&t) {
        JsonValue::Object(m) => {
            assert_eq!(m.len(), 2);
            assert_eq!(m.key_at(0), "a");
            assert!(matches!(m.get("a"), Some(JsonValue::Array(items)) if items.len() == 2));
            assert!(matches!(m.get("b"), Some(JsonValue::Number(n)) if n == "7"));
        }
        _ => panic!("expected an object"),
    }
}

#[test]
fn string_fields_of_json_text() {
    assert_eq!(json_string_field(r#"{"tag_name":"v1.2.0","id":3}"#, "tag_name"), Some(Some("v1.2.0".to_string())));
    assert_eq!(json_string_field(r#"{"id":3}"#, "id"), Some(None));
    assert_eq!(json_string_field(r#"["tag_name"]"#, "tag_name"), Some(None));
    assert_eq!(json_string_field("not json", "tag_name"), None);
}
