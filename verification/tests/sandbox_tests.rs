//! Tests for sandbox planning and the manifest editing.

use forgetest::model::Dependency;
use forgetest::sandbox::{
    add_dependency_to_manifest, build_env, initial_manifest, merged_test_source, source_file_name,
    LocalRunner,
};

#[test]
fn write_source_main() {
    // Code with a main function goes to the binary entry point.
    let name = source_file_name(&"fn main() { println!(\"hi\"); }".to_string());
    assert_eq!(name, "main.rs");
}

#[test]
fn write_source_lib() {
    let name = source_file_name(&"pub fn hello() {}".to_string());
    assert_eq!(name, "lib.rs");
}

#[test]
fn write_test_appends() {
    let merged = merged_test_source(
        &"pub fn add(a: i32, b: i32) -> i32 { a + b }".to_string(),
        &"#[test] fn test_add() { assert_eq!(add(1, 2), 3); }".to_string(),
    );
    assert!(merged.contains("pub fn add"));
    assert!(merged.contains("test_add"));
    assert_eq!(
        merged,
        "pub fn add(a: i32, b: i32) -> i32 { a + b }\n\n#[test] fn test_add() { assert_eq!(add(1, 2), 3); }"
    );
}

#[test]
fn add_dependency() {
    let manifest = initial_manifest();
    assert!(manifest.contains("[dependencies]"));
    let updated = add_dependency_to_manifest(
        &manifest,
        &Dependency { name: "serde".into(), version: "1".into(), features: vec!["derive".into()] },
    )
    .expect("the initial manifest parses");
    assert!(updated.contains("serde"));
    assert!(updated.contains("derive"));
    assert!(updated.contains("[dependencies]"));
    // A plain dependency needs no feature table.
    let plain = add_dependency_to_manifest(
        &manifest,
        &Dependency { name: "anyhow".into(), version: "1".into(), features: vec![] },
    )
    .expect("the initial manifest parses");
    assert!(plain.contains("anyhow = \"1\""));
}

#[test]
fn add_dependency_rejects_garbage_manifests() {
    let updated = add_dependency_to_manifest(
        &"this is not [valid toml }{".to_string(),
        &Dependency { name: "serde".into(), version: "1".into(), features: vec![] },
    );
    assert!(updated.is_none());
}

#[test]
fn build_env_points_at_the_shared_cache_and_blanks_secrets() {
    let env = build_env(&"/tmp/shared-target".to_string());
    assert_eq!(env[0].0, "CARGO_TARGET_DIR");
    assert_eq!(env[0].1, "/tmp/shared-target");
    assert_eq!(env.len(), 17);
    for (name, value) in &env[1..] {
        assert!(value.is_empty(), "{name} must be blanked");
    }
    assert!(env.iter().any(|(n, _)| n == "ANTHROPIC_API_KEY"));
    assert!(env.iter().any(|(n, _)| n == "SSH_AUTH_SOCK"));
    assert!(env.iter().any(|(n, _)| n == "DATABASE_URL"));
}

#[test]
fn runner_builders_and_timeouts() {
    let runner = LocalRunner::new("/tmp/cache".to_string());
    assert_eq!(runner.default_timeout_ms, 120_000);
    assert!(runner.default_dependencies.is_empty());
    let runner = runner.with_timeout(30_000).with_dependencies(vec![Dependency {
        name: "serde".into(),
        version: "1".into(),
        features: vec![],
    }]);
    assert_eq!(runner.default_timeout_ms, 30_000);
    assert_eq!(runner.default_dependencies.len(), 1);
    // A per-case timeout wins; zero falls back to the default.
    assert_eq!(runner.effective_timeout_ms(90), 90_000);
    assert_eq!(runner.effective_timeout_ms(0), 30_000);
}
