//! Sandbox planning: the project manifest, the choice of source file,
//! test merging, the sanitized environment, and the runner configuration.
//!
//! A sandbox is an isolated project root. The library decides what every
//! file and environment variable holds; creating directories, writing the
//! files and running the toolchain happen outside the library.

use vstd::prelude::*;
use vstd::string::StringExecFns;

use crate::model::Dependency;
use crate::providers::{contains_sub, spec_contains_sub};
use crate::text::chars_of;

verus! {

/// The minimal project manifest every sandbox starts from: a package
/// named for the eval target and an empty dependencies table.
pub fn initial_manifest() -> (r: String)
    ensures
        r@
            == "[package]\nname = \"eval_target\"\nversion = \"0.1.0\"\nedition = \"2021\"\n\n[dependencies]\n"@,
{
    "[package]\nname = \"eval_target\"\nversion = \"0.1.0\"\nedition = \"2021\"\n\n[dependencies]\n".to_owned()
}

/// The source file generated code goes to: the binary entry point when
/// the code textually contains a top-level `fn main`, else the library
/// entry point.
pub fn source_file_name(code: &String) -> (r: String)
    ensures
        spec_contains_sub(code@, "fn main"@) ==> r@ == "main.rs"@,
        !spec_contains_sub(code@, "fn main"@) ==> r@ == "lib.rs"@,
{
    let cv = chars_of(code.as_str());
    let needle = chars_of("fn main");
    if contains_sub(&cv, &needle) {
        "main.rs".to_owned()
    } else {
        "lib.rs".to_owned()
    }
}

/// The library source with the test battery appended: tests share the
/// module scope of the generated code.
pub fn merged_test_source(existing: &String, test_code: &String) -> (r: String)
    ensures
        r@ == existing@ + "\n\n"@ + test_code@,
{
    let mut out = existing.clone();
    out.append("\n\n");
    out.append(test_code.as_str());
    out
}

/// The sensitive variables every sandbox blanks: agent sockets, cloud
/// credentials, forge and registry tokens, model-provider keys, container
/// and cluster configs, database URLs, and package-manager tokens.
pub open spec fn spec_blanked_vars() -> Seq<Seq<char>> {
    seq![
        "SSH_AUTH_SOCK"@,
        "AWS_ACCESS_KEY_ID"@,
        "AWS_SECRET_ACCESS_KEY"@,
        "AWS_SESSION_TOKEN"@,
        "GITHUB_TOKEN"@,
        "GH_TOKEN"@,
        "CARGO_REGISTRY_TOKEN"@,
        "ANTHROPIC_API_KEY"@,
        "OPENAI_API_KEY"@,
        "FORGETEST_ANTHROPIC_KEY"@,
        "FORGETEST_OPENAI_KEY"@,
        "DOCKER_HOST"@,
        "DOCKER_CONFIG"@,
        "KUBECONFIG"@,
        "DATABASE_URL"@,
        "NPM_TOKEN"@,
    ]
}

/// The environment of every sandboxed subprocess: the shared build cache
/// pointer first, then each sensitive variable explicitly blanked.
pub fn build_env(shared_target_dir: &String) -> (r: Vec<(String, String)>)
    ensures
        r@.len() == 1 + spec_blanked_vars().len(),
        r@[0].0@ == "CARGO_TARGET_DIR"@,
        r@[0].1@ == shared_target_dir@,
        forall|i: int|
            1 <= i < r@.len() ==> (#[trigger] r@[i]).0@ == spec_blanked_vars()[i - 1] && r@[i].1@
                =~= Seq::<char>::empty(),
{
    let mut env: Vec<(String, String)> = Vec::new();
    env.push(("CARGO_TARGET_DIR".to_owned(), shared_target_dir.clone()));
    env.push(("SSH_AUTH_SOCK".to_owned(), String::new()));
    env.push(("AWS_ACCESS_KEY_ID".to_owned(), String::new()));
    env.push(("AWS_SECRET_ACCESS_KEY".to_owned(), String::new()));
    env.push(("AWS_SESSION_TOKEN".to_owned(), String::new()));
    env.push(("GITHUB_TOKEN".to_owned(), String::new()));
    env.push(("GH_TOKEN".to_owned(), String::new()));
    env.push(("CARGO_REGISTRY_TOKEN".to_owned(), String::new()));
    env.push(("ANTHROPIC_API_KEY".to_owned(), String::new()));
    env.push(("OPENAI_API_KEY".to_owned(), String::new()));
    env.push(("FORGETEST_ANTHROPIC_KEY".to_owned(), String::new()));
    env.push(("FORGETEST_OPENAI_KEY".to_owned(), String::new()));
    env.push(("DOCKER_HOST".to_owned(), String::new()));
    env.push(("DOCKER_CONFIG".to_owned(), String::new()));
    env.push(("KUBECONFIG".to_owned(), String::new()));
    env.push(("DATABASE_URL".to_owned(), String::new()));
    env.push(("NPM_TOKEN".to_owned(), String::new()));
    env
}

/// The manifest text with `name = "version"` set under `[dependencies]`,
/// format and ordering preserved; absent when the manifest does not
/// parse or has no dependencies table.
pub uninterp spec fn manifest_with_dep(
    manifest: Seq<char>,
    name: Seq<char>,
    version: Seq<char>,
) -> Option<Seq<char>>;

/// The manifest text with `name = { version = "...", features = [...] }`
/// set under `[dependencies]`; absent when the manifest does not parse
/// or has no dependencies table.
pub uninterp spec fn manifest_with_dep_features(
    manifest: Seq<char>,
    name: Seq<char>,
    version: Seq<char>,
    features: Seq<Seq<char>>,
) -> Option<Seq<char>>;

/// Relies on toml_edit's `DocumentMut` parsing and rendering: sets one
/// plain dependency in the manifest, preserving its format and ordering.
#[verifier::external_body]
fn set_dependency(manifest: &str, name: &str, version: &str) -> (r: Option<String>)
    ensures
        match r {
            Some(s) => manifest_with_dep(manifest@, name@, version@) == Some(s@),
            None => manifest_with_dep(manifest@, name@, version@) is None,
        },
{
    let mut doc = manifest.parse::<toml_edit::DocumentMut>().ok()?;
    let deps = doc.get_mut("dependencies")?.as_table_mut()?;
    deps[name] = toml_edit::value(version);
    Some(doc.to_string())
}

/// Relies on toml_edit's `DocumentMut` parsing and rendering: sets one
/// dependency with a version and feature list in the manifest,
/// preserving its format and ordering.
#[verifier::external_body]
fn set_dependency_with_features(
    manifest: &str,
    name: &str,
    version: &str,
    features: &Vec<String>,
) -> (r: Option<String>)
    ensures
        match r {
            Some(s) => manifest_with_dep_features(
                manifest@,
                name@,
                version@,
                features@.map_values(|f: String| f@),
            ) == Some(s@),
            None => manifest_with_dep_features(
                manifest@,
                name@,
                version@,
                features@.map_values(|f: String| f@),
            ) is None,
        },
{
    let mut doc = manifest.parse::<toml_edit::DocumentMut>().ok()?;
    let deps = doc.get_mut("dependencies")?.as_table_mut()?;
    let mut table = toml_edit::InlineTable::new();
    table.insert("version", version.into());
    let mut arr = toml_edit::Array::new();
    for f in features {
        arr.push(f.as_str());
    }
    table.insert("features", toml_edit::Value::Array(arr));
    deps[name] = toml_edit::value(table);
    Some(doc.to_string())
}

/// Adds a dependency to a sandbox manifest, preserving the manifest's
/// format and ordering: a plain `name = "version"` entry when the
/// dependency asks for no features, else an inline table with the
/// version and the feature list.
pub fn add_dependency_to_manifest(manifest: &String, dep: &Dependency) -> (r: Option<String>)
    ensures
        dep.features@.len() == 0 ==> (match r {
            Some(s) => manifest_with_dep(manifest@, dep.name@, dep.version@) == Some(s@),
            None => manifest_with_dep(manifest@, dep.name@, dep.version@) is None,
        }),
        dep.features@.len() > 0 ==> (match r {
            Some(s) => manifest_with_dep_features(
                manifest@,
                dep.name@,
                dep.version@,
                dep.features@.map_values(|f: String| f@),
            ) == Some(s@),
            None => manifest_with_dep_features(
                manifest@,
                dep.name@,
                dep.version@,
                dep.features@.map_values(|f: String| f@),
            ) is None,
        }),
{
    if dep.features.len() == 0 {
        set_dependency(manifest.as_str(), dep.name.as_str(), dep.version.as_str())
    } else {
        set_dependency_with_features(
            manifest.as_str(),
            dep.name.as_str(),
            dep.version.as_str(),
            &dep.features,
        )
    }
}

/// Request to compile generated code.
#[derive(Debug, Clone)]
pub struct CompileRequest {
    /// The source code to compile.
    pub code: String,
    /// Programming language.
    pub language: crate::model::Language,
    /// Additional dependencies needed.
    pub dependencies: Vec<Dependency>,
    /// Compilation timeout in seconds.
    pub timeout_secs: u64,
}

/// Request to run tests: a compile request together with the test code.
#[derive(Debug, Clone)]
pub struct TestRequest {
    /// The source code to test.
    pub code: String,
    /// Test code to compile against the source.
    pub test_code: String,
    /// Programming language.
    pub language: crate::model::Language,
    /// Additional dependencies.
    pub dependencies: Vec<Dependency>,
    /// Timeout in seconds.
    pub timeout_secs: u64,
}

/// Request to run the linter; the same shape as a compile request.
#[derive(Debug, Clone)]
pub struct ClippyRequest {
    /// The source code to analyze.
    pub code: String,
    /// Programming language.
    pub language: crate::model::Language,
    /// Additional dependencies.
    pub dependencies: Vec<Dependency>,
    /// Timeout in seconds.
    pub timeout_secs: u64,
}

/// The local code runner's configuration: where the shared build cache
/// lives, the default stage timeout, and dependencies added to every
/// sandbox.
#[derive(Debug, Clone)]
pub struct LocalRunner {
    /// Shared target directory for caching compiled dependencies.
    pub shared_target_dir: String,
    /// Default timeout for compilation and tests, in milliseconds.
    pub default_timeout_ms: u64,
    /// Default dependencies added to every sandbox.
    pub default_dependencies: Vec<Dependency>,
}

impl LocalRunner {
    /// A runner over the given shared target directory, with a
    /// two-minute default timeout and no default dependencies.
    pub fn new(shared_target_dir: String) -> (r: LocalRunner)
        ensures
            r.shared_target_dir@ == shared_target_dir@,
            r.default_timeout_ms == 120_000,
            r.default_dependencies@.len() == 0,
    {
        LocalRunner {
            shared_target_dir,
            default_timeout_ms: 120_000,
            default_dependencies: Vec::new(),
        }
    }

    /// The same runner with another default timeout.
    pub fn with_timeout(self, timeout_ms: u64) -> (r: LocalRunner)
        ensures
            r.shared_target_dir@ == self.shared_target_dir@,
            r.default_timeout_ms == timeout_ms,
            r.default_dependencies == self.default_dependencies,
    {
        LocalRunner { default_timeout_ms: timeout_ms, ..self }
    }

    /// The same runner with other default dependencies.
    pub fn with_dependencies(self, deps: Vec<Dependency>) -> (r: LocalRunner)
        ensures
            r.shared_target_dir@ == self.shared_target_dir@,
            r.default_timeout_ms == self.default_timeout_ms,
            r.default_dependencies == deps,
    {
        LocalRunner { default_dependencies: deps, ..self }
    }

    /// The stage timeout of one request: the request's own positive
    /// timeout, in milliseconds and saturated, else the runner default.
    pub fn effective_timeout_ms(&self, timeout_secs: u64) -> (r: u64)
        ensures
            timeout_secs == 0 ==> r == self.default_timeout_ms,
            timeout_secs > 0 ==> r == if timeout_secs * 1000 > u64::MAX {
                u64::MAX as int
            } else {
                timeout_secs * 1000
            },
    {
        if timeout_secs == 0 {
            self.default_timeout_ms
        } else if timeout_secs > u64::MAX / 1000 {
            u64::MAX
        } else {
            timeout_secs * 1000
        }
    }
}

} // verus!
