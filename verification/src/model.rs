//! Core data model: cases, expectations, sets, and languages.

use vstd::prelude::*;
use vstd::string::StringExecFns;

use crate::text::chars_of;

verus! {

/// Supported programming languages.
#[derive(Debug, Clone, Copy, PartialEq, Eq, Hash, Structural)]
pub enum Language {
    Rust,
    Python,
    TypeScript,
    Go,
}

/// Unicode scalar of `c`, ASCII upper case folded to lower case.
pub open spec fn lower_int(c: char) -> int {
    if 'A' <= c && c <= 'Z' {
        c as int + 32
    } else {
        c as int
    }
}

/// Case-insensitive (ASCII) equality of two character sequences.
pub open spec fn ci_eq(s: Seq<char>, t: Seq<char>) -> bool {
    s.len() == t.len() && forall|i: int| 0 <= i < s.len() ==> lower_int(s[i]) == lower_int(t[i])
}

/// The language named by `s`, compared case-insensitively, accepting the
/// conventional short names as well.
pub open spec fn spec_parse_language(s: Seq<char>) -> Option<Language> {
    if ci_eq(s, "rust"@) {
        Some(Language::Rust)
    } else if ci_eq(s, "python"@) {
        Some(Language::Python)
    } else if ci_eq(s, "typescript"@) || ci_eq(s, "ts"@) {
        Some(Language::TypeScript)
    } else if ci_eq(s, "go"@) || ci_eq(s, "golang"@) {
        Some(Language::Go)
    } else {
        None
    }
}

/// Case-insensitive (ASCII) comparison of `v` against `lit`.
pub fn eq_ignore_case(v: &Vec<char>, lit: &str) -> (r: bool)
    ensures
        r == ci_eq(v@, lit@),
{
    let w = chars_of(lit);
    if v.len() != w.len() {
        return false;
    }
    let mut i: usize = 0;
    while i < v.len()
        invariant
            i <= v@.len(),
            v@.len() == w@.len(),
            w@ == lit@,
            forall|j: int| 0 <= j < i ==> lower_int(v@[j]) == lower_int(w@[j]),
        decreases v@.len() - i,
    {
        let a = v[i];
        let b = w[i];
        let a_up = a >= 'A' && a <= 'Z';
        let b_up = b >= 'A' && b <= 'Z';
        let same = if a_up == b_up {
            a == b
        } else if a_up {
            b >= 'a' && b <= 'z' && b as u32 == a as u32 + 32
        } else {
            a >= 'a' && a <= 'z' && a as u32 == b as u32 + 32
        };
        proof {
            assert(same == (lower_int(v@[i as int]) == lower_int(w@[i as int])));
        }
        if !same {
            return false;
        }
        i = i + 1;
    }
    true
}

impl Language {
    /// The language's conventional lower-case name.
    pub fn name(&self) -> (r: String)
        ensures
            *self == Language::Rust ==> r@ == "rust"@,
            *self == Language::Python ==> r@ == "python"@,
            *self == Language::TypeScript ==> r@ == "typescript"@,
            *self == Language::Go ==> r@ == "go"@,
    {
        match self {
            Language::Rust => "rust".to_owned(),
            Language::Python => "python".to_owned(),
            Language::TypeScript => "typescript".to_owned(),
            Language::Go => "go".to_owned(),
        }
    }
}

/// Parses a language name, case-insensitively, accepting the conventional
/// short names; rejects anything else.
pub fn parse_language(s: &str) -> (r: Result<Language, String>)
    ensures
        r matches Ok(l) ==> spec_parse_language(s@) == Some(l),
        r is Err <==> spec_parse_language(s@) is None,
{
    let v = chars_of(s);
    if eq_ignore_case(&v, "rust") {
        Ok(Language::Rust)
    } else if eq_ignore_case(&v, "python") {
        Ok(Language::Python)
    } else if eq_ignore_case(&v, "typescript") || eq_ignore_case(&v, "ts") {
        Ok(Language::TypeScript)
    } else if eq_ignore_case(&v, "go") || eq_ignore_case(&v, "golang") {
        Ok(Language::Go)
    } else {
        let mut msg = "unknown language: ".to_owned();
        msg.append(s);
        Err(msg)
    }
}

impl core::str::FromStr for Language {
    type Err = String;

    fn from_str(s: &str) -> Result<Self, String> {
        parse_language(s)
    }
}

/// A file provided as context alongside the prompt.
#[derive(Debug, Clone)]
pub struct ContextFile {
    /// Relative path (e.g. "src/lib.rs").
    pub path: String,
    /// File contents.
    pub content: String,
}

/// A crate dependency a case needs in order to compile.
#[derive(Debug, Clone)]
pub struct Dependency {
    /// Crate name.
    pub name: String,
    /// Version requirement.
    pub version: String,
    /// Features to enable.
    pub features: Vec<String>,
}

/// What is checked about the generated code.
#[derive(Debug, Clone)]
pub struct Expectations {
    /// Whether the generated code should compile successfully.
    pub should_compile: bool,
    /// Whether the generated code should pass tests.
    pub should_pass_tests: bool,
    /// Test code to compile and run against the generated output.
    pub test_file: Option<String>,
    /// Function names that must exist in the generated code.
    pub expected_functions: Vec<String>,
    /// Type names that must exist in the generated code.
    pub expected_types: Vec<String>,
    /// Maximum allowed lint warnings (None = no limit).
    pub max_clippy_warnings: Option<u32>,
    /// Shell command that receives generated code on stdin; exits 0 for pass.
    pub custom_check: Option<String>,
}

impl Default for Expectations {
    /// Both stage expectations default to on, everything else to empty.
    fn default() -> (r: Self)
        ensures
            r.should_compile,
            r.should_pass_tests,
            r.test_file is None,
            r.expected_functions@.len() == 0,
            r.expected_types@.len() == 0,
            r.max_clippy_warnings is None,
            r.custom_check is None,
    {
        Expectations {
            should_compile: true,
            should_pass_tests: true,
            test_file: None,
            expected_functions: Vec::new(),
            expected_types: Vec::new(),
            max_clippy_warnings: None,
            custom_check: None,
        }
    }
}

/// A single evaluation task sent to a model.
#[derive(Debug, Clone)]
pub struct EvalCase {
    /// Unique identifier for this eval case.
    pub id: String,
    /// Human-readable name.
    pub name: String,
    /// Description of what this eval case tests.
    pub description: String,
    /// The prompt sent to the model.
    pub prompt: String,
    /// The programming language expected in the response.
    pub language: Option<Language>,
    /// Additional files provided as context.
    pub context: Vec<ContextFile>,
    /// What is checked about the output.
    pub expectations: Expectations,
    /// Tags for filtering eval cases.
    pub tags: Vec<String>,
    /// External crate dependencies needed to compile this case.
    pub dependencies: Vec<Dependency>,
    /// Per-case timeout override in seconds.
    pub timeout_secs: Option<u64>,
    /// Per-case max tokens override.
    pub max_tokens: Option<u32>,
}

/// An ordered collection of eval cases sharing defaults.
#[derive(Debug, Clone)]
pub struct EvalSet {
    /// Unique identifier for this eval set.
    pub id: String,
    /// Human-readable name.
    pub name: String,
    /// Description of this eval set.
    pub description: String,
    /// The eval cases in this set.
    pub cases: Vec<EvalCase>,
    /// Default language for cases that don't specify one.
    pub default_language: Language,
    /// Default timeout in seconds for cases that don't specify one.
    pub default_timeout_secs: u64,
}

} // verus!
