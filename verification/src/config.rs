//! Provider configuration: the config data model, `${VAR}` interpolation
//! from an environment snapshot, and the dedicated key overrides.
//!
//! Reading the config file and snapshotting the process environment
//! happen outside the library; the resolution logic is here.

use vstd::prelude::*;
use vstd::string::StringExecFns;

use crate::text::{chars_of, string_of, subrange_vec};

verus! {

/// Configuration for a single provider backend, keyed by its `type`
/// discriminator in the config file.
#[derive(Debug, Clone)]
pub enum ProviderConfig {
    OpenAI { api_key: String, base_url: Option<String>, org_id: Option<String> },
    Anthropic { api_key: String, base_url: Option<String> },
    Ollama { base_url: String },
}

/// Top-level configuration.
#[derive(Debug, Clone)]
pub struct ForgetestConfig {
    /// Provider configurations keyed by name, each name unique.
    pub providers: Vec<(String, ProviderConfig)>,
    /// Default provider to use.
    pub default_provider: String,
    /// Default model to use.
    pub default_model: String,
    /// Default temperature in thousandths (0 for deterministic evals).
    pub default_temperature_milli: u32,
    /// Max retries on provider errors.
    pub max_retries: u32,
    /// Delay between retries in milliseconds.
    pub retry_delay_ms: u64,
    /// Max concurrent eval runs.
    pub parallelism: usize,
    /// Output directory for results.
    pub output_dir: String,
}

impl Default for ForgetestConfig {
    /// No providers configured; the hosted default provider and model;
    /// deterministic sampling; three retries a second apart; four
    /// workers.
    fn default() -> (r: Self)
        ensures
            r.providers@.len() == 0,
            r.default_provider@ == "anthropic"@,
            r.default_model@ == "sonnet-4"@,
            r.default_temperature_milli == 0,
            r.max_retries == 3,
            r.retry_delay_ms == 1000,
            r.parallelism == 4,
            r.output_dir@ == "./forgetest-results"@,
    {
        ForgetestConfig {
            providers: Vec::new(),
            default_provider: "anthropic".to_owned(),
            default_model: "sonnet-4".to_owned(),
            default_temperature_milli: 0,
            max_retries: 3,
            retry_delay_ms: 1000,
            parallelism: 4,
            output_dir: "./forgetest-results".to_owned(),
        }
    }
}

/// The value of a variable in an environment snapshot; an undefined
/// variable resolves to the empty string.
pub open spec fn env_value(env: Seq<(Seq<char>, Seq<char>)>, name: Seq<char>) -> Seq<char>
    decreases env.len(),
{
    if env.len() == 0 {
        Seq::empty()
    } else if env[0].0 == name {
        env[0].1
    } else {
        env_value(env.drop_first(), name)
    }
}

/// Index of the first `${` in `s`, or `s.len()` when there is none.
pub open spec fn first_dollar_brace(s: Seq<char>) -> int
    decreases s.len(),
{
    if s.len() < 2 {
        s.len() as int
    } else if s[0] == '$' && s[1] == '{' {
        0
    } else {
        1 + first_dollar_brace(s.drop_first())
    }
}

proof fn lemma_first_dollar_brace_bounds(s: Seq<char>)
    ensures
        0 <= first_dollar_brace(s) <= s.len(),
        first_dollar_brace(s) + 2 <= s.len() ==> (s[first_dollar_brace(s)] == '$' && s[
            first_dollar_brace(s) + 1
        ] == '{') || first_dollar_brace(s) == s.len(),
    decreases s.len(),
{
    if s.len() >= 2 && !(s[0] == '$' && s[1] == '{') {
        lemma_first_dollar_brace_bounds(s.drop_first());
    }
}

/// Index of the first `}` at or after `from`, or `s.len()` when none.
pub open spec fn first_close_brace(s: Seq<char>, from: int) -> int
    decreases s.len() - from,
{
    if from < 0 || from >= s.len() {
        s.len() as int
    } else if s[from] == '}' {
        from
    } else {
        first_close_brace(s, from + 1)
    }
}

proof fn lemma_first_close_brace_bounds(s: Seq<char>, from: int)
    requires
        0 <= from,
    ensures
        from <= first_close_brace(s, from) || first_close_brace(s, from) == s.len(),
        first_close_brace(s, from) <= s.len(),
    decreases s.len() - from,
{
    if from < s.len() && s[from] != '}' {
        lemma_first_close_brace_bounds(s, from + 1);
    }
}

/// `s` with every `${VAR}` replaced by the variable's value from the
/// snapshot, scanning left to right; text after a `${` that no `}`
/// closes stays as it is.
pub open spec fn spec_resolve(s: Seq<char>, env: Seq<(Seq<char>, Seq<char>)>) -> Seq<char>
    decreases s.len(),
    via spec_resolve_decreases
{
    let i = first_dollar_brace(s);
    if i + 2 > s.len() {
        s
    } else {
        let j = first_close_brace(s, i + 2);
        if j >= s.len() {
            s
        } else {
            s.take(i) + env_value(env, s.subrange(i + 2, j)) + spec_resolve(s.skip(j + 1), env)
        }
    }
}

#[via_fn]
proof fn spec_resolve_decreases(s: Seq<char>, env: Seq<(Seq<char>, Seq<char>)>) {
    lemma_first_dollar_brace_bounds(s);
    lemma_first_close_brace_bounds(s, first_dollar_brace(s) + 2);
}

/// Looks a variable up in an environment snapshot.
fn env_lookup(env: &Vec<(String, String)>, name: &Vec<char>) -> (r: Vec<char>)
    ensures
        r@ == env_value(env@.map_values(|q: (String, String)| (q.0@, q.1@)), name@),
{
    let ghost ev = env@.map_values(|q: (String, String)| (q.0@, q.1@));
    let mut i: usize = 0;
    proof {
        assert(ev.skip(0) =~= ev);
    }
    while i < env.len()
        invariant
            i <= env@.len(),
            ev == env@.map_values(|q: (String, String)| (q.0@, q.1@)),
            env_value(ev, name@) == env_value(ev.skip(i as int), name@),
        decreases env@.len() - i,
    {
        proof {
            assert(ev[i as int] == (env@[i as int].0@, env@[i as int].1@));
            assert(ev.skip(i as int)[0] == ev[i as int]);
            assert(ev.skip(i as int).drop_first() =~= ev.skip(i as int + 1));
        }
        if crate::test_output::chars_eq_string(&env[i].0, name) {
            return chars_of(env[i].1.as_str());
        }
        i = i + 1;
    }
    proof {
        assert(ev.skip(i as int) =~= Seq::<(Seq<char>, Seq<char>)>::empty());
    }
    Vec::new()
}

/// Resolves `${VAR}` references in a string from an environment
/// snapshot; undefined variables resolve to the empty string.
pub fn resolve_env_vars(s: &String, env: &Vec<(String, String)>) -> (r: String)
    ensures
        r@ == spec_resolve(s@, env@.map_values(|q: (String, String)| (q.0@, q.1@))),
{
    let ghost ev = env@.map_values(|q: (String, String)| (q.0@, q.1@));
    let v = chars_of(s.as_str());
    let out = resolve_chars(&v, env);
    string_of(&out)
}

fn resolve_chars(v: &Vec<char>, env: &Vec<(String, String)>) -> (r: Vec<char>)
    ensures
        r@ == spec_resolve(v@, env@.map_values(|q: (String, String)| (q.0@, q.1@))),
    decreases v@.len(),
{
    let ghost ev = env@.map_values(|q: (String, String)| (q.0@, q.1@));
    // Find the first `${`.
    let mut i: usize = 0;
    proof {
        assert(v@.skip(0) =~= v@);
    }
    while v.len() >= 2 && i <= v.len() - 2 && !(v[i] == '$' && v[i + 1] == '{')
        invariant
            i <= v@.len(),
            first_dollar_brace(v@) == i + first_dollar_brace(v@.skip(i as int)),
        decreases v@.len() - i,
    {
        proof {
            assert(v@.skip(i as int)[0] == v@[i as int]);
            if i + 1 < v@.len() {
                assert(v@.skip(i as int)[1] == v@[i as int + 1]);
            }
            assert(v@.skip(i as int).drop_first() =~= v@.skip(i as int + 1));
        }
        i = i + 1;
    }
    proof {
        lemma_first_dollar_brace_bounds(v@.skip(i as int));
        if i + 2 <= v@.len() {
            assert(v@.skip(i as int)[0] == v@[i as int]);
            assert(v@.skip(i as int)[1] == v@[i as int + 1]);
            assert(first_dollar_brace(v@.skip(i as int)) == 0);
        }
        assert(first_dollar_brace(v@) == i || first_dollar_brace(v@) + 2 > v@.len());
    }
    if v.len() < 2 || i > v.len() - 2 {
        proof {
            lemma_first_dollar_brace_bounds(v@);
            assert(first_dollar_brace(v@) + 2 > v@.len());
        }
        return subrange_vec(v, 0, v.len());
    }
    // Find the closing `}`.
    let mut j: usize = i + 2;
    while j < v.len() && v[j] != '}'
        invariant
            i + 2 <= j <= v@.len(),
            first_close_brace(v@, i + 2) == first_close_brace(v@, j as int),
            forall|t: int| i + 2 <= t < j ==> v@[t] != '}',
        decreases v@.len() - j,
    {
        j = j + 1;
    }
    if j >= v.len() {
        proof {
            assert(first_close_brace(v@, j as int) == v@.len());
            assert(first_close_brace(v@, i + 2) >= v@.len());
        }
        return subrange_vec(v, 0, v.len());
    }
    proof {
        assert(first_close_brace(v@, j as int) == j);
    }
    let name = subrange_vec(v, i + 2, j);
    let value = env_lookup(env, &name);
    let rest = subrange_vec(v, j + 1, v.len());
    let resolved_rest = resolve_chars(&rest, env);
    let mut out = subrange_vec(v, 0, i);
    let mut t: usize = 0;
    let ghost base1 = out@;
    while t < value.len()
        invariant
            t <= value@.len(),
            out@ == base1 + value@.take(t as int),
        decreases value@.len() - t,
    {
        out.push(value[t]);
        t = t + 1;
    }
    proof {
        assert(out@ =~= base1 + value@);
    }
    let mut u: usize = 0;
    let ghost base2 = out@;
    while u < resolved_rest.len()
        invariant
            u <= resolved_rest@.len(),
            out@ == base2 + resolved_rest@.take(u as int),
        decreases resolved_rest@.len() - u,
    {
        out.push(resolved_rest[u]);
        u = u + 1;
    }
    proof {
        assert(out@ =~= base2 + resolved_rest@);
        assert(rest@ =~= v@.skip(j + 1));
        assert(name@ =~= v@.subrange(i + 2, j as int));
        assert(out@ =~= v@.take(i as int) + env_value(ev, v@.subrange(i + 2, j as int))
            + spec_resolve(v@.skip(j + 1), ev));
    }
    out
}

/// The same provider entry with every string field resolved against the
/// environment snapshot.
pub fn resolve_provider_config(config: &ProviderConfig, env: &Vec<(String, String)>) -> (r:
    ProviderConfig)
    ensures
        ({
            let ev = env@.map_values(|q: (String, String)| (q.0@, q.1@));
            match *config {
                ProviderConfig::OpenAI { api_key, base_url, org_id } => r matches ProviderConfig::OpenAI {
                    api_key: k,
                    base_url: b,
                    org_id: o,
                } && k@ == spec_resolve(api_key@, ev) && (match (base_url, b) {
                    (Some(u), Some(ru)) => ru@ == spec_resolve(u@, ev),
                    (None, None) => true,
                    _ => false,
                }) && (match (org_id, o) {
                    (Some(u), Some(ro)) => ro@ == spec_resolve(u@, ev),
                    (None, None) => true,
                    _ => false,
                }),
                ProviderConfig::Anthropic { api_key, base_url } => r matches ProviderConfig::Anthropic {
                    api_key: k,
                    base_url: b,
                } && k@ == spec_resolve(api_key@, ev) && (match (base_url, b) {
                    (Some(u), Some(ru)) => ru@ == spec_resolve(u@, ev),
                    (None, None) => true,
                    _ => false,
                }),
                ProviderConfig::Ollama { base_url } => r matches ProviderConfig::Ollama {
                    base_url: b,
                } && b@ == spec_resolve(base_url@, ev),
            }
        }),
{
    match config {
        ProviderConfig::OpenAI { api_key, base_url, org_id } => ProviderConfig::OpenAI {
            api_key: resolve_env_vars(api_key, env),
            base_url: match base_url {
                Some(u) => Some(resolve_env_vars(u, env)),
                None => None,
            },
            org_id: match org_id {
                Some(u) => Some(resolve_env_vars(u, env)),
                None => None,
            },
        },
        ProviderConfig::Anthropic { api_key, base_url } => ProviderConfig::Anthropic {
            api_key: resolve_env_vars(api_key, env),
            base_url: match base_url {
                Some(u) => Some(resolve_env_vars(u, env)),
                None => None,
            },
        },
        ProviderConfig::Ollama { base_url } => ProviderConfig::Ollama {
            base_url: resolve_env_vars(base_url, env),
        },
    }
}

/// Holds when the provider list `after` is `before` with the dedicated
/// key applied under the given entry name: the first entry of that name
/// has the key set when it is of the Anthropic type and stays unchanged
/// otherwise, every other entry is untouched, and a missing entry is
/// appended fresh with the key.
pub open spec fn anthropic_key_applied(
    before: Seq<(String, ProviderConfig)>,
    after: Seq<(String, ProviderConfig)>,
    key: Seq<char>,
) -> bool {
    if exists|i: int| 0 <= i < before.len() && (#[trigger] before[i]).0@ == "anthropic"@ {
        exists|i: int|
            {
                &&& 0 <= i < before.len()
                &&& (#[trigger] before[i]).0@ == "anthropic"@
                &&& after.len() == before.len()
                &&& (forall|j: int| 0 <= j < before.len() && j != i ==> after[j] == before[j])
                &&& after[i].0@ == "anthropic"@
                &&& (match before[i].1 {
                    ProviderConfig::Anthropic { api_key: _, base_url } => after[i].1 matches ProviderConfig::Anthropic {
                        api_key: k,
                        base_url: b,
                    } && k@ == key && b == base_url,
                    _ => after[i].1 == before[i].1,
                })
            }
    } else {
        &&& after.len() == before.len() + 1
        &&& (forall|j: int| 0 <= j < before.len() ==> after[j] == before[j])
        &&& after.last().0@ == "anthropic"@
        &&& (after.last().1 matches ProviderConfig::Anthropic { api_key: k, base_url: b } && k@
            == key && b is None)
    }
}

/// Applies a dedicated environment key for the hosted default provider:
/// sets the key of the named entry when it is of that provider's own
/// type, leaves an entry of another type alone, and appends a fresh
/// entry when the name is absent.
pub fn apply_anthropic_key(providers: &mut Vec<(String, ProviderConfig)>, key: String)
    ensures
        anthropic_key_applied(old(providers)@, final(providers)@, key@),
{
    let mut found: Option<usize> = None;
    let mut i: usize = 0;
    while i < providers.len() && found.is_none()
        invariant
            i <= providers@.len(),
            providers@ == old(providers)@,
            match found {
                Some(idx) => 0 <= idx < providers@.len() && providers@[idx as int].0@
                    == "anthropic"@,
                None => forall|j: int|
                    0 <= j < i ==> (#[trigger] providers@[j]).0@ != "anthropic"@,
            },
        decreases providers@.len() - i + (if found is None {
            1int
        } else {
            0int
        }),
    {
        let is_anthropic = crate::text::chars_eq_str(
            &chars_of(providers[i].0.as_str()),
            "anthropic",
        );
        if is_anthropic {
            found = Some(i);
        } else {
            i = i + 1;
        }
    }
    match found {
        Some(idx) => {
            let ghost before = providers@;
            let name = providers[idx].0.clone();
            let updated = match &providers[idx].1 {
                ProviderConfig::Anthropic { api_key: _, base_url } => ProviderConfig::Anthropic {
                    api_key: key,
                    base_url: clone_opt(base_url),
                },
                other => clone_provider_config(other),
            };
            providers.set(idx, (name, updated));
            proof {
                let after = providers@;
                assert(before[idx as int].0@ == "anthropic"@);
                assert(after[idx as int].0@ == "anthropic"@);
                assert(forall|j: int|
                    0 <= j < before.len() && j != idx ==> after[j] == before[j]);
                assert(anthropic_key_applied(before, after, key@));
            }
        },
        None => {
            let ghost before = providers@;
            providers.push(
                ("anthropic".to_owned(), ProviderConfig::Anthropic { api_key: key, base_url: None }),
            );
            proof {
                let after = providers@;
                assert(forall|j: int|
                    0 <= j < before.len() ==> (#[trigger] before[j]).0@ != "anthropic"@);
                assert(after.last().0@ == "anthropic"@);
                assert(anthropic_key_applied(before, after, key@));
            }
        },
    }
}

fn clone_opt(s: &Option<String>) -> (r: Option<String>)
    ensures
        r == *s,
{
    match s {
        Some(x) => Some(x.clone()),
        None => None,
    }
}

fn clone_provider_config(c: &ProviderConfig) -> (r: ProviderConfig)
    ensures
        r == *c,
{
    match c {
        ProviderConfig::OpenAI { api_key, base_url, org_id } => ProviderConfig::OpenAI {
            api_key: api_key.clone(),
            base_url: clone_opt(base_url),
            org_id: clone_opt(org_id),
        },
        ProviderConfig::Anthropic { api_key, base_url } => ProviderConfig::Anthropic {
            api_key: api_key.clone(),
            base_url: clone_opt(base_url),
        },
        ProviderConfig::Ollama { base_url } => ProviderConfig::Ollama {
            base_url: base_url.clone(),
        },
    }
}

} // verus!
