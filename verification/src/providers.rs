//! The provider abstraction: requests, responses, the error taxonomy
//! mapping, prompt assembly, cost estimation, and the model catalogues.
//!
//! The HTTP exchange itself happens outside the library; the logic that
//! decides what to send and how to read what came back is here.

use vstd::prelude::*;
use vstd::string::StringExecFns;

use crate::errors::ProviderError;
use crate::extract::{extract_code_from_markdown, spec_extract};
use crate::model::ContextFile;
use crate::results::TokenUsage;

verus! {

/// Request to generate code from a model.
#[derive(Debug, Clone)]
pub struct GenerateRequest {
    /// Model identifier.
    pub model: String,
    /// The main prompt.
    pub prompt: String,
    /// Optional system prompt override.
    pub system_prompt: Option<String>,
    /// Additional context files.
    pub context_files: Vec<ContextFile>,
    /// Maximum tokens to generate.
    pub max_tokens: u32,
    /// Sampling temperature, in thousandths.
    pub temperature_milli: u32,
    /// Stop sequences.
    pub stop_sequences: Vec<String>,
}

/// Response from a code generation request.
#[derive(Debug, Clone)]
pub struct GenerateResponse {
    /// The raw response content.
    pub content: String,
    /// Code extracted from fenced blocks of the content.
    pub extracted_code: String,
    /// Model that actually generated the response.
    pub model: String,
    /// Token usage.
    pub token_usage: TokenUsage,
    /// Latency in milliseconds.
    pub latency_ms: u64,
}

/// Information about an available model. Costs are in millionths of a
/// dollar per 1000 tokens.
#[derive(Debug, Clone)]
pub struct ModelInfo {
    pub id: String,
    pub name: String,
    pub provider: String,
    /// Maximum context window size in tokens.
    pub max_context: u32,
    pub cost_per_1k_input_microusd: u64,
    pub cost_per_1k_output_microusd: u64,
}

/// The provider families the harness ships backends for.
#[derive(Debug, Clone, Copy, PartialEq, Eq, Structural)]
pub enum ProviderKind {
    Anthropic,
    OpenAi,
    Ollama,
}

/// The rate-limit delay in milliseconds: the `retry-after` header's
/// seconds when present, else a default of five seconds.
pub open spec fn spec_retry_after_ms(retry_after_secs: Option<u64>) -> int {
    match retry_after_secs {
        Some(s) => if s * 1000 > u64::MAX {
            u64::MAX as int
        } else {
            s * 1000
        },
        None => 5000,
    }
}

/// Translates an HTTP status to the provider error taxonomy.
///
/// A rate limit is transient and carries the retry-after hint; a failed
/// authentication and an unknown model are permanent; any other status
/// of 400 or above is a transient API error; anything below 400 is
/// success. The hosted providers report rate limits and authentication
/// failures; the local provider knows only missing models.
pub fn classify_status(
    kind: ProviderKind,
    status: u16,
    retry_after_secs: Option<u64>,
    model: &String,
    body: &String,
) -> (r: Option<ProviderError>)
    ensures
        r is Some <==> status >= 400,
        (kind == ProviderKind::Anthropic || kind == ProviderKind::OpenAi) && status == 429 ==> (
        r matches Some(ProviderError::RateLimited { retry_after_ms }) && retry_after_ms
            == spec_retry_after_ms(retry_after_secs)),
        (kind == ProviderKind::Anthropic || kind == ProviderKind::OpenAi) && status == 401 ==> (
        r matches Some(ProviderError::AuthenticationFailed(b)) && b@ == body@),
        (kind == ProviderKind::Anthropic || kind == ProviderKind::Ollama) && status == 404 ==> (
        r matches Some(ProviderError::ModelNotFound(m)) && m@ == model@),
        status >= 400 && !(kind == ProviderKind::Anthropic && (status == 429 || status == 401
            || status == 404)) && !(kind == ProviderKind::OpenAi && (status == 429 || status
            == 401)) && !(kind == ProviderKind::Ollama && status == 404) ==> (r matches Some(
            ProviderError::ApiError { status: st, message },
        ) && st == status && message@ == body@),
{
    let rate_limited = || -> (e: ProviderError)
        ensures
            e matches ProviderError::RateLimited { retry_after_ms } && retry_after_ms
                == spec_retry_after_ms(retry_after_secs),
        {
        let ms: u64 = match retry_after_secs {
            Some(s) => {
                if s > u64::MAX / 1000 {
                    u64::MAX
                } else {
                    s * 1000
                }
            },
            None => 5000,
        };
        ProviderError::RateLimited { retry_after_ms: ms }
    };
    match kind {
        ProviderKind::Anthropic => {
            if status == 429 {
                Some(rate_limited())
            } else if status == 401 {
                Some(ProviderError::AuthenticationFailed(clone_str(body)))
            } else if status == 404 {
                Some(ProviderError::ModelNotFound(clone_str(model)))
            } else if status >= 400 {
                Some(ProviderError::ApiError { status, message: clone_str(body) })
            } else {
                None
            }
        },
        ProviderKind::OpenAi => {
            if status == 429 {
                Some(rate_limited())
            } else if status == 401 {
                Some(ProviderError::AuthenticationFailed(clone_str(body)))
            } else if status >= 400 {
                Some(ProviderError::ApiError { status, message: clone_str(body) })
            } else {
                None
            }
        },
        ProviderKind::Ollama => {
            if status == 404 {
                Some(ProviderError::ModelNotFound(clone_str(model)))
            } else if status >= 400 {
                Some(ProviderError::ApiError { status, message: clone_str(body) })
            } else {
                None
            }
        },
    }
}

/// Copies a string by its characters.
fn clone_str(s: &String) -> (r: String)
    ensures
        r@ == s@,
{
    crate::text::string_of(&crate::text::chars_of(s.as_str()))
}

/// The published price of a generation, in millionths of a dollar:
/// per-token prices of each hosted provider family; the local provider
/// is free.
pub open spec fn spec_cost_microusd(kind: ProviderKind, prompt: u32, completion: u32) -> int {
    match kind {
        ProviderKind::Anthropic => 3 * prompt + 15 * completion,
        ProviderKind::OpenAi => 2 * prompt + 8 * completion,
        ProviderKind::Ollama => 0,
    }
}

/// Estimates the cost of a generation from the token counts.
pub fn estimate_cost_microusd(kind: ProviderKind, prompt_tokens: u32, completion_tokens: u32) -> (r:
    u64)
    ensures
        r == spec_cost_microusd(kind, prompt_tokens, completion_tokens),
{
    match kind {
        ProviderKind::Anthropic => 3 * (prompt_tokens as u64) + 15 * (completion_tokens as u64),
        ProviderKind::OpenAi => 2 * (prompt_tokens as u64) + 8 * (completion_tokens as u64),
        ProviderKind::Ollama => 0,
    }
}

/// The block a context file contributes to the user message.
pub open spec fn spec_file_block(f: ContextFile) -> Seq<char> {
    "File `"@ + f.path@ + "`:\n```\n"@ + f.content@ + "\n```\n\n"@
}

/// The context blocks of the files, in order.
pub open spec fn spec_file_blocks(files: Seq<ContextFile>) -> Seq<char>
    decreases files.len(),
{
    if files.len() == 0 {
        Seq::empty()
    } else {
        spec_file_blocks(files.drop_last()) + spec_file_block(files.last())
    }
}

/// The user message: each context file, in
/// ``File `<path>`:\n```\n<content>\n```\n\n`` form, prepended to the
/// prompt.
pub open spec fn spec_user_message(files: Seq<ContextFile>, prompt: Seq<char>) -> Seq<char> {
    spec_file_blocks(files) + prompt
}

/// Builds the user message sent to a provider.
pub fn assemble_user_message(context_files: &Vec<ContextFile>, prompt: &String) -> (r: String)
    ensures
        r@ == spec_user_message(context_files@, prompt@),
{
    let mut out = String::new();
    let mut i: usize = 0;
    proof {
        assert(context_files@.take(0) =~= Seq::<ContextFile>::empty());
        assert(out@ =~= spec_file_blocks(context_files@.take(0)));
    }
    while i < context_files.len()
        invariant
            i <= context_files@.len(),
            out@ == spec_file_blocks(context_files@.take(i as int)),
        decreases context_files@.len() - i,
    {
        let f = &context_files[i];
        proof {
            assert(context_files@.take(i as int + 1).drop_last() =~= context_files@.take(i as int));
            assert(context_files@.take(i as int + 1).last() == context_files@[i as int]);
        }
        out.append("File `");
        out.append(f.path.as_str());
        out.append("`:\n```\n");
        out.append(f.content.as_str());
        out.append("\n```\n\n");
        i = i + 1;
    }
    proof {
        assert(context_files@.take(i as int) =~= context_files@);
    }
    out.append(prompt.as_str());
    out
}

/// The fixed default system prompt, used when the caller sets no
/// override: it instructs the model to emit code only.
pub fn default_system_prompt() -> (r: String)
    ensures
        r@
            == "You are a code generation assistant. Respond ONLY with code. Do not include explanations, comments about the code, or markdown formatting unless the code itself requires comments. Output valid, compilable code."@,
{
    "You are a code generation assistant. Respond ONLY with code. Do not include explanations, comments about the code, or markdown formatting unless the code itself requires comments. Output valid, compilable code.".to_owned()
}

/// The system prompt a request uses: the caller's override if set, else
/// the default.
pub fn effective_system_prompt(system_prompt: &Option<String>) -> (r: String)
    ensures
        match system_prompt {
            Some(s) => r@ == s@,
            None => r@
                == "You are a code generation assistant. Respond ONLY with code. Do not include explanations, comments about the code, or markdown formatting unless the code itself requires comments. Output valid, compilable code."@,
        },
{
    match system_prompt {
        Some(s) => clone_str(s),
        None => default_system_prompt(),
    }
}

/// Assembles a provider's response: extracts the code from the content,
/// totals the token counts, and prices the generation.
pub fn build_generate_response(
    kind: ProviderKind,
    content: String,
    model: String,
    prompt_tokens: u32,
    completion_tokens: u32,
    latency_ms: u64,
) -> (r: GenerateResponse)
    ensures
        r.content@ == content@,
        r.extracted_code@ == spec_extract(content@),
        r.model@ == model@,
        r.token_usage.prompt_tokens == prompt_tokens,
        r.token_usage.completion_tokens == completion_tokens,
        r.token_usage.total_tokens == if prompt_tokens + completion_tokens > u32::MAX {
            u32::MAX as int
        } else {
            prompt_tokens + completion_tokens
        },
        r.token_usage.estimated_cost_microusd == spec_cost_microusd(
            kind,
            prompt_tokens,
            completion_tokens,
        ),
        r.latency_ms == latency_ms,
{
    let extracted_code = extract_code_from_markdown(content.as_str());
    let total64: u64 = prompt_tokens as u64 + completion_tokens as u64;
    let total_tokens: u32 = if total64 > u32::MAX as u64 {
        u32::MAX
    } else {
        total64 as u32
    };
    let estimated_cost_microusd = estimate_cost_microusd(kind, prompt_tokens, completion_tokens);
    GenerateResponse {
        content,
        extracted_code,
        model,
        token_usage: TokenUsage {
            prompt_tokens,
            completion_tokens,
            total_tokens,
            estimated_cost_microusd,
        },
        latency_ms,
    }
}

/// Does `needle` occur in `hay`?
pub open spec fn spec_contains_sub(hay: Seq<char>, needle: Seq<char>) -> bool {
    exists|i: int|
        0 <= i <= hay.len() - needle.len() && #[trigger] hay.subrange(i, i + needle.len())
            == needle
}

/// Substring search.
pub fn contains_sub(hay: &Vec<char>, needle: &Vec<char>) -> (r: bool)
    ensures
        r == spec_contains_sub(hay@, needle@),
{
    if needle.len() > hay.len() {
        return false;
    }
    if needle.len() == 0 {
        proof {
            assert(hay@.subrange(0, 0 + needle@.len() as int) =~= needle@);
        }
        return true;
    }
    let n = hay.len();
    let mut i: usize = 0;
    while i <= n - needle.len()
        invariant
            n == hay@.len(),
            1 <= needle@.len() <= hay@.len(),
            i <= hay@.len() - needle@.len() + 1,
            forall|m: int|
                0 <= m < i ==> #[trigger] hay@.subrange(m, m + needle@.len()) != needle@,
        decreases hay@.len() - needle@.len() - i + 1,
    {
        let mut j: usize = 0;
        let mut ok = true;
        while j < needle.len()
            invariant
                n == hay@.len(),
                i + needle@.len() <= hay@.len(),
                j <= needle@.len(),
                ok ==> forall|m: int| 0 <= m < j ==> hay@[i + m] == needle@[m],
                !ok ==> hay@.subrange(i as int, i + needle@.len()) != needle@,
            decreases needle@.len() - j,
        {
            if hay[i + j] != needle[j] {
                proof {
                    assert(hay@.subrange(i as int, i + needle@.len())[j as int] != needle@[
                        j as int
                    ]);
                }
                ok = false;
                j = needle.len();
            } else {
                j = j + 1;
            }
        }
        if ok {
            proof {
                assert(hay@.subrange(i as int, i + needle@.len()) =~= needle@);
            }
            return true;
        }
        i = i + 1;
    }
    false
}

/// The configured reply of the in-memory test double: the response of
/// the first mapping whose key occurs in the prompt, else the default.
pub open spec fn spec_mock_response(
    responses: Seq<(Seq<char>, Seq<char>)>,
    prompt: Seq<char>,
    default: Seq<char>,
) -> Seq<char>
    decreases responses.len(),
{
    if responses.len() == 0 {
        default
    } else if spec_contains_sub(prompt, responses[0].0) {
        responses[0].1
    } else {
        spec_mock_response(responses.drop_first(), prompt, default)
    }
}

/// Picks the test double's reply for a prompt.
pub fn mock_response_for(responses: &Vec<(String, String)>, prompt: &String, default: &String) -> (r:
    String)
    ensures
        r@ == spec_mock_response(
            responses@.map_values(|q: (String, String)| (q.0@, q.1@)),
            prompt@,
            default@,
        ),
{
    let ghost rv = responses@.map_values(|q: (String, String)| (q.0@, q.1@));
    let pv = crate::text::chars_of(prompt.as_str());
    let mut i: usize = 0;
    proof {
        assert(rv.skip(0) =~= rv);
    }
    while i < responses.len()
        invariant
            i <= responses@.len(),
            pv@ == prompt@,
            rv == responses@.map_values(|q: (String, String)| (q.0@, q.1@)),
            spec_mock_response(rv, prompt@, default@) == spec_mock_response(
                rv.skip(i as int),
                prompt@,
                default@,
            ),
        decreases responses@.len() - i,
    {
        proof {
            assert(rv[i as int] == (responses@[i as int].0@, responses@[i as int].1@));
            assert(rv.skip(i as int)[0] == rv[i as int]);
            assert(rv.skip(i as int).drop_first() =~= rv.skip(i as int + 1));
        }
        let key = crate::text::chars_of(responses[i].0.as_str());
        if contains_sub(&pv, &key) {
            return clone_str(&responses[i].1);
        }
        i = i + 1;
    }
    proof {
        assert(rv.skip(i as int) =~= Seq::<(Seq<char>, Seq<char>)>::empty());
    }
    clone_str(default)
}

/// The hosted chat models of the Anthropic backend, with their context
/// windows and per-1K prices in millionths of a dollar.
pub fn anthropic_models() -> (r: Vec<ModelInfo>)
    ensures
        r@.len() == 2,
        r@[0].id@ == "sonnet-4"@,
        r@[0].max_context == 200_000,
        r@[0].cost_per_1k_input_microusd == 3000,
        r@[0].cost_per_1k_output_microusd == 15000,
        r@[1].id@ == "haiku-4.5"@,
        r@[1].max_context == 200_000,
        r@[1].cost_per_1k_input_microusd == 800,
        r@[1].cost_per_1k_output_microusd == 4000,
{
    let mut v: Vec<ModelInfo> = Vec::new();
    v.push(
        ModelInfo {
            id: "sonnet-4".to_owned(),
            name: "Sonnet 4".to_owned(),
            provider: "anthropic".to_owned(),
            max_context: 200_000,
            cost_per_1k_input_microusd: 3000,
            cost_per_1k_output_microusd: 15000,
        },
    );
    v.push(
        ModelInfo {
            id: "haiku-4.5".to_owned(),
            name: "Haiku 4.5".to_owned(),
            provider: "anthropic".to_owned(),
            max_context: 200_000,
            cost_per_1k_input_microusd: 800,
            cost_per_1k_output_microusd: 4000,
        },
    );
    v
}

/// The hosted chat models of the OpenAI backend, with their context
/// windows and per-1K prices in millionths of a dollar.
pub fn openai_models() -> (r: Vec<ModelInfo>)
    ensures
        r@.len() == 3,
        r@[0].id@ == "gpt-4.1"@,
        r@[1].id@ == "gpt-4.1-mini"@,
        r@[2].id@ == "gpt-4.1-nano"@,
        forall|i: int| 0 <= i < 3 ==> (#[trigger] r@[i]).max_context == 1_000_000,
{
    let mut v: Vec<ModelInfo> = Vec::new();
    v.push(
        ModelInfo {
            id: "gpt-4.1".to_owned(),
            name: "GPT-4.1".to_owned(),
            provider: "openai".to_owned(),
            max_context: 1_000_000,
            cost_per_1k_input_microusd: 2000,
            cost_per_1k_output_microusd: 8000,
        },
    );
    v.push(
        ModelInfo {
            id: "gpt-4.1-mini".to_owned(),
            name: "GPT-4.1 Mini".to_owned(),
            provider: "openai".to_owned(),
            max_context: 1_000_000,
            cost_per_1k_input_microusd: 400,
            cost_per_1k_output_microusd: 1600,
        },
    );
    v.push(
        ModelInfo {
            id: "gpt-4.1-nano".to_owned(),
            name: "GPT-4.1 Nano".to_owned(),
            provider: "openai".to_owned(),
            max_context: 1_000_000,
            cost_per_1k_input_microusd: 100,
            cost_per_1k_output_microusd: 400,
        },
    );
    v
}

} // verus!
