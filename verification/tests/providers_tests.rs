//! Tests for the provider abstraction: status classification, prices,
//! prompt assembly, response assembly, and the test double's matching.

use forgetest::errors::ProviderError;
use forgetest::model::ContextFile;
use forgetest::providers::{
    anthropic_models, assemble_user_message, build_generate_response, classify_status,
    default_system_prompt, effective_system_prompt, estimate_cost_microusd, mock_response_for,
    openai_models, ProviderKind,
};

#[test]
fn status_429_is_a_rate_limit_with_the_header_hint() {
    let e = classify_status(
        ProviderKind::Anthropic,
        429,
        Some(5),
        &"m".to_string(),
        &"busy".to_string(),
    );
    match e {
        Some(ProviderError::RateLimited { retry_after_ms }) => assert_eq!(retry_after_ms, 5000),
        other => panic!("expected a rate limit, got {other:?}"),
    }
    // Without the header, the default is on the order of seconds.
    let e = classify_status(ProviderKind::OpenAi, 429, None, &"m".to_string(), &"".to_string());
    match e {
        Some(ProviderError::RateLimited { retry_after_ms }) => assert_eq!(retry_after_ms, 5000),
        other => panic!("expected a rate limit, got {other:?}"),
    }
}

#[test]
fn status_401_is_permanent_authentication_failure() {
    let e = classify_status(
        ProviderKind::Anthropic,
        401,
        None,
        &"m".to_string(),
        &"unauthorized".to_string(),
    );
    match e {
        Some(ProviderError::AuthenticationFailed(b)) => {
            assert_eq!(b, "unauthorized");
        },
        other => panic!("expected an authentication failure, got {other:?}"),
    }
}

#[test]
fn status_404_is_model_not_found_where_supported() {
    let e = classify_status(ProviderKind::Anthropic, 404, None, &"m-x".to_string(), &"".to_string());
    match e {
        Some(ProviderError::ModelNotFound(m)) => assert_eq!(m, "m-x"),
        other => panic!("expected model-not-found, got {other:?}"),
    }
    let e = classify_status(ProviderKind::Ollama, 404, None, &"m-y".to_string(), &"".to_string());
    match e {
        Some(ProviderError::ModelNotFound(m)) => assert_eq!(m, "m-y"),
        other => panic!("expected model-not-found, got {other:?}"),
    }
    // The OpenAI backend folds 404 into a generic API error.
    let e = classify_status(ProviderKind::OpenAi, 404, None, &"m".to_string(), &"gone".to_string());
    match e {
        Some(ProviderError::ApiError { status, message }) => {
            assert_eq!(status, 404);
            assert_eq!(message, "gone");
        },
        other => panic!("expected an API error, got {other:?}"),
    }
}

#[test]
fn other_client_and_server_errors_are_api_errors() {
    let e = classify_status(ProviderKind::OpenAi, 500, None, &"m".to_string(), &"boom".to_string());
    match e {
        Some(ProviderError::ApiError { status, message }) => {
            assert_eq!(status, 500);
            assert_eq!(message, "boom");
        },
        other => panic!("expected an API error, got {other:?}"),
    }
    assert!(classify_status(ProviderKind::Anthropic, 200, None, &"m".to_string(), &"".to_string())
        .is_none());
}

#[test]
fn published_prices_are_exact_in_microdollars() {
    assert_eq!(estimate_cost_microusd(ProviderKind::Anthropic, 50, 20), 50 * 3 + 20 * 15);
    assert_eq!(estimate_cost_microusd(ProviderKind::OpenAi, 40, 15), 40 * 2 + 15 * 8);
    assert_eq!(estimate_cost_microusd(ProviderKind::Ollama, 1000, 1000), 0);
}

#[test]
fn user_message_prepends_context_files() {
    let files = vec![ContextFile {
        path: "src/lib.rs".into(),
        content: "pub fn f() {}".into(),
    }];
    let msg = assemble_user_message(&files, &"Do the thing".to_string());
    assert_eq!(
        msg,
        "File `src/lib.rs`:\n```\npub fn f() {}\n```\n\nDo the thing"
    );
    let bare = assemble_user_message(&vec![], &"Just this".to_string());
    assert_eq!(bare, "Just this");
}

#[test]
fn system_prompt_override_wins() {
    let over = Some("Be terse.".to_string());
    assert_eq!(effective_system_prompt(&over), "Be terse.");
    assert_eq!(effective_system_prompt(&None), default_system_prompt());
    assert!(default_system_prompt().contains("Respond ONLY with code"));
}

#[test]
fn response_assembly_extracts_and_prices() {
    let content = "```rust\nfn add(a: i32, b: i32) -> i32 { a + b }\n```".to_string();
    let r = build_generate_response(ProviderKind::Anthropic, content, "m".to_string(), 50, 20, 12);
    assert_eq!(r.extracted_code, "fn add(a: i32, b: i32) -> i32 { a + b }");
    assert_eq!(r.token_usage.prompt_tokens, 50);
    assert_eq!(r.token_usage.completion_tokens, 20);
    assert_eq!(r.token_usage.total_tokens, 70);
    assert_eq!(r.token_usage.estimated_cost_microusd, 450);
    assert_eq!(r.latency_ms, 12);
}

#[test]
fn mock_matching_picks_the_first_matching_key() {
    let responses = vec![
        ("fibonacci".to_string(), "fn fibonacci(n: u64) -> u64 { 0 }".to_string()),
        ("add".to_string(), "fn add(a: i32, b: i32) -> i32 { a + b }".to_string()),
    ];
    let fib = mock_response_for(
        &responses,
        &"Write a fibonacci function".to_string(),
        &"fn placeholder() {}".to_string(),
    );
    assert!(fib.contains("fibonacci"));
    let add = mock_response_for(
        &responses,
        &"Write an add function".to_string(),
        &"fn placeholder() {}".to_string(),
    );
    assert!(add.contains("fn add"));
    let fallback = mock_response_for(
        &responses,
        &"something else".to_string(),
        &"fn placeholder() {}".to_string(),
    );
    assert_eq!(fallback, "fn placeholder() {}");
}

#[test]
fn model_catalogues_list_the_hosted_models() {
    let a = anthropic_models();
    assert_eq!(a.len(), 2);
    assert_eq!(a[0].id, "sonnet-4");
    assert_eq!(a[0].cost_per_1k_input_microusd, 3000);
    assert_eq!(a[0].cost_per_1k_output_microusd, 15000);
    let o = openai_models();
    assert_eq!(o.len(), 3);
    assert_eq!(o[0].id, "gpt-4.1");
}
