//! Tests for configuration resolution.

use forgetest::config::{
    apply_anthropic_key, resolve_env_vars, resolve_provider_config, ForgetestConfig,
    ProviderConfig,
};

#[test]
fn resolve_env_vars_basic() {
    let env = vec![("_FORGETEST_TEST_VAR".to_string(), "hello".to_string())];
    assert_eq!(resolve_env_vars(&"${_FORGETEST_TEST_VAR}".to_string(), &env), "hello");
    assert_eq!(
        resolve_env_vars(&"prefix_${_FORGETEST_TEST_VAR}_suffix".to_string(), &env),
        "prefix_hello_suffix"
    );
}

#[test]
fn undefined_variables_resolve_to_empty() {
    let env: Vec<(String, String)> = vec![];
    assert_eq!(resolve_env_vars(&"key=${MISSING}!".to_string(), &env), "key=!");
    // An unclosed reference stays as it is.
    assert_eq!(resolve_env_vars(&"broken ${OPEN".to_string(), &env), "broken ${OPEN");
    assert_eq!(resolve_env_vars(&"plain".to_string(), &env), "plain");
}

#[test]
fn default_config() {
    let config = ForgetestConfig::default();
    assert_eq!(config.default_provider, "anthropic");
    assert_eq!(config.parallelism, 4);
    assert_eq!(config.max_retries, 3);
}

#[test]
fn provider_configs_resolve_every_field() {
    let env = vec![("KEY".to_string(), "sk-123".to_string())];
    let resolved = resolve_provider_config(
        &ProviderConfig::Anthropic { api_key: "${KEY}".into(), base_url: None },
        &env,
    );
    match resolved {
        ProviderConfig::Anthropic { api_key, base_url } => {
            assert_eq!(api_key, "sk-123");
            assert!(base_url.is_none());
        },
        other => panic!("variant must be preserved, got {other:?}"),
    }
}

#[test]
fn dedicated_key_updates_or_inserts_the_entry() {
    let mut providers: Vec<(String, ProviderConfig)> = vec![];
    apply_anthropic_key(&mut providers, "sk-new".to_string());
    assert_eq!(providers.len(), 1);
    assert_eq!(providers[0].0, "anthropic");
    match &providers[0].1 {
        ProviderConfig::Anthropic { api_key, base_url } => {
            assert_eq!(api_key, "sk-new");
            assert!(base_url.is_none());
        },
        other => panic!("expected the hosted default provider, got {other:?}"),
    }
    apply_anthropic_key(&mut providers, "sk-next".to_string());
    assert_eq!(providers.len(), 1);
    match &providers[0].1 {
        ProviderConfig::Anthropic { api_key, .. } => assert_eq!(api_key, "sk-next"),
        other => panic!("expected the hosted default provider, got {other:?}"),
    }
}
