//! Tests for the code extractor.

use forgetest::extract::extract_code_from_markdown;

#[test]
fn extract_single_rust_block() {
    let input = r#"Here is the code:

```rust
fn add(a: i32, b: i32) -> i32 {
    a + b
}
```

That's it!"#;
    let code = extract_code_from_markdown(input);
    assert_eq!(code, "fn add(a: i32, b: i32) -> i32 {\n    a + b\n}");
}

#[test]
fn extract_multiple_rust_blocks() {
    let input = r#"First part:

```rust
fn add(a: i32, b: i32) -> i32 {
    a + b
}
```

Second part:

```rust
fn sub(a: i32, b: i32) -> i32 {
    a - b
}
```
"#;
    let code = extract_code_from_markdown(input);
    assert!(code.contains("fn add"));
    assert!(code.contains("fn sub"));
}

#[test]
fn extract_no_code_blocks_returns_raw() {
    let input = "fn hello() -> &'static str {\n    \"hello\"\n}";
    let code = extract_code_from_markdown(input);
    assert_eq!(code, input);
}

#[test]
fn extract_generic_block_fallback() {
    let input = "```\nfn generic() {}\n```";
    let code = extract_code_from_markdown(input);
    assert_eq!(code, "fn generic() {}");
}

#[test]
fn extract_prefers_rust_over_generic() {
    let input = r#"```
fn generic() {}
```

```rust
fn specific() {}
```
"#;
    let code = extract_code_from_markdown(input);
    assert_eq!(code, "fn specific() {}");
}

#[test]
fn extract_truncated_unclosed_block() {
    let input = "Here is code:\n\n```rust\nfn truncated() -> i32 {\n    42\n}";
    let code = extract_code_from_markdown(input);
    assert!(
        code.contains("fn truncated"),
        "truncated block should be captured, got: {code}"
    );
}

#[test]
fn extract_ignores_other_languages() {
    let input = r#"```python
def hello():
    pass
```

```rust
fn hello() {}
```
"#;
    let code = extract_code_from_markdown(input);
    assert_eq!(code, "fn hello() {}");
}

#[test]
fn extract_two_blocks_blank_line_separator() {
    let input = "```rust\nfn a() {}\n```\n\n```rust\nfn b() {}\n```\n";
    let code = extract_code_from_markdown(input);
    assert_eq!(code, "fn a() {}\n\nfn b() {}");
}

#[test]
fn extract_case_insensitive_tag() {
    let input = "```Rust\nfn upper() {}\n```";
    let code = extract_code_from_markdown(input);
    assert_eq!(code, "fn upper() {}");
}

#[test]
fn extract_short_tag() {
    let input = "```rs\nfn short() {}\n```";
    let code = extract_code_from_markdown(input);
    assert_eq!(code, "fn short() {}");
}

#[test]
fn extract_untagged_only_without_tagged() {
    let input = "```\nfn generic() {}\n```\n\n```rust\nfn tagged() {}\n```";
    let code = extract_code_from_markdown(input);
    assert_eq!(code, "fn tagged() {}");
    let input2 = "```\nfn one() {}\n```\n\n```\nfn two() {}\n```";
    let code2 = extract_code_from_markdown(input2);
    assert_eq!(code2, "fn one() {}\n\nfn two() {}");
}
