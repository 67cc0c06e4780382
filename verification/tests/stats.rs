//! Tests of token counting and the statistics line.

use rskim_core::tokens::{count_tokens, format_number, TokenStats};

#[test]
fn test_count_tokens() {
    let text = "Hello, world!";
    let count = count_tokens(text).unwrap();
    assert!(count > 0);
    assert!(count < 10);
}

#[test]
fn test_token_stats() {
    let stats = TokenStats::new(1000, 200);
    assert_eq!(stats.tokens_saved(), 800);
    assert!(stats.format().contains("80.0%"));
}

#[test]
fn test_format_number() {
    assert_eq!(format_number(1000), "1,000");
    assert_eq!(format_number(1000000), "1,000,000");
    assert_eq!(format_number(123), "123");
}

#[test]
fn test_stats_format() {
    let stats = TokenStats::new(1000, 200);
    let formatted = stats.format();
    assert!(formatted.contains("1,000"));
    assert!(formatted.contains("200"));
    assert!(formatted.contains("80.0%"));
}

#[test]
fn test_stats_format_exact() {
    let stats = TokenStats::new(1000, 200);
    assert_eq!(stats.format(), "1,000 tokens \u{2192} 200 tokens (80.0% reduction)");
}

#[test]
fn test_stats_format_rounding() {
    // One third saved: 33.3 percent, rounded from 333.3 tenths.
    let stats = TokenStats::new(3, 2);
    assert!(stats.format().contains("33.3%"));
    // Two thirds saved: 666.7 tenths after rounding.
    let stats = TokenStats::new(3, 1);
    assert!(stats.format().contains("66.7%"));
}

#[test]
fn test_stats_format_growth() {
    // A transformation that grew reports a negative reduction.
    let stats = TokenStats::new(100, 150);
    assert!(stats.format().contains("-50.0%"));
    assert_eq!(stats.tokens_saved(), 0);
}

#[test]
fn test_stats_format_zero_original() {
    let stats = TokenStats::new(0, 5);
    assert!(stats.format().contains("0.0%"));
}

#[test]
fn test_count_tokens_compresses() {
    // The tokenizer groups characters: a plain sentence takes fewer
    // tokens than characters.
    let text = "the quick brown fox jumps over the lazy dog";
    let count = count_tokens(text).unwrap();
    assert!(count < text.len());
    assert!(count > 1);
}
