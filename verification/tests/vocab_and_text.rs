//! Vocabulary parsing, detokenization, and hostname normalization.

use stt_core::detok::detokenize;
use stt_core::errors::ParseError;
use stt_core::hostname::normalize_hostname_for_url;
use stt_core::vocab::Vocabulary;

fn parse(table: &str) -> Result<Vocabulary, ParseError> {
    Vocabulary::parse(&table.as_bytes().to_vec())
}

#[test]
fn empty_table_parses_to_the_empty_vocabulary() {
    let v = parse("").expect("empty table parses");
    assert_eq!(v.vocab_size(), 0);
    assert_eq!(v.blank_id, 0);
}

#[test]
fn blank_entry_sets_the_blank_id() {
    let v = parse("a 5\n<blk> 1024\nb 7\n").expect("table parses");
    assert_eq!(v.blank_id, 1024);
    assert_eq!(v.vocab_size(), 3);
}

#[test]
fn table_without_blank_keeps_blank_id_zero() {
    let v = parse("a 5\nb 7\n").expect("table parses");
    assert_eq!(v.blank_id, 0);
}

#[test]
fn marker_codepoint_becomes_a_space() {
    let v = parse("\u{2581}hello 3\n").expect("table parses");
    let text = v.get_token(3).expect("id 3 is present");
    assert_eq!(text, &b" hello".to_vec());
}

#[test]
fn marker_in_the_middle_is_rewritten_too() {
    let v = parse("a\u{2581}b 1\n").expect("table parses");
    assert_eq!(v.get_token(1).unwrap(), &b"a b".to_vec());
}

#[test]
fn blank_lines_and_surrounding_whitespace_are_tolerated() {
    let v = parse("\n  a 1  \n\n\tb 2\n\n").expect("table parses");
    assert_eq!(v.vocab_size(), 2);
    assert_eq!(v.get_token(1).unwrap(), &b"a".to_vec());
    assert_eq!(v.get_token(2).unwrap(), &b"b".to_vec());
}

#[test]
fn later_row_with_same_id_overwrites() {
    let v = parse("a 1\nb 1\n").expect("table parses");
    assert_eq!(v.vocab_size(), 1);
    assert_eq!(v.get_token(1).unwrap(), &b"b".to_vec());
}

#[test]
fn negative_ids_parse() {
    let v = parse("a -3\n").expect("table parses");
    assert_eq!(v.get_token(-3).unwrap(), &b"a".to_vec());
}

#[test]
fn one_column_line_is_malformed() {
    assert_eq!(parse("justatoken\n").unwrap_err(), ParseError::MalformedLine);
}

#[test]
fn non_integer_id_is_invalid() {
    assert_eq!(parse("a x7\n").unwrap_err(), ParseError::InvalidId);
}

#[test]
fn overflowing_id_is_invalid() {
    assert_eq!(parse("a 99999999999999999999\n").unwrap_err(), ParseError::InvalidId);
}

#[test]
fn double_space_makes_an_empty_id_column() {
    assert_eq!(parse("a  1\n").unwrap_err(), ParseError::InvalidId);
}

#[test]
fn first_bad_row_wins() {
    assert_eq!(parse("solo\nb x\n").unwrap_err(), ParseError::MalformedLine);
}

#[test]
fn extreme_ids_fit() {
    let v = parse("a 9223372036854775807\nb -9223372036854775808\n").expect("table parses");
    assert_eq!(v.get_token(i64::MAX).unwrap(), &b"a".to_vec());
    assert_eq!(v.get_token(i64::MIN).unwrap(), &b"b".to_vec());
}

#[test]
fn missing_id_looks_up_nothing() {
    let v = parse("a 1\n").expect("table parses");
    assert!(v.get_token(2).is_none());
}

#[test]
fn detokenizer_joins_trims_and_collapses() {
    let v = parse("\u{2581}hello 1\n\u{2581}world 2\nx 3\n").expect("table parses");
    // " hello" + " world" -> trimmed and single-spaced.
    assert_eq!(detokenize(&v, &vec![1, 2]), b"hello world".to_vec());
    // Unknown ids contribute nothing.
    assert_eq!(detokenize(&v, &vec![1, 99, 2]), b"hello world".to_vec());
    // Adjacent word pieces concatenate without a space.
    assert_eq!(detokenize(&v, &vec![1, 3]), b"hellox".to_vec());
    // No tokens, no text.
    assert_eq!(detokenize(&v, &Vec::new()), Vec::<u8>::new());
}

#[test]
fn detokenizer_collapses_internal_whitespace_runs() {
    let v = parse("a\u{2581} 1\n\u{2581}b 2\n").expect("table parses");
    // "a " + " b" holds a two-space run inside.
    assert_eq!(detokenize(&v, &vec![1, 2]), b"a b".to_vec());
}

#[test]
fn wildcard_ipv4_bind_address_becomes_loopback() {
    assert_eq!(normalize_hostname_for_url("0.0.0.0"), "127.0.0.1");
}

#[test]
fn wildcard_ipv6_bind_address_becomes_bracketed_loopback() {
    assert_eq!(normalize_hostname_for_url("::"), "[::1]");
}

#[test]
fn bare_ipv6_address_gets_brackets() {
    assert_eq!(normalize_hostname_for_url("::1"), "[::1]");
    assert_eq!(normalize_hostname_for_url("fe80::1"), "[fe80::1]");
}

#[test]
fn bracketed_ipv6_address_is_kept() {
    assert_eq!(normalize_hostname_for_url("[fe80::1]"), "[fe80::1]");
}

#[test]
fn ordinary_hostnames_pass_through() {
    assert_eq!(normalize_hostname_for_url("localhost"), "localhost");
    assert_eq!(normalize_hostname_for_url("127.0.0.1"), "127.0.0.1");
    assert_eq!(normalize_hostname_for_url(""), "");
}
