use crawl_stats::failure::Failure;
use crawl_stats::normalize::{
    code_from_piece, code_of, code_under, is_head_of, normalize, NormalizeError,
};
use crawl_stats::text::{chars_of, decimal_text, lower, trim};

fn chain(messages: &[&str]) -> Failure {
    let mut failure = Failure::new(messages[messages.len() - 1].to_string());
    for message in messages[..messages.len() - 1].iter().rev() {
        failure = Failure::caused_by(message.to_string(), failure);
    }
    failure
}

#[test]
fn text_before_a_parenthesis_is_the_code() {
    let failure = Failure::new("connection refused (os error 111)".to_string());
    assert_eq!(normalize(&failure).unwrap(), "connection refused");
}

#[test]
fn innermost_of_three_causes_gives_the_code() {
    let failure = chain(&[
        "error sending request for url (http://host.test/)",
        "client error (Connect)",
        "timed out: deadline exceeded",
    ]);
    assert_eq!(normalize(&failure).unwrap(), "timed out");
}

#[test]
fn same_root_message_gives_same_code() {
    let plain = chain(&["Operation Timed Out: after 5s"]);
    let wrapped = chain(&["outer (a)", "middle: b", "Operation Timed Out: after 5s"]);
    let again = chain(&["something else", "Operation Timed Out: after 5s"]);
    let code = normalize(&plain).unwrap();
    assert_eq!(code, "operation timed out");
    assert_eq!(normalize(&wrapped).unwrap(), code);
    assert_eq!(normalize(&again).unwrap(), code);
    assert_eq!(normalize(&plain).unwrap(), code);
}

#[test]
fn message_without_delimiter_is_kept_whole() {
    assert_eq!(code_of("  Connection Reset By Peer \t").unwrap(), "connection reset by peer");
}

#[test]
fn empty_message_gives_empty_code() {
    assert_eq!(code_of("").unwrap(), "");
    assert_eq!(normalize(&Failure::new(String::new())).unwrap(), "");
}

#[test]
fn message_that_starts_with_a_delimiter_gives_empty_code() {
    assert_eq!(code_of(": no such host").unwrap(), "");
    assert_eq!(code_of("(os error 2)").unwrap(), "");
    assert_eq!(code_of("   : x").unwrap(), "");
}

#[test]
fn first_delimiter_of_either_kind_cuts_the_message() {
    assert_eq!(code_of("dns error (lookup): failed").unwrap(), "dns error");
    assert_eq!(code_of("dns error: failed (lookup)").unwrap(), "dns error");
    assert_eq!(code_of("TLS handshake failed:cert (expired)").unwrap(), "tls handshake failed");
}

#[test]
fn other_punctuation_does_not_cut_the_message() {
    assert_eq!(code_of("a) b; c, d | e").unwrap(), "a) b; c, d | e");
}

#[test]
fn piece_is_trimmed_and_lowered() {
    assert_eq!(code_from_piece(Some("  Broken Pipe "), "  Broken Pipe (os error 32)").unwrap(), "broken pipe");
    assert_eq!(code_from_piece(Some(""), ": x").unwrap(), "");
    assert_eq!(code_from_piece(Some(" \n\t "), " \n\t :").unwrap(), "");
    assert_eq!(code_from_piece(None, "").unwrap(), "");
    assert_eq!(code_from_piece(None, "(x").unwrap(), "");
}

#[test]
fn piece_that_is_not_the_head_is_refused() {
    assert_eq!(code_from_piece(Some("timed"), "timed out: x"), Err(NormalizeError::SplitDisagrees));
    assert_eq!(code_from_piece(Some("timed out: x"), "timed out: x"), Err(NormalizeError::SplitDisagrees));
    assert_eq!(code_from_piece(Some("Timed out"), "timed out: x"), Err(NormalizeError::SplitDisagrees));
    assert_eq!(code_from_piece(Some("timed out "), "timed out"), Err(NormalizeError::SplitDisagrees));
    assert_eq!(code_from_piece(None, "timed out"), Err(NormalizeError::SplitDisagrees));
}

#[test]
fn head_is_the_part_before_the_first_delimiter() {
    assert!(is_head_of("connection refused ", "connection refused (os error 111)"));
    assert!(is_head_of("a", "a:b(c"));
    assert!(is_head_of("a", "a(b:c"));
    assert!(is_head_of("", ""));
    assert!(is_head_of("", ":"));
    assert!(is_head_of("no delimiter", "no delimiter"));
    assert!(!is_head_of("a:b", "a:b(c"));
    assert!(!is_head_of("", "a"));
    assert!(!is_head_of("b", "a"));
    assert!(!is_head_of("ab", "a"));
}

#[test]
fn pattern_that_is_no_regular_expression_is_refused() {
    assert_eq!(code_under("(", "timed out: x"), Err(NormalizeError::PatternRefused));
    assert_eq!(code_under("[", ""), Err(NormalizeError::PatternRefused));
}

#[test]
fn pattern_that_cuts_elsewhere_is_refused() {
    assert_eq!(code_under("x", "a x b: c"), Err(NormalizeError::SplitDisagrees));
    assert_eq!(code_under(":", "a (b): c"), Err(NormalizeError::SplitDisagrees));
    assert_eq!(code_under(":", "A : c").unwrap(), "a");
    assert_eq!(code_under("[:(]", "A (b): c").unwrap(), "a");
}

#[test]
fn trim_takes_off_unicode_white_space_only_at_the_ends() {
    assert_eq!(trim("\u{3000} a  b\u{a0}\n"), "a  b");
    assert_eq!(trim("x"), "x");
    assert_eq!(trim(""), "");
    assert_eq!(trim("   "), "");
    assert_eq!(trim("_ _"), "_ _");
}

#[test]
fn lower_follows_unicode() {
    assert_eq!(lower("ÄRGER Und Ωmega"), "ärger und ωmega");
    assert_eq!(lower("already lower 123"), "already lower 123");
    assert_eq!(lower(""), "");
}

#[test]
fn chars_of_lists_every_character() {
    assert_eq!(chars_of("aé\u{3000}z"), vec!['a', 'é', '\u{3000}', 'z']);
    assert_eq!(chars_of(""), Vec::<char>::new());
}

#[test]
fn decimal_text_writes_numbers() {
    assert_eq!(decimal_text(0), "0");
    assert_eq!(decimal_text(7), "7");
    assert_eq!(decimal_text(10), "10");
    assert_eq!(decimal_text(404), "404");
    assert_eq!(decimal_text(1234567890), "1234567890");
    assert_eq!(decimal_text(u64::MAX), "18446744073709551615");
}

#[test]
fn root_is_the_innermost_failure() {
    let failure = chain(&["a", "b", "c"]);
    assert_eq!(failure.root().message, "c");
    assert!(failure.root().cause().is_none());
    assert_eq!(failure.cause().unwrap().message, "b");
    let single = Failure::new("only".to_string());
    assert_eq!(single.root().message, "only");
    assert!(single.cause().is_none());
}
