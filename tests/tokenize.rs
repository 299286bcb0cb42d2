use url_handler::tokenize::{is_whitespace, split_args};

#[test]
fn split_args_basic() {
    assert_eq!(split_args("test arg"), vec!["test", "arg"]);
    assert_eq!(split_args(r#"test "arg""#), vec!["test", "\"arg\""]);
    assert_eq!(split_args(r#"test "arg 1 2""#), vec!["test", "\"arg 1 2\""]);
    assert_eq!(split_args(r#"test 'arg'"#), vec!["test", "\'arg\'"]);
    assert_eq!(split_args(r#"test 'arg 1 2'"#), vec!["test", "\'arg 1 2\'"]);
}

#[test]
fn split_args_real_world() {
    assert_eq!(
        split_args(r#"cargo run --bin url-handler -- --input="Some input" -f"#),
        vec!["cargo", "run", "--bin", "url-handler", "--", "--input=\"Some input\"", "-f"]
    );
}

#[test]
fn split_args_nested_quotes() {
    assert_eq!(
        split_args(r#"echo "lorem ipsum 'dolor' sit amet""#),
        vec!["echo", "\"lorem ipsum 'dolor' sit amet\""]
    );

    assert_eq!(
        split_args(r#"echo "lorem ipsum ('dolor "doloris" septetur') sit amet""#),
        vec!["echo", "\"lorem ipsum ('dolor \"doloris\" septetur') sit amet\""]
    );
}

#[test]
fn tokenize_empty_and_collapsed_whitespace() {
    assert_eq!(split_args(""), Vec::<String>::new());
    assert_eq!(split_args("a  b"), vec!["a", "b"]);
    assert_eq!(split_args(r#""a b" c"#), vec!["\"a b\"", "c"]);
    assert_eq!(split_args("  \t a \n b  "), vec!["a", "b"]);
    assert_eq!(split_args("   "), Vec::<String>::new());
}

#[test]
fn tokenize_unclosed_quote_takes_rest() {
    assert_eq!(split_args("a 'b c  d"), vec!["a", "'b c  d"]);
}

#[test]
fn tokenize_joined_tokens_round_trip() {
    let tokens = vec!["echo", "\"a b\"", "'c \"d e\" f'", "x=\"1 2\""];
    assert_eq!(split_args(&tokens.join(" ")), tokens);
}

#[test]
fn whitespace_classes() {
    assert!(is_whitespace(' '));
    assert!(is_whitespace('\t'));
    assert!(is_whitespace('\u{3000}'));
    assert!(is_whitespace('\u{a0}'));
    assert!(!is_whitespace('a'));
    assert!(!is_whitespace('\u{200b}'));
    assert_eq!(split_args("a\u{3000}b"), vec!["a", "b"]);
}
