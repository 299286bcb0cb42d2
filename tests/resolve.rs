use url_handler::error::ExpansionError;
use url_handler::handler::{expand, find_handler, resolve, Handler};
use url_handler::parsed_url::{get_args, positional_args, split_text, ParsedUrl};

fn handler(scheme: &str, command: &str, args: Option<&str>) -> Handler {
    Handler { scheme: scheme.to_string(), command: command.to_string(), args: args.map(|a| a.to_string()) }
}

#[test]
fn end_to_end_mailto() {
    let handlers = vec![handler("mailto", "echo", Some("{subject} %1"))];
    let url = ParsedUrl::parse("mailto:someone?subject=Hi").unwrap();
    assert_eq!(positional_args(&url), vec!["someone"]);
    let inv = resolve(&handlers, &url, &vec![]).unwrap();
    assert_eq!(inv.command, "echo");
    assert_eq!(inv.args, vec!["Hi", "someone"]);
}

#[test]
fn trailing_empty_segment_is_dropped() {
    let url = ParsedUrl::parse("app://host/a/b/").unwrap();
    assert_eq!(positional_args(&url), vec!["host", "a", "b"]);
}

#[test]
fn handler_lookup_fails_for_unknown_scheme() {
    let handlers = vec![handler("a", "x", None), handler("b", "y", None)];
    assert!(matches!(find_handler(&handlers, "c"), Err(ExpansionError::HandlerNotFound)));
    let url = ParsedUrl::parse("c://host").unwrap();
    assert!(matches!(resolve(&handlers, &url, &vec![]), Err(ExpansionError::HandlerNotFound)));
}

#[test]
fn handler_lookup_takes_first_match() {
    let handlers = vec![handler("a", "x", None), handler("b", "y", None), handler("b", "z", None)];
    assert_eq!(find_handler(&handlers, "b").unwrap().command, "y");
    assert_eq!(find_handler(&handlers, "a").unwrap().command, "x");
    assert!(find_handler(&vec![], "a").is_err());
}

#[test]
fn malformed_url_is_reported() {
    assert!(matches!(ParsedUrl::parse("not a url"), Err(ExpansionError::MalformedUrl)));
    assert!(matches!(ParsedUrl::parse(""), Err(ExpansionError::MalformedUrl)));
}

#[test]
fn parse_reads_url_parts() {
    let url = ParsedUrl::parse("HTTP://Example.com/a%20b/c?x=1+2&y=%41").unwrap();
    assert_eq!(url.scheme, "http");
    assert_eq!(url.host.as_deref(), Some("example.com"));
    assert!(!url.cannot_be_a_base);
    assert_eq!(url.path, "/a%20b/c");
    assert_eq!(url.query, vec![("x".to_string(), "1 2".to_string()), ("y".to_string(), "A".to_string())]);
    let opaque = ParsedUrl::parse("mailto:someone@example.com").unwrap();
    assert!(opaque.cannot_be_a_base);
    assert_eq!(opaque.host, None);
    assert_eq!(opaque.path, "someone@example.com");
}

#[test]
fn leading_args_by_url_kind() {
    let opaque = ParsedUrl::parse("mailto:someone").unwrap();
    assert_eq!(get_args(&opaque), vec!["", "someone"]);
    assert_eq!(positional_args(&opaque), vec!["someone"]);
    let hier = ParsedUrl::parse("app://host/a").unwrap();
    assert_eq!(get_args(&hier), vec!["host"]);
    let no_host = ParsedUrl::parse("app:///first/second").unwrap();
    assert_eq!(positional_args(&no_host), vec!["first", "second"]);
    let bare = ParsedUrl::parse("x://?a=1").unwrap();
    assert_eq!(positional_args(&bare), Vec::<String>::new());
}

#[test]
fn split_text_pieces() {
    assert_eq!(split_text("a/b//c/", '/'), vec!["a", "b", "", "c", ""]);
    assert_eq!(split_text("", '/'), vec![""]);
}

#[test]
fn expand_reports_missing_variable_in_args_then_command() {
    let url = ParsedUrl::parse("x://h?k=v").unwrap();
    let env = vec![("USER".to_string(), "me".to_string())];
    let h = handler("x", "%TOOL%", Some("%USER% {k} %1"));
    assert_eq!(
        expand(&h, &url, &env).err(),
        Some(ExpansionError::EnvironmentVariableMissing("TOOL".to_string()))
    );
    let h2 = handler("x", "%TOOL%", Some("%NAME%"));
    assert_eq!(
        expand(&h2, &url, &env).err(),
        Some(ExpansionError::EnvironmentVariableMissing("NAME".to_string()))
    );
    let env3 = vec![("USER".to_string(), "me".to_string()), ("TOOL".to_string(), "run".to_string())];
    let inv = expand(&h, &url, &env3).unwrap();
    assert_eq!(inv.command, "run");
    assert_eq!(inv.args, vec!["me", "v", "h"]);
}

#[test]
fn expand_without_args_template() {
    let url = ParsedUrl::parse("x://h").unwrap();
    let inv = expand(&handler("x", "cmd", None), &url, &vec![]).unwrap();
    assert_eq!(inv.command, "cmd");
    assert!(inv.args.is_empty());
}
