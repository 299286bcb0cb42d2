use url_handler::env::expand_env;
use url_handler::error::ExpansionError;
use url_handler::expand::{decimal_chars, expand_args, expand_named};
use url_handler::parsed_url::ParsedUrl;

fn url(s: &str) -> ParsedUrl {
    ParsedUrl::parse(s).unwrap()
}

fn env_of(pairs: &[(&str, &str)]) -> Vec<(String, String)> {
    pairs.iter().map(|(k, v)| (k.to_string(), v.to_string())).collect()
}

#[test]
fn expand_env_basic() {
    let env = env_of(&[("1", "1"), ("2", "2"), ("3", "3")]);
    assert_eq!(expand_env("test %1%", &env).unwrap(), String::from("test 1"));
    assert_eq!(expand_env("test %1% %3% %2%", &env).unwrap(), String::from("test 1 3 2"));
    assert_eq!(expand_env("test %3% %2% %1%", &env).unwrap(), String::from("test 3 2 1"));
    assert_eq!(expand_env("repeat %1% %2% %1%", &env).unwrap(), String::from("repeat 1 2 1"));
    assert_eq!(expand_env("concat %1%%1%%1% %2%x", &env).unwrap(), String::from("concat 111 2x"));
}

#[test]
fn expand_named_basic() {
    assert_eq!(expand_named("test {arg}", &url("x://?arg=replaced")), String::from("test replaced"));
    assert_eq!(expand_named("test {1} {3} {2}", &url("x://?1=1&2=2&3=3")), String::from("test 1 3 2"));
    assert_eq!(expand_named("test {3} {2} {1}", &url("x://?2=2&1=1&3=3")), String::from("test 3 2 1"));
    assert_eq!(expand_named("repeat {1} {2} {1}", &url("x://?1=1&2=2")), String::from("repeat 1 2 1"));
    assert_eq!(expand_named("concat {1}{1}{1} {2}x", &url("x://?1=1&2=2")), String::from("concat 111 2x"));
    assert_eq!(expand_named("missing {1} {2} {3}", &url("x://?1=1&2=2")), String::from("missing 1 2 {3}"));
    assert_eq!(expand_named("extra {1} {3}", &url("x://?1=1&2=2&3=3")), String::from("extra 1 3"));
}

#[test]
fn expand_named_real_world() {
    assert_eq!(
        expand_named(
            r#"cargo run --bin {app} -- --input="{input}" -f"#,
            &url("x://?app=url-handler&input=Some%20input")
        ),
        String::from(r#"cargo run --bin url-handler -- --input="Some input" -f"#)
    );
}

#[test]
fn expand_named_quoted() {
    assert_eq!(
        expand_named(r#"{cmd} "lorem ipsum "{msg}" sit amet""#, &url("x://?cmd=echo&msg='dolor'")),
        String::from(r#"echo "lorem ipsum "'dolor'" sit amet""#)
    );
}

#[test]
fn expand_args_basic() {
    assert_eq!(expand_args("test %1", &["arg"]), String::from("test arg"));
    assert_eq!(expand_args("test %1 %3 %2", &["1", "2", "3"]), String::from("test 1 3 2"));
    assert_eq!(expand_args("test %3 %2 %1", &["1", "2", "3"]), String::from("test 3 2 1"));
    assert_eq!(expand_args("repeat %1 %2 %1", &["1", "2"]), String::from("repeat 1 2 1"));
    assert_eq!(expand_args("concat %1%1%1 %2x", &["1", "2"]), String::from("concat 111 2x"));
    assert_eq!(expand_args("missing %1 %2 %3", &["1", "2"]), String::from("missing 1 2 %3"));
    assert_eq!(expand_args("extra %1 %3", &["1", "2", "3"]), String::from("extra 1 3"));
}

#[test]
fn expand_args_real_world() {
    assert_eq!(
        expand_args(r#"cargo run --bin %1 -- --input="%2" -f"#, &["url-handler", "Some input"]),
        String::from(r#"cargo run --bin url-handler -- --input="Some input" -f"#)
    );
}

#[test]
fn expand_args_nested_quotes() {
    assert_eq!(
        expand_args(r#"%2 "lorem ipsum '%1' sit amet""#, &["dolor", "echo"]),
        String::from(r#"echo "lorem ipsum 'dolor' sit amet""#)
    );

    assert_eq!(
        expand_args(r#"%1 "lorem ipsum ('%2 "%2is" %3') sit amet""#, &["echo", "dolor", "septetur"]),
        String::from(r#"echo "lorem ipsum ('dolor "doloris" septetur') sit amet""#)
    );
}

#[test]
fn named_placeholder_alone_gives_value() {
    let u = url("x://?k=some%20value&other=2");
    assert_eq!(expand_named("{k}", &u), "some value");
    assert_eq!(expand_named("{other}", &u), "2");
    assert_eq!(expand_named("{missing}", &u), "{missing}");
}

#[test]
fn named_later_pair_wins() {
    assert_eq!(expand_named("{k}", &url("x://?k=first&k=second")), "second");
}

#[test]
fn named_value_is_not_rescanned() {
    assert_eq!(expand_named("{a} {b}", &url("x://?a=%7Bb%7D&b=x")), "{b} x");
}

#[test]
fn named_empty_query_leaves_text() {
    assert_eq!(expand_named("{a} b", &url("x://host/")), "{a} b");
    assert_eq!(expand_named("", &url("x://?a=1")), "");
}

#[test]
fn positional_placeholder_alone_gives_argument() {
    let argv = ["a", "b", "c"];
    assert_eq!(expand_args("%1", &argv), "a");
    assert_eq!(expand_args("%2", &argv), "b");
    assert_eq!(expand_args("%3", &argv), "c");
    assert_eq!(expand_args("%4", &argv), "%4");
}

#[test]
fn positional_two_digit_index() {
    let argv = ["1", "2", "3", "4", "5", "6", "7", "8", "9", "ten", "eleven"];
    assert_eq!(expand_args("%10 %11 %1", &argv), "ten eleven 1");
    assert_eq!(expand_args("%12", &argv), "%12");
    let five = ["one", "two", "three", "four", "five"];
    assert_eq!(expand_args("%12", &five), "%12");
    assert_eq!(expand_args("%1x %01 %5%1", &five), "onex %01 fiveone");
    assert_eq!(expand_args("%12", &["a"]), "%12");
}

#[test]
fn positional_value_is_not_rescanned() {
    assert_eq!(expand_args("%1 %2", &["%2", "x"]), "%2 x");
    assert_eq!(expand_args("%1", &[]), "%1");
    assert_eq!(expand_args("%0 %", &["a"]), "%0 %");
}

#[test]
fn decimal_forms() {
    assert_eq!(decimal_chars(0), vec!['0']);
    assert_eq!(decimal_chars(7), vec!['7']);
    assert_eq!(decimal_chars(1203), vec!['1', '2', '0', '3']);
}

#[test]
fn env_missing_variable_is_reported() {
    let env = env_of(&[("HOME", "/home/u")]);
    assert_eq!(
        expand_env("%HOME% %NOPE% %ALSO_NOPE%", &env),
        Err(ExpansionError::EnvironmentVariableMissing(String::from("NOPE")))
    );
    assert_eq!(expand_env("%HOME%/x", &env).unwrap(), "/home/u/x");
}

#[test]
fn env_without_tokens_is_unchanged() {
    let env = env_of(&[]);
    assert_eq!(expand_env("no tokens % here %% 100%", &env).unwrap(), "no tokens % here %% 100%");
    assert_eq!(expand_env("", &env).unwrap(), "");
}

#[test]
fn env_token_grammar() {
    let env = env_of(&[("A", "1"), ("B", "2"), ("x(y)$;!?", "odd")]);
    assert_eq!(expand_env("%A%B%", &env).unwrap(), "1B%");
    assert_eq!(expand_env("%a b% %A%", &env).unwrap(), "%a b% 1");
    assert_eq!(expand_env("%x(y)$;!?%", &env).unwrap(), "odd");
    let env2 = env_of(&[("A", "%B%"), ("B", "2")]);
    assert_eq!(expand_env("%A% %B%", &env2).unwrap(), "%B% 2");
}

#[test]
fn env_first_entry_wins() {
    let env = env_of(&[("A", "first"), ("A", "second")]);
    assert_eq!(expand_env("%A%", &env).unwrap(), "first");
}
