use shell::cmd::Action;
use shell::cmd::Env;
use shell::common_parts;
use shell::error::Error;
use shell::exec_cmd;
use shell::text::parse_i32;

#[test]
fn it_extracts_common_parts() {
    let names: Vec<String> = vec![];
    let subject = common_parts(&names);
    assert_eq!(subject, "");

    let names = vec!["foo".to_string(), "bar".to_string()];
    let subject = common_parts(&names);
    assert_eq!(subject, "");

    let names = vec!["foo".to_string(), "far".to_string()];
    let subject = common_parts(&names);
    assert_eq!(subject, "f");

    let names = vec!["foo_bar".to_string(), "foo_baz".to_string()];
    let subject = common_parts(&names);
    assert_eq!(subject, "foo_ba");

    let names = vec![
        "foo_bar".to_string(),
        "foo_baz".to_string(),
        "foo_c".to_string(),
    ];
    let subject = common_parts(&names);
    assert_eq!(subject, "foo_");
}

#[test]
fn exec_cmd_parses_redirects_and_dispatches() {
    let env = Env { home: String::new(), path_var: String::new(), cwd: None, fs: vec![] };
    let (builder, directive) = exec_cmd("echo hello world > out.txt", &env);
    assert_eq!(builder.stdout, Some("out.txt".to_string()));
    assert_eq!(builder.stdout_append, false);
    assert_eq!(builder.stderr, None);
    assert_eq!(directive.out_line, Some("hello world".to_string()));
    assert_eq!(directive.err_line, None);
    assert_eq!(directive.action, Action::Continue);
}

#[test]
fn exec_cmd_on_empty_line_does_nothing() {
    let env = Env { home: String::new(), path_var: String::new(), cwd: None, fs: vec![] };
    let (builder, directive) = exec_cmd("", &env);
    assert_eq!(builder.stdout, None);
    assert_eq!(builder.stderr, None);
    assert_eq!(directive.out_line, None);
    assert_eq!(directive.err_line, None);
    assert_eq!(directive.action, Action::Continue);
}

#[test]
fn parse_i32_accepts_exactly_decimal_integers() {
    assert_eq!(parse_i32("42"), Some(42));
    assert_eq!(parse_i32("-42"), Some(-42));
    assert_eq!(parse_i32("+7"), Some(7));
    assert_eq!(parse_i32("0"), Some(0));
    assert_eq!(parse_i32("2147483647"), Some(i32::MAX));
    assert_eq!(parse_i32("-2147483648"), Some(i32::MIN));
    assert_eq!(parse_i32("2147483648"), None);
    assert_eq!(parse_i32("-2147483649"), None);
    assert_eq!(parse_i32(""), None);
    assert_eq!(parse_i32("+"), None);
    assert_eq!(parse_i32("-"), None);
    assert_eq!(parse_i32("abc"), None);
    assert_eq!(parse_i32("1 2"), None);
    assert_eq!(parse_i32(" 1"), None);
    assert_eq!(parse_i32("007"), Some(7));
}

#[test]
fn error_messages_name_their_category() {
    assert_eq!(Error::Io("broken pipe".to_string()).message(), "io -- broken pipe");
    assert_eq!(Error::Utf8("bad byte".to_string()).message(), "utf8 -- bad byte");
    assert_eq!(Error::Other("oops".to_string()).message(), "other -- oops");
}

#[test]
fn trim_strips_unicode_whitespace() {
    assert_eq!(shell::text::str_trim("  a b\t"), "a b");
    assert_eq!(shell::text::str_trim(""), "");
    assert_eq!(shell::text::str_trim(" \t "), "");
}
