use shell::cmd::parser::Args;
use shell::cmd::parser::split_quoted;

#[test]
fn parser_it_parses_args() {
    let mut args = Args::new("'shell hello'");
    assert_eq!(args.next(), Some("shell hello".into()));
    assert_eq!(args.next(), None);

    let mut args = Args::new("'shell hello' foo");
    assert_eq!(args.next(), Some("shell hello".into()));
    assert_eq!(args.next(), Some("foo".into()));
    assert_eq!(args.next(), None);

    let mut args = Args::new("'/tmp/file name' '/tmp/file name with spaces'");
    assert_eq!(args.next(), Some("/tmp/file name".into()));
    assert_eq!(args.next(), Some("/tmp/file name with spaces".into()));
    assert_eq!(args.next(), None);

    let mut args = Args::new("'shell     test' 'example''hello'");
    assert_eq!(args.next(), Some("shell     test".into()));
    assert_eq!(args.next(), Some("examplehello".into()));
    assert_eq!(args.next(), None);

    let mut args = Args::new("'shell     test' 'example'hello\"world\"");
    assert_eq!(args.next(), Some("shell     test".into()));
    assert_eq!(args.next(), Some("examplehelloworld".into()));
    assert_eq!(args.next(), None);
}

#[test]
fn it_split_quoted_strings() {
    let str = "'foo bar'";
    let (token, rest) = split_quoted('\'', str);
    assert_eq!(token, "foo bar");
    assert_eq!(rest, "");

    let str = "'foo bar' baz";
    let (token, rest) = split_quoted('\'', str);
    assert_eq!(token, "foo bar");
    assert_eq!(rest, " baz");

    let str = "'foo";
    let (token, rest) = split_quoted('\'', str);
    assert_eq!(token, "foo");
    assert_eq!(rest, "");
}

#[test]
fn verbatim_splitter_keeps_backslashes() {
    // The simple splitter does no escape processing at all.
    let mut args = Args::new("a\\ b");
    assert_eq!(args.next(), Some("a\\".into()));
    assert_eq!(args.next(), Some("b".into()));
    assert_eq!(args.next(), None);
}

#[test]
fn terminator_is_whitespace_or_quote() {
    assert!(shell::cmd::parser::terminator(' '));
    assert!(shell::cmd::parser::terminator('\t'));
    assert!(shell::cmd::parser::terminator('\''));
    assert!(shell::cmd::parser::terminator('"'));
    assert!(!shell::cmd::parser::terminator('a'));
    assert!(!shell::cmd::parser::terminator('\\'));
}
