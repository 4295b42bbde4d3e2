use shell::parser::args::Args;
use shell::parser::args::split_not_quoted;
use shell::parser::args::split_quoted;

#[test]
fn args_it_parses_args() {
    let mut args = Args::new("'shell hello'");
    assert_eq!(args.next(), Some("shell hello".into()));
    assert_eq!(args.next(), None);

    let mut args = Args::new("'shell hello' foo");
    assert_eq!(args.next(), Some("shell hello".into()));
    assert_eq!(args.next(), Some("foo".into()));
    assert_eq!(args.next(), None);

    let mut args = Args::new("'/tmp/file name' '/tmp/file name with spaces'");
    assert_eq!(args.next(), Some("/tmp/file name".into()));
    assert_eq!(args.next(), Some("/tmp/file name with spaces".into()));
    assert_eq!(args.next(), None);

    let mut args = Args::new("'shell     test' 'example''hello'");
    assert_eq!(args.next(), Some("shell     test".into()));
    assert_eq!(args.next(), Some("examplehello".into()));
    assert_eq!(args.next(), None);

    let mut args = Args::new("'shell     test' 'example'hello\"world\"");
    assert_eq!(args.next(), Some("shell     test".into()));
    assert_eq!(args.next(), Some("examplehelloworld".into()));
    assert_eq!(args.next(), None);
}

#[test]
fn it_splits_quoted_strings() {
    let str = "'foo bar'";
    let (token, rest) = split_quoted('\'', str);
    assert_eq!(token, "foo bar");
    assert_eq!(rest, "");

    let str = "'foo bar' baz";
    let (token, rest) = split_quoted('\'', str);
    assert_eq!(token, "foo bar");
    assert_eq!(rest, " baz");

    let str = "'foo";
    let (token, rest) = split_quoted('\'', str);
    assert_eq!(token, "foo");
    assert_eq!(rest, "");

    let str = "'before\\   after'";
    let (token, rest) = split_quoted('\'', str);
    assert_eq!(token, "before\\   after");
    assert_eq!(rest, "");
}

#[test]
fn it_splits_not_quoted_strings() {
    let str = "world\\ \\ \\ \\ \\ \\ script";
    let (token, rest) = split_not_quoted(str);
    assert_eq!(token, "world      script");
    assert_eq!(rest, "");
}

#[test]
fn single_quotes_keep_spaces() {
    let mut args = Args::new("'shell hello'");
    assert_eq!(args.next(), Some("shell hello".into()));
    assert_eq!(args.next(), None);
}

#[test]
fn adjacent_segments_concatenate() {
    let mut args = Args::new("'example'hello\"world\"");
    assert_eq!(args.next(), Some("examplehelloworld".into()));
    assert_eq!(args.next(), None);
}

#[test]
fn escaped_spaces_stay_in_one_token() {
    let mut args = Args::new("world\\ \\ \\ \\ \\ \\ script");
    assert_eq!(args.next(), Some("world      script".into()));
    assert_eq!(args.next(), None);
}

#[test]
fn double_quote_escape_rules() {
    // Backslash before backslash, dollar, quote or newline yields the bare
    // character; before anything else the backslash stays.
    let (token, rest) = shell::parser::args::split_double_quoted("\"a\\\\b\\$c\\\"d\\ne\"");
    assert_eq!(token, "a\\b$c\"d\\ne");
    assert_eq!(rest, "");

    let mut args = Args::new("\"hello\\tworld\"");
    assert_eq!(args.next(), Some("hello\\tworld".into()));
    assert_eq!(args.next(), None);
}

#[test]
fn unterminated_quote_consumes_to_end() {
    let mut args = Args::new("'foo  bar");
    assert_eq!(args.next(), Some("foo  bar".into()));
    assert_eq!(args.next(), None);

    let mut args = Args::new("\"foo  bar");
    assert_eq!(args.next(), Some("foo  bar".into()));
    assert_eq!(args.next(), None);
}

#[test]
fn whitespace_separates_tokens() {
    let mut args = Args::new("a  b\tc");
    assert_eq!(args.next(), Some("a".into()));
    assert_eq!(args.next(), Some("b".into()));
    assert_eq!(args.next(), Some("c".into()));
    assert_eq!(args.next(), None);
}
