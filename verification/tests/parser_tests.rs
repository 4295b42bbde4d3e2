use shell::parser::Inputs;
use shell::parser::args::Args;

fn tokens_of(input: &str) -> Vec<String> {
    let mut args = Args::new(input);
    let mut out: Vec<String> = vec![];
    while let Some(t) = args.next() {
        out.push(t);
    }
    out
}

#[test]
fn redirections_are_extracted() {
    let parsed = Inputs::parse("cmd a > out.txt b 2>> err.txt");
    assert_eq!(parsed.args, vec!["cmd".to_string(), "a".to_string(), "b".to_string()]);
    assert_eq!(parsed.stdout_new, Some("out.txt".to_string()));
    assert_eq!(parsed.stdout_append, None);
    assert_eq!(parsed.stderr_new, None);
    assert_eq!(parsed.stderr_append, Some("err.txt".to_string()));
}

#[test]
fn every_operator_form_is_recognized() {
    let parsed = Inputs::parse("x 1> a 1>> b 2> c 2>> d");
    assert_eq!(parsed.args, vec!["x".to_string()]);
    assert_eq!(parsed.stdout_new, Some("a".to_string()));
    assert_eq!(parsed.stdout_append, Some("b".to_string()));
    assert_eq!(parsed.stderr_new, Some("c".to_string()));
    assert_eq!(parsed.stderr_append, Some("d".to_string()));

    let parsed = Inputs::parse("x >> b");
    assert_eq!(parsed.stdout_append, Some("b".to_string()));
}

#[test]
fn last_redirection_wins() {
    let parsed = Inputs::parse("cmd > a > b");
    assert_eq!(parsed.args, vec!["cmd".to_string()]);
    assert_eq!(parsed.stdout_new, Some("b".to_string()));
}

#[test]
fn dangling_operator_sets_no_target() {
    let parsed = Inputs::parse("cmd >");
    assert_eq!(parsed.args, vec!["cmd".to_string()]);
    assert_eq!(parsed.stdout_new, None);
}

#[test]
fn writer_prefers_append_over_truncate() {
    let parsed = Inputs::parse("cmd > a >> b");
    let builder = parsed.writer();
    assert_eq!(builder.stdout_append, true);
    assert_eq!(builder.stdout, Some("b".to_string()));
    assert_eq!(builder.stderr_append, false);
    assert_eq!(builder.stderr, None);

    let parsed = Inputs::parse("cmd > a");
    let builder = parsed.writer();
    assert_eq!(builder.stdout_append, false);
    assert_eq!(builder.stdout, Some("a".to_string()));
}

#[test]
fn rejoining_tokens_is_not_idempotent() {
    // Quoting is lost: one token with a space splits in two on a second pass.
    let first = tokens_of("'a b'");
    assert_eq!(first, vec!["a b".to_string()]);
    let rejoined = first.join(" ");
    let second = tokens_of(&rejoined);
    assert_eq!(second, vec!["a".to_string(), "b".to_string()]);
}

#[test]
fn extracted_arguments_survive_a_second_extraction() {
    // The argument values are stable under a round trip through the
    // extractor: they hold no operator tokens any more, so a second pass
    // keeps them and sets no redirection slot.
    let parsed = Inputs::parse("cmd 'ab' > out.txt c");
    assert_eq!(parsed.args, vec!["cmd".to_string(), "ab".to_string(), "c".to_string()]);
    let rejoined = parsed.args.join(" ");
    let reparsed = Inputs::parse(&rejoined);
    assert_eq!(reparsed.args, parsed.args);
    assert_eq!(reparsed.stdout_new, None);
    assert_eq!(reparsed.stdout_append, None);
    assert_eq!(reparsed.stderr_new, None);
    assert_eq!(reparsed.stderr_append, None);
}

#[test]
fn empty_line_has_no_tokens() {
    let parsed = Inputs::parse("");
    assert!(parsed.args.is_empty());
    assert_eq!(parsed.stdout_new, None);
}
