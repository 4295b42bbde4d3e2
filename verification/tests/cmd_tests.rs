use shell::cmd::Action;
use shell::cmd::Command;
use shell::cmd::CommandType;
use shell::cmd::Env;
use shell::cmd::find_executable;
use shell::cmd::fs::DirListing;

fn env_with(home: &str, path_var: &str, cwd: Option<&str>, fs: Vec<DirListing>) -> Env {
    Env {
        home: home.to_string(),
        path_var: path_var.to_string(),
        cwd: cwd.map(|d| d.to_string()),
        fs,
    }
}

fn empty_env() -> Env {
    env_with("", "", Some("/"), vec![])
}

#[test]
fn it_parses_to_cmd() {
    let inputs = vec!["echo".into(), "foo".into(), "bar".into()];
    let cmd = Command::new(inputs);
    let expected = Command { kind: CommandType::Echo, args: vec!["foo".into(), "bar".into()] };
    assert_eq!(cmd, expected);

    let inputs = vec!["exit".into(), "0".into()];
    let cmd = Command::new(inputs);
    let expected = Command { kind: CommandType::Exit, args: vec!["0".into()] };
    assert_eq!(cmd, expected);

    let inputs = vec![];
    let cmd = Command::new(inputs);
    let expected = Command { kind: CommandType::Empty, args: vec![] };
    assert_eq!(cmd, expected);

    let inputs = vec!["invalid_command".into()];
    let cmd = Command::new(inputs);
    let expected = Command { kind: CommandType::Unknown("invalid_command".into()), args: vec![] };
    assert_eq!(cmd, expected);

    let inputs = vec!["invalid_command".into(), "foo".into(), "bar".into()];
    let cmd = Command::new(inputs);
    let expected = Command {
        kind: CommandType::Unknown("invalid_command".into()),
        args: vec!["foo".into(), "bar".into()],
    };
    assert_eq!(cmd, expected);
}

#[test]
fn it_completes_the_command() {
    let subject = Command::autocomplete("ech", &vec![]);
    assert_eq!(subject, Some("echo".into()));

    let subject = Command::autocomplete("exi", &vec![]);
    assert_eq!(subject, Some("exit".into()));
}

#[test]
fn completion_falls_back_to_executables() {
    let exes = vec!["gcc".to_string(), "git".to_string()];
    assert_eq!(Command::autocomplete("gi", &exes), Some("git".into()));
    assert_eq!(Command::autocomplete("nothing", &exes), None);
}

#[test]
fn echo_writes_joined_arguments() {
    let cmd = Command::new(vec!["echo".into(), "foo".into(), "bar".into()]);
    assert_eq!(cmd.kind, CommandType::Echo);
    assert_eq!(cmd.args, vec!["foo".to_string(), "bar".to_string()]);
    let d = cmd.run(&empty_env());
    assert_eq!(d.out_line, Some("foo bar".to_string()));
    assert_eq!(d.err_line, None);
    assert_eq!(d.action, Action::Continue);
}

#[test]
fn exit_with_bad_code_reports_and_continues() {
    let cmd = Command::new(vec!["exit".into(), "abc".into()]);
    let d = cmd.run(&empty_env());
    assert_eq!(d.out_line, None);
    assert_eq!(d.err_line, Some("exit code should be a number".to_string()));
    assert_eq!(d.action, Action::Continue);
}

#[test]
fn exit_with_number_terminates() {
    let cmd = Command::new(vec!["exit".into(), "42".into()]);
    let d = cmd.run(&empty_env());
    assert_eq!(d.out_line, None);
    assert_eq!(d.err_line, None);
    assert_eq!(d.action, Action::Terminate(42));
}

#[test]
fn cd_tilde_goes_home() {
    let cmd = Command::new(vec!["cd".into(), "~".into()]);
    let d = cmd.run(&env_with("/home/user", "", None, vec![]));
    assert_eq!(d.action, Action::Chdir("/home/user".to_string(), "~".to_string()));
}

#[test]
fn cd_not_found_message() {
    let msg = shell::cmd::cd_error_message("/nope", true, "");
    assert_eq!(msg, "cd: /nope: No such file or directory");
    let msg = shell::cmd::cd_error_message("/nope", false, "permission denied");
    assert_eq!(msg, "permission denied");
}

#[test]
fn cd_keeps_literal_argument() {
    let cmd = Command::new(vec!["cd".into(), "/nope".into()]);
    let d = cmd.run(&empty_env());
    assert_eq!(d.action, Action::Chdir("/nope".to_string(), "/nope".to_string()));
}

#[test]
fn pwd_writes_current_directory() {
    let cmd = Command::new(vec!["pwd".into()]);
    let d = cmd.run(&env_with("", "", Some("/tmp/somewhere"), vec![]));
    assert_eq!(d.out_line, Some("/tmp/somewhere".to_string()));
    assert_eq!(d.err_line, None);
    assert_eq!(d.action, Action::Continue);
}

#[test]
fn pwd_without_text_directory_reports() {
    let cmd = Command::new(vec!["pwd".into()]);
    let d = cmd.run(&env_with("", "", None, vec![]));
    assert_eq!(d.out_line, None);
    assert_eq!(d.err_line, Some("other -- Cannot stringify current directory path".to_string()));
}

#[test]
fn type_knows_builtins_and_executables() {
    let fs = vec![DirListing { path: "/a".to_string(), files: vec!["/a/foo".to_string()] }];
    let env = env_with("", "/a", None, fs);

    let d = Command::new(vec!["type".into(), "echo".into()]).run(&env);
    assert_eq!(d.out_line, Some("echo is a shell builtin".to_string()));

    let d = Command::new(vec!["type".into(), "foo".into()]).run(&env);
    assert_eq!(d.out_line, Some("foo is /a/foo".to_string()));

    let d = Command::new(vec!["type".into(), "missing".into()]).run(&env);
    assert_eq!(d.out_line, Some("missing: not found".to_string()));

    let d = Command::new(vec!["type".into()]).run(&env);
    assert_eq!(d.out_line, Some(": not found".to_string()));
}

#[test]
fn unknown_command_resolves_or_reports() {
    let fs = vec![DirListing { path: "/a".to_string(), files: vec!["/a/foo".to_string()] }];
    let env = env_with("", "/a", None, fs);

    let d = Command::new(vec!["foo".into(), "x".into()]).run(&env);
    assert_eq!(d.action, Action::Spawn("foo".to_string(), vec!["x".to_string()]));
    assert_eq!(d.out_line, None);
    assert_eq!(d.err_line, None);

    let d = Command::new(vec!["bar".into()]).run(&env);
    assert_eq!(d.err_line, Some("bar: command not found".to_string()));
    assert_eq!(d.action, Action::Continue);
}

#[test]
fn resolver_searches_path_in_order() {
    let fs = vec![
        DirListing { path: "/a".to_string(), files: vec!["/a/foo".to_string()] },
        DirListing { path: "/b".to_string(), files: vec!["/b/foo".to_string(), "/b/bar".to_string()] },
    ];
    assert_eq!(find_executable("/a:/b", "foo", &fs), Some("/a/foo".to_string()));
    assert_eq!(find_executable("/a:/b", "bar", &fs), Some("/b/bar".to_string()));
    assert_eq!(find_executable("/a:/b", "missing", &fs), None);
    assert_eq!(find_executable("", "foo", &fs), None);
    // A path segment that is no directory of the model is skipped silently.
    assert_eq!(find_executable("/nope:/b", "foo", &fs), Some("/b/foo".to_string()));
}

#[test]
fn builtins_in_completion_order() {
    let names: Vec<String> = CommandType::builtins().iter().map(|b| b.name()).collect();
    assert_eq!(names, vec!["echo", "type", "exit", "pwd", "cd"]);
}
