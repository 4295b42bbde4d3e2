//! Command classification, executable resolution and dispatch.
//!
//! A token list classifies into a builtin, an empty command or an unknown
//! name. Dispatch never touches the process itself: it receives a snapshot of
//! the environment as plain values and returns a directive — at most one line
//! for each output channel and the action the surrounding process must take.

use vstd::prelude::*;
use vstd::string::StrSliceExecFns;
use vstd::string::StringExecFns;

pub mod fs;
pub mod parser;

verus! {

use crate::cmd::fs::DirListing;
use crate::cmd::fs::find_file;
use crate::cmd::fs::list_dirs;
use crate::cmd::fs::lookup_dir;
use crate::cmd::fs::spec_find_in_files;
use crate::cmd::fs::spec_list_dirs;
use crate::cmd::fs::spec_lookup_files;
use crate::parser::opt_view;
use crate::text::parse_i32;
use crate::text::push_char;
use crate::text::spec_parse_i32;
use crate::text::spec_starts_with;
use crate::text::str_eq;
use crate::text::str_starts_with;

/// The kind of command a line's first token names.
#[derive(Debug, PartialEq, Eq, Clone)]
pub enum CommandType {
    Echo,
    Type,
    Exit,
    Pwd,
    Cd,
    Empty,
    Unknown(String),
}

/// A classified command: its kind and the remaining tokens, its arguments.
#[derive(Debug, PartialEq, Eq)]
pub struct Command {
    pub kind: CommandType,
    pub args: Vec<String>,
}

/// The first token, or the empty string for an empty token list.
pub open spec fn spec_first_or_empty(toks: Seq<Seq<char>>) -> Seq<char> {
    if toks.len() == 0 {
        Seq::<char>::empty()
    } else {
        toks[0]
    }
}

/// The tokens after the first, the arguments.
pub open spec fn spec_rest(toks: Seq<Seq<char>>) -> Seq<Seq<char>> {
    if toks.len() == 0 {
        Seq::<Seq<char>>::empty()
    } else {
        toks.skip(1)
    }
}

/// How a command name classifies: each builtin by its name, the empty name to
/// `Empty`, anything else to `Unknown` carrying the name.
pub open spec fn spec_is_classified(name: Seq<char>, kind: CommandType) -> bool {
    if name.len() == 0 {
        kind == CommandType::Empty
    } else if name == "echo"@ {
        kind == CommandType::Echo
    } else if name == "type"@ {
        kind == CommandType::Type
    } else if name == "exit"@ {
        kind == CommandType::Exit
    } else if name == "pwd"@ {
        kind == CommandType::Pwd
    } else if name == "cd"@ {
        kind == CommandType::Cd
    } else {
        kind matches CommandType::Unknown(s) && s@ == name
    }
}

impl CommandType {
    /// The name a command kind prints as: the builtin's name, nothing for
    /// `Empty`, the carried name for `Unknown`.
    pub open spec fn spec_name(&self) -> Seq<char> {
        match self {
            CommandType::Echo => "echo"@,
            CommandType::Type => "type"@,
            CommandType::Exit => "exit"@,
            CommandType::Pwd => "pwd"@,
            CommandType::Cd => "cd"@,
            CommandType::Empty => Seq::<char>::empty(),
            CommandType::Unknown(s) => s@,
        }
    }

    /// Renders the kind's name.
    pub fn name(&self) -> (r: String)
        ensures
            r@ == self.spec_name(),
    {
        match self {
            CommandType::Echo => String::from_str("echo"),
            CommandType::Type => String::from_str("type"),
            CommandType::Exit => String::from_str("exit"),
            CommandType::Pwd => String::from_str("pwd"),
            CommandType::Cd => String::from_str("cd"),
            CommandType::Empty => String::new(),
            CommandType::Unknown(s) => s.clone(),
        }
    }

    /// The builtin kinds, in the order completion offers them.
    pub fn builtins() -> (r: Vec<CommandType>)
        ensures
            r@ == seq![
                CommandType::Echo,
                CommandType::Type,
                CommandType::Exit,
                CommandType::Pwd,
                CommandType::Cd,
            ],
    {
        let mut v: Vec<CommandType> = Vec::new();
        v.push(CommandType::Echo);
        v.push(CommandType::Type);
        v.push(CommandType::Exit);
        v.push(CommandType::Pwd);
        v.push(CommandType::Cd);
        proof {
            assert(v@ =~= seq![
                CommandType::Echo,
                CommandType::Type,
                CommandType::Exit,
                CommandType::Pwd,
                CommandType::Cd,
            ]);
        }
        v
    }
}

/// The names of the builtins, in completion order.
pub open spec fn spec_builtin_names() -> Seq<Seq<char>> {
    seq!["echo"@, "type"@, "exit"@, "pwd"@, "cd"@]
}

/// The first name of `names` that `p` is a prefix of, if any.
pub open spec fn spec_first_match(names: Seq<Seq<char>>, p: Seq<char>) -> Option<Seq<char>>
    decreases names.len(),
{
    if names.len() == 0 {
        None
    } else if spec_starts_with(names[0], p) {
        Some(names[0])
    } else {
        spec_first_match(names.skip(1), p)
    }
}

/// What completing `p` yields: the first builtin name `p` opens, else the
/// first executable name `p` opens.
pub open spec fn spec_autocomplete(p: Seq<char>, executables: Seq<Seq<char>>) -> Option<Seq<char>> {
    match spec_first_match(spec_builtin_names(), p) {
        Some(x) => Some(x),
        None => spec_first_match(executables, p),
    }
}

impl Command {
    /// Classifies a token list: the first token (empty when there is none)
    /// names the command, the rest are its arguments.
    pub fn new(tokens: Vec<String>) -> (r: Command)
        ensures
            spec_is_classified(spec_first_or_empty(tokens.deep_view()), r.kind),
            r.args.deep_view() == spec_rest(tokens.deep_view()),
    {
        let ghost dv0 = tokens.deep_view();
        let mut tokens = tokens;
        if tokens.len() == 0 {
            proof {
                assert(tokens.deep_view() =~= Seq::<Seq<char>>::empty());
            }
            return Command { kind: CommandType::Empty, args: tokens };
        }
        let name = tokens.remove(0);
        proof {
            assert(tokens.deep_view() =~= spec_rest(dv0));
        }
        let kind = if name.as_str().is_empty() {
            CommandType::Empty
        } else if str_eq(name.as_str(), "echo") {
            CommandType::Echo
        } else if str_eq(name.as_str(), "type") {
            CommandType::Type
        } else if str_eq(name.as_str(), "exit") {
            CommandType::Exit
        } else if str_eq(name.as_str(), "pwd") {
            CommandType::Pwd
        } else if str_eq(name.as_str(), "cd") {
            CommandType::Cd
        } else {
            CommandType::Unknown(name)
        };
        Command { kind, args: tokens }
    }

    /// Completes the start of a command name: first builtin whose name opens
    /// with `s`, else the first of the given executable names that does.
    pub fn autocomplete(s: &str, executables: &Vec<String>) -> (r: Option<String>)
        ensures
            opt_view(r) == spec_autocomplete(s@, executables.deep_view()),
    {
        let bs = CommandType::builtins();
        let ghost bn = spec_builtin_names();
        let mut i: usize = 0;
        proof {
            assert(bn.skip(0) =~= bn);
            assert(forall|j: int| 0 <= j < 5 ==> #[trigger] bs@[j].spec_name() == bn[j]);
        }
        while i < bs.len()
            invariant
                i <= bs@.len(),
                bs@.len() == 5,
                bn == spec_builtin_names(),
                forall|j: int| 0 <= j < 5 ==> #[trigger] bs@[j].spec_name() == bn[j],
                spec_first_match(bn, s@) == spec_first_match(bn.skip(i as int), s@),
            decreases bs@.len() - i,
        {
            let nm = bs[i].name();
            proof {
                assert(bn.skip(i as int)[0] == bn[i as int]);
                assert(bn.skip(i as int).skip(1) =~= bn.skip(i + 1));
            }
            if str_starts_with(nm.as_str(), s) {
                return Some(nm);
            }
            i = i + 1;
        }
        proof {
            assert(bn.skip(5).len() == 0);
        }
        let ghost ev = executables.deep_view();
        let mut j: usize = 0;
        proof {
            assert(ev.skip(0) =~= ev);
        }
        while j < executables.len()
            invariant
                j <= ev.len(),
                ev == executables.deep_view(),
                spec_first_match(ev, s@) == spec_first_match(ev.skip(j as int), s@),
                spec_first_match(spec_builtin_names(), s@) is None,
            decreases ev.len() - j,
        {
            proof {
                assert(ev.skip(j as int)[0] == ev[j as int]);
                assert(ev.skip(j as int).skip(1) =~= ev.skip(j + 1));
            }
            if str_starts_with(executables[j].as_str(), s) {
                return Some(executables[j].clone());
            }
            j = j + 1;
        }
        proof {
            assert(ev.skip(ev.len() as int).len() == 0);
        }
        None
    }
}

/// Resolution over a search path: the first file named `name` in the first
/// search directory that holds one.
pub open spec fn spec_find_in_dirs(
    dirs: Seq<Seq<char>>,
    name: Seq<char>,
    fs: Seq<DirListing>,
) -> Option<Seq<char>>
    decreases dirs.len(),
{
    if dirs.len() == 0 {
        None
    } else {
        let found = match spec_lookup_files(fs, dirs[0]) {
            None => None,
            Some(files) => spec_find_in_files(files, name),
        };
        if found is Some {
            found
        } else {
            spec_find_in_dirs(dirs.skip(1), name, fs)
        }
    }
}

/// What resolving `name` over the search path yields: the earliest matching
/// directory wins, and within one directory the first file in enumeration
/// order whose file name equals `name`.
pub open spec fn spec_find_executable(
    path: Seq<char>,
    name: Seq<char>,
    fs: Seq<DirListing>,
) -> Option<Seq<char>> {
    spec_find_in_dirs(spec_list_dirs(path, fs), name, fs)
}

/// Resolves `name` over the `:`-separated search path `path`, against the
/// directory model `fs`.
pub fn find_executable(path: &str, name: &str, fs: &Vec<DirListing>) -> (r: Option<String>)
    ensures
        opt_view(r) == spec_find_executable(path@, name@, fs@),
{
    let dirs = list_dirs(path, fs);
    let ghost dd = dirs.deep_view();
    let mut i: usize = 0;
    proof {
        assert(dd.skip(0) =~= dd);
    }
    while i < dirs.len()
        invariant
            i <= dd.len(),
            dd == dirs.deep_view(),
            dd == spec_list_dirs(path@, fs@),
            spec_find_executable(path@, name@, fs@) == spec_find_in_dirs(
                dd.skip(i as int),
                name@,
                fs@,
            ),
        decreases dd.len() - i,
    {
        proof {
            assert(dd.skip(i as int)[0] == dd[i as int]);
            assert(dd.skip(i as int).skip(1) =~= dd.skip(i + 1));
        }
        match lookup_dir(fs, dirs[i].as_str()) {
            None => {},
            Some(l) => {
                match find_file(l, name) {
                    Some(p) => {
                        return Some(p);
                    },
                    None => {},
                }
            },
        }
        i = i + 1;
    }
    proof {
        assert(dd.skip(dd.len() as int).len() == 0);
    }
    None
}

/// What `cd` reports when changing directory failed: its own wording when the
/// target was not found, the raw error text otherwise.
pub fn cd_error_message(dir: &str, not_found: bool, raw: &str) -> (r: String)
    ensures
        not_found ==> r@ == "cd: "@ + dir@ + ": No such file or directory"@,
        !not_found ==> r@ == raw@,
{
    if not_found {
        let mut m = String::from_str("cd: ");
        m.append(dir);
        m.append(": No such file or directory");
        proof {
            assert(("cd: "@ + dir@) + ": No such file or directory"@ =~= "cd: "@ + dir@
                + ": No such file or directory"@);
        }
        m
    } else {
        String::from_str(raw)
    }
}

/// A snapshot of the process state dispatch may read: the `HOME` value (empty
/// when unset), the `PATH` value (empty when unset), the current working
/// directory (`None` when it cannot be rendered as text), and the model of
/// the search directories.
pub struct Env {
    pub home: String,
    pub path_var: String,
    pub cwd: Option<String>,
    pub fs: Vec<DirListing>,
}

/// What the surrounding process must do after the written lines: go on, end
/// the process with a code, run an external program (name, arguments) copying
/// its output verbatim, or change directory (target, the argument as typed).
#[derive(Debug, PartialEq, Eq)]
pub enum Action {
    Continue,
    Terminate(i32),
    Spawn(String, Vec<String>),
    Chdir(String, String),
}

/// The outcome of dispatching one command: at most one line for each channel,
/// written before the action is taken.
#[derive(Debug, PartialEq, Eq)]
pub struct Directive {
    pub out_line: Option<String>,
    pub err_line: Option<String>,
    pub action: Action,
}

/// The tokens joined with single spaces.
pub open spec fn spec_join(toks: Seq<Seq<char>>) -> Seq<char>
    decreases toks.len(),
{
    if toks.len() == 0 {
        Seq::<char>::empty()
    } else if toks.len() == 1 {
        toks[0]
    } else {
        toks[0] + seq![' '] + spec_join(toks.skip(1))
    }
}

/// Joining one more token appends a space and the token.
proof fn lemma_join_snoc(toks: Seq<Seq<char>>, x: Seq<char>)
    ensures
        spec_join(toks.push(x)) == if toks.len() == 0 {
            x
        } else {
            spec_join(toks) + seq![' '] + x
        },
    decreases toks.len(),
{
    let p = toks.push(x);
    if toks.len() == 0 {
        assert(p[0] == x);
    } else {
        assert(p[0] == toks[0]);
        assert(p.skip(1) =~= toks.skip(1).push(x));
        lemma_join_snoc(toks.skip(1), x);
        if toks.len() == 1 {
            assert(toks.skip(1).len() == 0);
            assert(spec_join(p) == toks[0] + seq![' '] + x);
        } else {
            assert(toks[0] + seq![' '] + (spec_join(toks.skip(1)) + seq![' '] + x) =~= (toks[0]
                + seq![' '] + spec_join(toks.skip(1))) + seq![' '] + x);
        }
    }
}

/// Joins the arguments with single spaces.
pub fn join_spaces(args: &Vec<String>) -> (r: String)
    ensures
        r@ == spec_join(args.deep_view()),
{
    let ghost dv = args.deep_view();
    let mut acc = String::new();
    let mut i: usize = 0;
    proof {
        assert(dv.take(0).len() == 0);
    }
    while i < args.len()
        invariant
            i <= dv.len(),
            dv == args.deep_view(),
            acc@ == spec_join(dv.take(i as int)),
        decreases dv.len() - i,
    {
        if i > 0 {
            push_char(&mut acc, ' ');
        }
        let ghost before = acc@;
        acc.append(args[i].as_str());
        proof {
            lemma_join_snoc(dv.take(i as int), dv[i as int]);
            assert(dv.take(i as int).push(dv[i as int]) =~= dv.take(i + 1));
            if i > 0 {
                assert(before =~= spec_join(dv.take(i as int)) + seq![' ']);
            }
        }
        i = i + 1;
    }
    proof {
        assert(dv.take(dv.len() as int) =~= dv);
    }
    acc
}

/// What the `type` builtin prints of the name `name` (the first argument, or
/// nothing): empty or not found, a builtin, a resolved executable, or not
/// found.
pub open spec fn spec_type_line(name: Seq<char>, env: Env) -> Seq<char> {
    if name.len() == 0 {
        name + ": not found"@
    } else if name == "echo"@ || name == "type"@ || name == "exit"@ || name == "pwd"@ || name
        == "cd"@ {
        name + " is a shell builtin"@
    } else {
        match spec_find_executable(env.path_var@, name, env.fs@) {
            Some(p) => name + " is "@ + p,
            None => name + ": not found"@,
        }
    }
}

/// What dispatching `cmd` under `env` must produce.
pub open spec fn spec_run(cmd: Command, env: Env, d: Directive) -> bool {
    match cmd.kind {
        CommandType::Echo => {
            &&& opt_view(d.out_line) == Some(spec_join(cmd.args.deep_view()))
            &&& d.err_line is None
            &&& d.action == Action::Continue
        },
        CommandType::Type => {
            &&& opt_view(d.out_line) == Some(
                spec_type_line(spec_first_or_empty(cmd.args.deep_view()), env),
            )
            &&& d.err_line is None
            &&& d.action == Action::Continue
        },
        CommandType::Exit => {
            match spec_parse_i32(spec_first_or_empty(cmd.args.deep_view())) {
                Some(code) => {
                    &&& d.out_line is None
                    &&& d.err_line is None
                    &&& d.action == Action::Terminate(code)
                },
                None => {
                    &&& d.out_line is None
                    &&& opt_view(d.err_line) == Some("exit code should be a number"@)
                    &&& d.action == Action::Continue
                },
            }
        },
        CommandType::Pwd => {
            match env.cwd {
                Some(dir) => {
                    &&& opt_view(d.out_line) == Some(dir@)
                    &&& d.err_line is None
                    &&& d.action == Action::Continue
                },
                None => {
                    &&& d.out_line is None
                    &&& opt_view(d.err_line) == Some(
                        "other -- "@ + "Cannot stringify current directory path"@,
                    )
                    &&& d.action == Action::Continue
                },
            }
        },
        CommandType::Cd => {
            let dir = spec_first_or_empty(cmd.args.deep_view());
            let target = if dir == "~"@ {
                env.home@
            } else {
                dir
            };
            &&& d.out_line is None
            &&& d.err_line is None
            &&& d.action matches Action::Chdir(t, a) && t@ == target && a@ == dir
        },
        CommandType::Empty => {
            &&& d.out_line is None
            &&& d.err_line is None
            &&& d.action == Action::Continue
        },
        CommandType::Unknown(name) => {
            match spec_find_executable(env.path_var@, name@, env.fs@) {
                Some(_) => {
                    &&& d.out_line is None
                    &&& d.err_line is None
                    &&& d.action matches Action::Spawn(n, a) && n@ == name@ && a.deep_view()
                        == cmd.args.deep_view()
                },
                None => {
                    &&& d.out_line is None
                    &&& opt_view(d.err_line) == Some(name@ + ": command not found"@)
                    &&& d.action == Action::Continue
                },
            }
        },
    }
}

impl Command {
    /// The command's first argument, or the empty string without one.
    fn first_arg(&self) -> (r: String)
        ensures
            r@ == spec_first_or_empty(self.args.deep_view()),
    {
        if self.args.len() == 0 {
            String::new()
        } else {
            self.args[0].clone()
        }
    }

    /// Dispatches the command under the environment snapshot `env`: the lines
    /// to write and the action the surrounding process must take.
    pub fn run(self, env: &Env) -> (d: Directive)
        ensures
            spec_run(self, *env, d),
    {
        match &self.kind {
            CommandType::Echo => {
                let msg = join_spaces(&self.args);
                Directive { out_line: Some(msg), err_line: None, action: Action::Continue }
            },
            CommandType::Type => {
                let name = self.first_arg();
                let mut m = name.clone();
                if name.as_str().is_empty() {
                    m.append(": not found");
                } else if str_eq(name.as_str(), "echo") || str_eq(name.as_str(), "type") || str_eq(
                    name.as_str(),
                    "exit",
                ) || str_eq(name.as_str(), "pwd") || str_eq(name.as_str(), "cd") {
                    m.append(" is a shell builtin");
                } else {
                    match find_executable(env.path_var.as_str(), name.as_str(), &env.fs) {
                        Some(p) => {
                            m.append(" is ");
                            m.append(p.as_str());
                            proof {
                                assert((name@ + " is "@) + p@ =~= name@ + " is "@ + p@);
                            }
                        },
                        None => {
                            m.append(": not found");
                        },
                    }
                }
                Directive { out_line: Some(m), err_line: None, action: Action::Continue }
            },
            CommandType::Exit => {
                let code = self.first_arg();
                match parse_i32(code.as_str()) {
                    Some(code) => {
                        Directive {
                            out_line: None,
                            err_line: None,
                            action: Action::Terminate(code),
                        }
                    },
                    None => {
                        Directive {
                            out_line: None,
                            err_line: Some(String::from_str("exit code should be a number")),
                            action: Action::Continue,
                        }
                    },
                }
            },
            CommandType::Pwd => {
                match &env.cwd {
                    Some(dir) => {
                        Directive {
                            out_line: Some(dir.clone()),
                            err_line: None,
                            action: Action::Continue,
                        }
                    },
                    None => {
                        let e = crate::error::Error::Other(
                            String::from_str("Cannot stringify current directory path"),
                        );
                        Directive {
                            out_line: None,
                            err_line: Some(e.message()),
                            action: Action::Continue,
                        }
                    },
                }
            },
            CommandType::Cd => {
                let dir = self.first_arg();
                let target = if str_eq(dir.as_str(), "~") {
                    env.home.clone()
                } else {
                    dir.clone()
                };
                Directive { out_line: None, err_line: None, action: Action::Chdir(target, dir) }
            },
            CommandType::Empty => {
                Directive { out_line: None, err_line: None, action: Action::Continue }
            },
            CommandType::Unknown(name) => {
                match find_executable(env.path_var.as_str(), name.as_str(), &env.fs) {
                    Some(_) => {
                        let n = name.clone();
                        let Command { kind: _, args } = self;
                        Directive {
                            out_line: None,
                            err_line: None,
                            action: Action::Spawn(n, args),
                        }
                    },
                    None => {
                        let mut m = name.clone();
                        m.append(": command not found");
                        Directive { out_line: None, err_line: Some(m), action: Action::Continue }
                    },
                }
            },
        }
    }
}

} // verus!
