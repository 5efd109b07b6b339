use crate::builtins::{builtin_names, echo_line, exit_code_of, is_builtin, parse_exit_code};
use crate::error::{error_text, ShellError};
use crate::index::ExecIndex;
use crate::tokens::{join_words, no_quoting, shlex_split_of, tokenize, views_of, words};
use vstd::prelude::*;

verus! {

/// A path that starts at the root.
pub open spec fn rooted(p: Seq<char>) -> bool {
    p.len() > 0 && p[0] == '/'
}

/// Whether `p` has a `..` element at `i`.
pub open spec fn parent_element_at(p: Seq<char>, i: int) -> bool {
    &&& 0 <= i
    &&& i + 2 <= p.len()
    &&& p[i] == '.'
    &&& p[i + 1] == '.'
    &&& (i == 0 || p[i - 1] == '/')
    &&& (i + 2 == p.len() || p[i + 2] == '/')
}

/// Whether `p` names a parent directory with a literal `..` element.
pub open spec fn has_parent_element(p: Seq<char>) -> bool {
    exists|i: int| parent_element_at(p, i)
}

/// What path_clean's lexical normalisation makes of a path.
pub uninterp spec fn clean_of(p: Seq<char>) -> Seq<char>;

/// Relies on path_clean::clean: the result depends on the path alone; a rooted path
/// stays rooted and loses its `..` elements (an inner one with the element before it,
/// a leading one alone).
#[verifier::external_body]
fn clean_path(p: &str) -> (r: String)
    ensures
        r@ == clean_of(p@),
        rooted(p@) ==> rooted(r@) && !has_parent_element(r@),
{
    path_clean::clean(p).to_string_lossy().into_owned()
}

/// `rel` taken relative to the directory `dir`.
pub open spec fn join_dir(dir: Seq<char>, rel: Seq<char>) -> Seq<char> {
    if dir.len() > 0 && dir.last() == '/' {
        dir + rel
    } else {
        dir + seq!['/'] + rel
    }
}

/// Where `cd arg` leads from `cwd`; `None` where it needs a home directory that is unknown.
pub open spec fn cd_target(cwd: Seq<char>, home: Option<Seq<char>>, arg: Seq<char>) -> Option<Seq<char>> {
    if arg.len() > 0 && arg[0] == '~' {
        match home {
            Some(h) => Some(h + arg.drop_first()),
            None => None,
        }
    } else if rooted(arg) {
        Some(arg)
    } else {
        Some(clean_of(join_dir(cwd, arg)))
    }
}

/// An argument of `cd` that names its target from the home directory or the root.
pub open spec fn starts_cd_special(arg: Seq<char>) -> bool {
    arg.len() > 0 && (arg[0] == '~' || arg[0] == '/')
}

/// What `type name` writes.
pub open spec fn type_text(name: Seq<char>, resolved: Option<Seq<char>>) -> Seq<char> {
    if builtin_names().contains(name) {
        name + " is a shell builtin"@
    } else {
        match resolved {
            Some(p) => name + " is "@ + p,
            None => name + ": not found"@,
        }
    }
}

/// Reports how `type` resolves `name`: builtin first, then the index.
pub fn type_report(name: &String, index: &ExecIndex) -> (r: String)
    ensures
        r@ == type_text(name@, index.resolve(name@)),
{
    let mut r = name.clone();
    if is_builtin(name) {
        r.append(" is a shell builtin");
    } else {
        match index.lookup(name) {
            Some(p) => {
                r.append(" is ");
                r.append(p.as_str());
            },
            None => {
                r.append(": not found");
            },
        }
    }
    r
}

/// What the interpreter is to do after reading one line.
#[derive(Debug, PartialEq, Eq)]
pub enum Outcome {
    /// Nothing: the line held no tokens.
    Nothing,
    /// Write this text and a newline.
    Print(String),
    /// Report this condition and go on.
    Fail(ShellError),
    /// End the process with this code.
    Exit(i32),
    /// Run the executable found at `path` under the name `program`, with `args`.
    Spawn { program: String, path: String, args: Vec<String> },
    /// Make this directory current if it exists (see `Shell::finish_cd`).
    ChangeDir(String),
}

/// `r` reports an invalid argument with the text `t`.
pub open spec fn invalid_with(r: Outcome, t: Seq<char>) -> bool {
    match r {
        Outcome::Fail(e) => e is InvalidArgument && error_text(e) == t,
        _ => false,
    }
}

/// `r` writes the line `t`.
pub open spec fn prints(r: Outcome, t: Seq<char>) -> bool {
    match r {
        Outcome::Print(s) => s@ == t,
        _ => false,
    }
}

/// The interpreter's state between lines.
pub struct Shell {
    /// The current working directory.
    pub cwd: String,
    /// The home directory that `~` stands for, if known.
    pub home: Option<String>,
    /// The executables of the search path.
    pub index: ExecIndex,
}

/// An optional string as an optional character sequence.
pub open spec fn home_view(h: Option<String>) -> Option<Seq<char>> {
    match h {
        Some(s) => Some(s@),
        None => None,
    }
}

impl Shell {
    /// A shell in the directory `cwd`, with `home` for `~` and the executables of `index`.
    pub fn new(cwd: String, home: Option<String>, index: ExecIndex) -> (r: Shell)
        ensures
            r.cwd == cwd,
            r.home == home,
            r.index == index,
    {
        Shell { cwd, home, index }
    }

    /// `r` is what the tokens `toks` ask for in this state.
    pub open spec fn dispatched(self, toks: Seq<Seq<char>>, r: Outcome) -> bool {
        if toks.len() == 0 {
            r is Nothing
        } else {
            let cmd = toks[0];
            let args = toks.drop_first();
            if cmd == "exit"@ {
                if args.len() == 0 {
                    r == Outcome::Exit(0)
                } else {
                    match exit_code_of(args[0]) {
                        Some(c) => r == Outcome::Exit(c),
                        None => invalid_with(r, "exit: "@ + args[0] + ": numeric argument required"@),
                    }
                }
            } else if cmd == "echo"@ {
                prints(r, join_words(args))
            } else if cmd == "type"@ {
                if args.len() == 0 {
                    invalid_with(r, "Usage: type <command>"@)
                } else {
                    prints(r, type_text(args[0], self.index.resolve(args[0])))
                }
            } else if cmd == "pwd"@ {
                prints(r, self.cwd@)
            } else if cmd == "cd"@ {
                if args.len() == 0 {
                    invalid_with(r, "cd: missing operand"@)
                } else {
                    match cd_target(self.cwd@, home_view(self.home), args[0]) {
                        Some(t) => match r {
                            Outcome::ChangeDir(d) => d@ == t,
                            _ => false,
                        },
                        None => invalid_with(r, "cd: HOME not set"@),
                    }
                }
            } else {
                match self.index.resolve(cmd) {
                    Some(p) => match r {
                        Outcome::Spawn { program, path, args: a } => program@ == cmd && path@ == p
                            && views_of(a@) == args,
                        _ => false,
                    },
                    None => match r {
                        Outcome::Fail(e) => e == ShellError::CommandNotFound(e->CommandNotFound_0)
                            && e->CommandNotFound_0@ == cmd,
                        _ => false,
                    },
                }
            }
        }
    }

    fn invalid(text: String) -> (r: Outcome)
        ensures
            invalid_with(r, text@),
    {
        Outcome::Fail(ShellError::InvalidArgument(text))
    }

    /// Where `cd arg` leads from the current directory.
    fn resolve_cd(&self, arg: &String) -> (r: Option<String>)
        ensures
            home_view(r) == cd_target(self.cwd@, home_view(self.home), arg@),
            rooted(self.cwd@) && !starts_cd_special(arg@) ==> r is Some && rooted(r->Some_0@)
                && !has_parent_element(r->Some_0@),
    {
        let a = arg.as_str();
        let n = a.unicode_len();
        if n > 0 && a.get_char(0) == '~' {
            match &self.home {
                Some(h) => {
                    let mut t = h.clone();
                    let rest = a.substring_char(1, n);
                    assert(rest@ =~= arg@.drop_first());
                    t.append(rest);
                    Some(t)
                },
                None => None,
            }
        } else if n > 0 && a.get_char(0) == '/' {
            Some(arg.clone())
        } else {
            let mut joined = self.cwd.clone();
            let m = self.cwd.as_str().unicode_len();
            if !(m > 0 && self.cwd.as_str().get_char(m - 1) == '/') {
                proof {
                    reveal_strlit("/");
                }
                joined.append("/");
            }
            joined.append(a);
            assert(joined@ =~= join_dir(self.cwd@, arg@));
            assert(rooted(self.cwd@) ==> joined@[0] == self.cwd@[0]);
            Some(clean_path(joined.as_str()))
        }
    }

    /// Decides what the tokens of one line ask for.
    pub fn dispatch(&self, tokens: &Vec<String>) -> (r: Outcome)
        ensures
            self.dispatched(views_of(tokens@), r),
            views_of(tokens@).len() >= 2 && views_of(tokens@)[0] == "cd"@ && rooted(self.cwd@)
                && !starts_cd_special(views_of(tokens@)[1]) ==> r is ChangeDir && rooted(
                r->ChangeDir_0@,
            ) && !has_parent_element(r->ChangeDir_0@),
    {
        proof {
            reveal_strlit("exit");
            reveal_strlit("echo");
            reveal_strlit("type");
            reveal_strlit("pwd");
            reveal_strlit("cd");
        }
        if tokens.len() == 0 {
            return Outcome::Nothing;
        }
        let ghost toks = views_of(tokens@);
        let cmd = &tokens[0];
        assert(toks[0] == cmd@);
        let args = tail_of(tokens);
        assert(toks.drop_first() == views_of(args@));
        if args.len() > 0 {
            assert(views_of(args@)[0] == args@[0]@);
        }
        if *cmd == String::from_str("exit") {
            if args.len() == 0 {
                Outcome::Exit(0)
            } else {
                match parse_exit_code(&args[0]) {
                    Some(c) => Outcome::Exit(c),
                    None => {
                        let mut t = String::from_str("exit: ");
                        t.append(args[0].as_str());
                        t.append(": numeric argument required");
                        Shell::invalid(t)
                    },
                }
            }
        } else if *cmd == String::from_str("echo") {
            Outcome::Print(echo_line(&args))
        } else if *cmd == String::from_str("type") {
            if args.len() == 0 {
                Shell::invalid(String::from_str("Usage: type <command>"))
            } else {
                Outcome::Print(type_report(&args[0], &self.index))
            }
        } else if *cmd == String::from_str("pwd") {
            Outcome::Print(self.cwd.clone())
        } else if *cmd == String::from_str("cd") {
            if args.len() == 0 {
                Shell::invalid(String::from_str("cd: missing operand"))
            } else {
                match self.resolve_cd(&args[0]) {
                    Some(t) => Outcome::ChangeDir(t),
                    None => Shell::invalid(String::from_str("cd: HOME not set")),
                }
            }
        } else {
            match self.index.lookup(cmd) {
                Some(p) => Outcome::Spawn { program: cmd.clone(), path: p, args },
                None => Outcome::Fail(ShellError::CommandNotFound(cmd.clone())),
            }
        }
    }

    /// Tokenizes one input line and decides what it asks for.
    pub fn step(&self, line: &str) -> (r: Outcome)
        ensures
            match shlex_split_of(line@) {
                Some(ts) => self.dispatched(ts, r),
                None => match r {
                    Outcome::Fail(e) => e is MalformedInput,
                    _ => false,
                },
            },
            no_quoting(line@) ==> self.dispatched(words(line@), r),
    {
        match tokenize(line) {
            Ok(tokens) => self.dispatch(&tokens),
            Err(e) => Outcome::Fail(e),
        }
    }

    /// Completes a `cd` once the target's existence is known: the directory
    /// becomes current where it exists, and is reported missing otherwise.
    pub fn finish_cd(&mut self, target: String, exists: bool) -> (r: Result<(), ShellError>)
        ensures
            final(self).home == old(self).home,
            final(self).index == old(self).index,
            exists ==> r is Ok && final(self).cwd == target,
            !exists ==> final(self).cwd == old(self).cwd && r == Err::<(), ShellError>(
                ShellError::PathNotFound(target),
            ),
    {
        if exists {
            self.cwd = target;
            Ok(())
        } else {
            Err(ShellError::PathNotFound(target))
        }
    }
}

/// What a closed input stream asks for: the same as `exit` with no argument.
pub fn end_of_input() -> (r: Outcome)
    ensures
        r == Outcome::Exit(0),
{
    Outcome::Exit(0)
}

/// All tokens but the first.
fn tail_of(tokens: &Vec<String>) -> (r: Vec<String>)
    requires
        tokens@.len() > 0,
    ensures
        views_of(r@) == views_of(tokens@).drop_first(),
{
    let mut r: Vec<String> = Vec::new();
    let mut i: usize = 1;
    while i < tokens.len()
        invariant
            1 <= i <= tokens@.len(),
            r@.len() == i - 1,
            views_of(r@) == views_of(tokens@).subrange(1, i as int),
        decreases tokens@.len() - i,
    {
        let ghost prev = r@;
        r.push(tokens[i].clone());
        assert(r@ == prev.push(tokens@[i as int]));
        assert forall|k: int| 0 <= k < r@.len() implies #[trigger] views_of(r@)[k] == views_of(tokens@).subrange(1, i + 1)[k] by {
            if k < prev.len() {
                assert(views_of(prev)[k] == views_of(tokens@).subrange(1, i as int)[k]);
            }
        }
        assert(views_of(r@) =~= views_of(tokens@).subrange(1, i + 1));
        i = i + 1;
    }
    assert(views_of(tokens@).subrange(1, tokens@.len() as int) =~= views_of(tokens@).drop_first());
    r
}

} // verus!
