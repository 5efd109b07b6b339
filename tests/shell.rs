use minishell::error::ShellError;
use minishell::index::{DirEntry, ExecIndex};
use minishell::shell::{end_of_input, type_report, Outcome, Shell};

fn s(x: &str) -> String {
    x.to_string()
}

fn index() -> ExecIndex {
    let e = |dir: &str, name: &str| DirEntry { name: s(name), path: format!("{dir}/{name}"), executable: true };
    ExecIndex::build(&vec![vec![e("/usr/bin", "ls"), e("/usr/bin", "cat")], vec![e("/bin", "ls")]])
}

fn shell(cwd: &str) -> Shell {
    Shell::new(s(cwd), Some(s("/home/user")), index())
}

fn printed(o: Outcome) -> String {
    match o {
        Outcome::Print(t) => t,
        other => panic!("expected output, got {other:?}"),
    }
}

fn failure(o: Outcome) -> String {
    match o {
        Outcome::Fail(e) => e.message(),
        other => panic!("expected a failure, got {other:?}"),
    }
}

#[test]
fn echo_collapses_whitespace() {
    assert_eq!(printed(shell("/").step("echo a b  c")), "a b c");
    assert_eq!(printed(shell("/").step("echo")), "");
}

#[test]
fn type_of_builtin_and_unknown() {
    let sh = shell("/");
    assert_eq!(printed(sh.step("type echo")), "echo is a shell builtin");
    assert_eq!(printed(sh.step("type nonexistent_cmd_xyz")), "nonexistent_cmd_xyz: not found");
    assert_eq!(failure(sh.step("type")), "Usage: type <command>");
}

#[test]
fn type_of_indexed_executable_gives_first_path() {
    assert_eq!(printed(shell("/").step("type ls")), "ls is /usr/bin/ls");
    assert_eq!(type_report(&s("cat"), &index()), "cat is /usr/bin/cat");
}

#[test]
fn cd_to_missing_directory_keeps_cwd() {
    let mut sh = shell("/tmp");
    let target = match sh.step("cd /nonexistent_dir_xyz") {
        Outcome::ChangeDir(t) => t,
        other => panic!("expected a directory change, got {other:?}"),
    };
    assert_eq!(target, "/nonexistent_dir_xyz");
    let err = sh.finish_cd(target, false).unwrap_err();
    assert_eq!(err.message(), "cd: /nonexistent_dir_xyz: No such file or directory");
    assert_eq!(printed(sh.step("pwd")), "/tmp");
}

#[test]
fn cd_parent_is_normalized() {
    let mut sh = shell("/usr/local/lib");
    let target = match sh.step("cd ..") {
        Outcome::ChangeDir(t) => t,
        other => panic!("expected a directory change, got {other:?}"),
    };
    assert_eq!(target, "/usr/local");
    assert_eq!(sh.finish_cd(target, true), Ok(()));
    assert_eq!(printed(sh.step("pwd")), "/usr/local");
    assert!(!printed(sh.step("pwd")).contains(".."));
}

#[test]
fn cd_relative_home_and_absolute_targets() {
    let sh = shell("/srv/");
    assert_eq!(sh.step("cd a/./b/../c"), Outcome::ChangeDir(s("/srv/a/c")));
    assert_eq!(sh.step("cd ../../.."), Outcome::ChangeDir(s("/")));
    assert_eq!(sh.step("cd ~/docs"), Outcome::ChangeDir(s("/home/user/docs")));
    assert_eq!(sh.step("cd ~"), Outcome::ChangeDir(s("/home/user")));
    assert_eq!(sh.step("cd /etc"), Outcome::ChangeDir(s("/etc")));
    assert_eq!(failure(sh.step("cd")), "cd: missing operand");
    let homeless = Shell::new(s("/"), None, index());
    assert_eq!(failure(homeless.step("cd ~")), "cd: HOME not set");
}

#[test]
fn exit_codes() {
    let sh = shell("/");
    assert_eq!(sh.step("exit 3"), Outcome::Exit(3));
    assert_eq!(sh.step("exit"), Outcome::Exit(0));
    assert_eq!(failure(sh.step("exit abc")), "exit: abc: numeric argument required");
}

#[test]
fn external_commands_and_unknown_ones() {
    let sh = shell("/");
    assert_eq!(
        sh.step("ls -l 'my dir'"),
        Outcome::Spawn { program: s("ls"), path: s("/usr/bin/ls"), args: vec![s("-l"), s("my dir")] }
    );
    assert_eq!(sh.step("frobnicate x"), Outcome::Fail(ShellError::CommandNotFound(s("frobnicate"))));
    assert_eq!(failure(sh.step("frobnicate x")), "frobnicate: command not found");
}

#[test]
fn blank_and_malformed_lines() {
    let sh = shell("/");
    assert_eq!(sh.step("   \n"), Outcome::Nothing);
    assert_eq!(sh.step("echo 'open"), Outcome::Fail(ShellError::MalformedInput));
    assert_eq!(ShellError::MalformedInput.message(), "error: unbalanced quoting");
    assert_eq!(ShellError::SpawnFailed(s("/bin/x")).message(), "/bin/x: could not be started");
}

#[test]
fn finish_cd_to_existing_directory() {
    let mut sh = shell("/");
    assert_eq!(sh.finish_cd(s("/var"), true), Ok(()));
    assert_eq!(sh.cwd, "/var");
    assert_eq!(sh.finish_cd(s("/nope"), false), Err(ShellError::PathNotFound(s("/nope"))));
    assert_eq!(sh.cwd, "/var");
}

#[test]
fn closed_input_exits_with_zero() {
    assert_eq!(end_of_input(), Outcome::Exit(0));
    assert_eq!(end_of_input(), shell("/").step("exit"));
}
