use minishell::error::ShellError;
use minishell::tokens::tokenize;

fn toks(v: &[&str]) -> Vec<String> {
    v.iter().map(|s| s.to_string()).collect()
}

#[test]
fn splits_plain_words_at_runs_of_blanks() {
    assert_eq!(tokenize("echo a b  c").unwrap(), toks(&["echo", "a", "b", "c"]));
    assert_eq!(tokenize("  ls\t-l \n").unwrap(), toks(&["ls", "-l"]));
}

#[test]
fn empty_and_blank_lines_give_no_tokens() {
    assert_eq!(tokenize("").unwrap(), Vec::<String>::new());
    assert_eq!(tokenize("   \t\n").unwrap(), Vec::<String>::new());
}

#[test]
fn quotes_keep_their_content() {
    assert_eq!(tokenize("echo 'a  b' \"c  d\"").unwrap(), toks(&["echo", "a  b", "c  d"]));
    assert_eq!(tokenize("echo a\\ b").unwrap(), toks(&["echo", "a b"]));
    assert_eq!(tokenize("echo \"x\\\"y\"").unwrap(), toks(&["echo", "x\"y"]));
}

#[test]
fn unbalanced_quoting_is_malformed() {
    assert_eq!(tokenize("echo 'abc"), Err(ShellError::MalformedInput));
    assert_eq!(tokenize("echo \"abc"), Err(ShellError::MalformedInput));
    assert_eq!(tokenize("echo abc\\"), Err(ShellError::MalformedInput));
}

#[test]
fn rejoined_plain_tokens_split_the_same() {
    let line = "  one two\t three  ";
    let first = tokenize(line).unwrap();
    let again = tokenize(&first.join(" ")).unwrap();
    assert_eq!(first.len(), 3);
    assert_eq!(again, first);
}

#[test]
fn tokenizing_twice_gives_the_same_tokens() {
    let line = "grep -e 'a b' \"c\" d";
    assert_eq!(tokenize(line), tokenize(line));
}
