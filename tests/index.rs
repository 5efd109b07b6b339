use minishell::index::{DirEntry, ExecIndex};

fn entry(dir: &str, name: &str, executable: bool) -> DirEntry {
    DirEntry { name: name.to_string(), path: format!("{dir}/{name}"), executable }
}

#[test]
fn earlier_directory_wins() {
    let dirs = vec![
        vec![entry("/opt/one", "tool", true), entry("/opt/one", "a", true)],
        vec![entry("/opt/two", "tool", true), entry("/opt/two", "b", true)],
    ];
    let index = ExecIndex::build(&dirs);
    assert_eq!(index.lookup(&"tool".to_string()), Some("/opt/one/tool".to_string()));
    assert_eq!(index.lookup(&"a".to_string()), Some("/opt/one/a".to_string()));
    assert_eq!(index.lookup(&"b".to_string()), Some("/opt/two/b".to_string()));
}

#[test]
fn non_executables_are_skipped() {
    let dirs = vec![
        vec![entry("/opt/one", "tool", false), entry("/opt/one", "notes", false)],
        vec![entry("/opt/two", "tool", true)],
    ];
    let index = ExecIndex::build(&dirs);
    assert_eq!(index.lookup(&"tool".to_string()), Some("/opt/two/tool".to_string()));
    assert_eq!(index.lookup(&"notes".to_string()), None);
}

#[test]
fn empty_search_path_and_missing_directories() {
    let index = ExecIndex::build(&vec![]);
    assert_eq!(index.lookup(&"ls".to_string()), None);
    let index = ExecIndex::build(&vec![vec![], vec![entry("/bin", "ls", true)]]);
    assert_eq!(index.lookup(&"ls".to_string()), Some("/bin/ls".to_string()));
}

#[test]
fn adding_directories_one_by_one() {
    let mut index = ExecIndex::new();
    index.add_dir(&vec![entry("/usr/bin", "ls", true)]);
    index.add_dir(&vec![entry("/bin", "ls", true), entry("/bin", "cat", true)]);
    assert_eq!(index.lookup(&"ls".to_string()), Some("/usr/bin/ls".to_string()));
    assert_eq!(index.lookup(&"cat".to_string()), Some("/bin/cat".to_string()));
}
