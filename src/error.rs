use vstd::prelude::*;

verus! {

/// The conditions that the interpreter reports and recovers from.
#[derive(Debug, PartialEq, Eq)]
pub enum ShellError {
    /// Unbalanced quoting or a trailing escape in the input line.
    MalformedInput,
    /// A builtin got a missing or malformed argument; holds the full text reported.
    InvalidArgument(String),
    /// The command names neither a builtin nor an indexed executable.
    CommandNotFound(String),
    /// The target of `cd` does not exist.
    PathNotFound(String),
    /// The executable at this path could not be launched.
    SpawnFailed(String),
}

/// The line of text that reports `e`.
pub open spec fn error_text(e: ShellError) -> Seq<char> {
    match e {
        ShellError::MalformedInput => "error: unbalanced quoting"@,
        ShellError::InvalidArgument(m) => m@,
        ShellError::CommandNotFound(c) => c@ + ": command not found"@,
        ShellError::PathNotFound(p) => "cd: "@ + p@ + ": No such file or directory"@,
        ShellError::SpawnFailed(p) => p@ + ": could not be started"@,
    }
}

impl ShellError {
    /// The human-readable line for this condition.
    pub fn message(&self) -> (r: String)
        ensures
            r@ == error_text(*self),
    {
        match self {
            ShellError::MalformedInput => String::from_str("error: unbalanced quoting"),
            ShellError::InvalidArgument(m) => m.clone(),
            ShellError::CommandNotFound(c) => {
                let mut r = c.clone();
                r.append(": command not found");
                r
            },
            ShellError::PathNotFound(p) => {
                let mut r = String::from_str("cd: ");
                r.append(p.as_str());
                r.append(": No such file or directory");
                r
            },
            ShellError::SpawnFailed(p) => {
                let mut r = p.clone();
                r.append(": could not be started");
                r
            },
        }
    }
}

} // verus!
