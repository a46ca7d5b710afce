//! Local shell sessions: which program to start in a new terminal.

use vstd::prelude::*;

verus! {

/// A program to start in a pseudo-terminal.
pub struct ShellCommand {
    pub program: String,
    pub args: Vec<String>,
    /// The TERM the shell is told it runs under.
    pub term: String,
}

/// On Unix: the user's `$SHELL` (else `/bin/bash`) as a login shell.
pub fn unix_shell(shell_env: Option<String>) -> (c: ShellCommand)
    ensures
        c.program@ == (match shell_env {
            Some(s) => s@,
            None => "/bin/bash"@,
        }),
        c.args@.len() == 1,
        c.args@[0]@ == "-l"@,
        c.term@ == "xterm-256color"@,
{
    let program = match shell_env {
        Some(s) => s,
        None => "/bin/bash".to_owned(),
    };
    let mut args: Vec<String> = Vec::new();
    args.push("-l".to_owned());
    ShellCommand { program, args, term: "xterm-256color".to_owned() }
}

/// On Windows: `%COMSPEC%` (else `powershell.exe`), without arguments.
pub fn windows_shell(comspec: Option<String>) -> (c: ShellCommand)
    ensures
        c.program@ == (match comspec {
            Some(s) => s@,
            None => "powershell.exe"@,
        }),
        c.args@.len() == 0,
        c.term@ == "xterm-256color"@,
{
    let program = match comspec {
        Some(s) => s,
        None => "powershell.exe".to_owned(),
    };
    ShellCommand { program, args: Vec::new(), term: "xterm-256color".to_owned() }
}

} // verus!
