//! Fleet execution: one command run on many hosts, at most `forks` at a
//! time, with one result per host.

use vstd::prelude::*;
use crate::ssh::SshConfig;

verus! {

/// A host to run the command on.
pub struct BatchTarget {
    pub label: String,
    pub ssh: SshConfig,
}

/// The outcome on one host.
pub struct BatchResult {
    pub label: String,
    pub host: String,
    pub ok: bool,
    pub exit_code: i64,
    pub output: String,
    pub ms: u64,
}

/// How many hosts run at once when the caller asks for `forks`: at least one.
pub fn fanout_width(forks: usize) -> (w: usize)
    ensures
        w == (if forks == 0 {
            1
        } else {
            forks
        }),
{
    if forks == 0 {
        1
    } else {
        forks
    }
}

/// The fan-out width when the caller may leave it unset: 8 by default, at
/// least one.
pub fn batch_forks(forks: Option<usize>) -> (w: usize)
    ensures
        w == (match forks {
            Some(f) => if f == 0 {
                1
            } else {
                f
            },
            None => 8,
        }),
{
    match forks {
        Some(f) => fanout_width(f),
        None => 8,
    }
}

/// The result for one host from what running the command gave: the output
/// and exit status, or a description of the failure (unreachable host,
/// refused authentication, ...), which is reported as exit code -1.
pub fn batch_result(target: &BatchTarget, run: Result<(String, u32), String>, ms: u64) -> (r:
    BatchResult)
    ensures
        r.label@ == target.label@,
        r.host@ == target.ssh.host@,
        r.ms == ms,
        match run {
            Ok((out, code)) => r.ok == (code == 0) && r.exit_code == code as i64 && r.output@ == out@,
            Err(e) => !r.ok && r.exit_code == -1 && r.output@ == e@,
        },
{
    let (ok, exit_code, output) = match run {
        Ok((out, code)) => (code == 0, code as i64, out),
        Err(e) => (false, -1i64, e),
    };
    BatchResult {
        label: target.label.clone(),
        host: target.ssh.host.clone(),
        ok,
        exit_code,
        output,
        ms,
    }
}

} // verus!
