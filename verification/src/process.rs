//! Commands to run and the rules for judging how they ran. Arguments are
//! always a list, never a shell string; every run has a timeout and an
//! output cap. Spawning and reading are the program's part.
use vstd::prelude::*;

use crate::domain::ProviderError;
use crate::text::{decimal, push_decimal, push_str, strs_view};

verus! {

/// A command and its arguments, already split.
#[derive(Debug, Clone, PartialEq, Eq)]
pub struct CommandSpec {
    pub program: String,
    pub args: Vec<String>,
}

impl CommandSpec {
    pub fn new(program: &str) -> (c: Self)
        ensures
            c.program@ == program@,
            c.args@.len() == 0,
    {
        CommandSpec { program: program.to_owned(), args: Vec::new() }
    }

    /// The same command with `arg` appended.
    pub fn arg(self, arg: &str) -> (c: Self)
        ensures
            c.program == self.program,
            strs_view(c.args@) == strs_view(self.args@).push(arg@),
    {
        let mut c = self;
        let ghost before = c.args@;
        c.args.push(arg.to_owned());
        proof {
            assert(strs_view(c.args@) =~= strs_view(before).push(arg@));
        }
        c
    }

    /// The same command with `more` appended, in order.
    pub fn args(self, more: Vec<String>) -> (c: Self)
        ensures
            c.program == self.program,
            strs_view(c.args@) == strs_view(self.args@) + strs_view(more@),
    {
        let mut c = self;
        let ghost start = strs_view(c.args@);
        let mut i: usize = 0;
        proof {
            assert(start + strs_view(more@.take(0)) =~= start);
        }
        while i < more.len()
            invariant
                0 <= i <= more@.len(),
                c.program == self.program,
                strs_view(c.args@) == start + strs_view(more@.take(i as int)),
            decreases more@.len() - i,
        {
            let ghost before = c.args@;
            c.args.push(more[i].clone());
            i += 1;
            proof {
                assert(strs_view(c.args@) =~= strs_view(before).push(more@[i - 1]@));
                assert(strs_view(more@.take(i as int)) =~= strs_view(more@.take(i - 1)).push(more@[i - 1]@));
                assert(strs_view(c.args@) =~= start + strs_view(more@.take(i as int)));
            }
        }
        proof {
            assert(more@.take(i as int) =~= more@);
        }
        c
    }
}

/// What a finished command printed and how it exited.
#[derive(Debug, Clone, PartialEq, Eq)]
pub struct CommandOutput {
    pub stdout: String,
    pub stderr: String,
    pub exit_code: Option<i32>,
}

/// Why running a command failed. A timeout carries the limit in milliseconds.
#[derive(Debug, Clone, PartialEq, Eq)]
pub enum RunError {
    NotFound(String),
    TimedOut(String, u64),
    NonZeroExit(String, i32, String),
    OutputTooLarge(String, usize),
    SpawnFailed(String, String),
}

/// How `{:?}` prints a `std::time::Duration` of `ms` milliseconds.
pub uninterp spec fn duration_debug(ms: u64) -> Seq<char>;

/// `format!("{:?}", Duration::from_millis(ms))`.
#[verifier::external_body]
pub(crate) fn duration_text(ms: u64) -> (s: String)
    ensures
        s@ == duration_debug(ms),
{
    format!("{:?}", std::time::Duration::from_millis(ms))
}

/// A signed number as `{}` prints it.
pub open spec fn signed_decimal(n: int) -> Seq<char> {
    if n < 0 {
        "-"@ + decimal((-n) as nat)
    } else {
        decimal(n as nat)
    }
}

fn push_signed(s: &mut String, n: i32)
    ensures
        final(s)@ == old(s)@ + signed_decimal(n as int),
{
    if n < 0 {
        push_str(s, "-");
        let m: u64 = (-(n as i64)) as u64;
        push_decimal(s, m);
        proof {
            assert(final(s)@ =~= old(s)@ + signed_decimal(n as int));
        }
    } else {
        push_decimal(s, n as u64);
    }
}

impl RunError {
    /// The error's text, as the program reports it.
    pub open spec fn spec_message(&self) -> Seq<char> {
        match self {
            RunError::NotFound(c) => "command `"@ + c@ + "` was not found on PATH"@,
            RunError::TimedOut(c, ms) => "command `"@ + c@ + "` timed out after "@ + duration_debug(*ms),
            RunError::NonZeroExit(c, code, stderr) => "command `"@ + c@ + "` exited with status "@
                + signed_decimal(*code as int) + ": "@ + stderr@,
            RunError::OutputTooLarge(c, limit) => "command `"@ + c@ + "` output exceeded the "@
                + decimal(*limit as nat) + " byte limit"@,
            RunError::SpawnFailed(c, m) => "failed to run `"@ + c@ + "`: "@ + m@,
        }
    }

    /// The error's text.
    pub fn message(&self) -> (m: String)
        ensures
            m@ == self.spec_message(),
    {
        let mut m = String::new();
        match self {
            RunError::NotFound(c) => {
                push_str(&mut m, "command `");
                push_str(&mut m, c.as_str());
                push_str(&mut m, "` was not found on PATH");
            },
            RunError::TimedOut(c, ms) => {
                push_str(&mut m, "command `");
                push_str(&mut m, c.as_str());
                push_str(&mut m, "` timed out after ");
                let d = duration_text(*ms);
                push_str(&mut m, d.as_str());
            },
            RunError::NonZeroExit(c, code, stderr) => {
                push_str(&mut m, "command `");
                push_str(&mut m, c.as_str());
                push_str(&mut m, "` exited with status ");
                push_signed(&mut m, *code);
                push_str(&mut m, ": ");
                push_str(&mut m, stderr.as_str());
            },
            RunError::OutputTooLarge(c, limit) => {
                push_str(&mut m, "command `");
                push_str(&mut m, c.as_str());
                push_str(&mut m, "` output exceeded the ");
                push_decimal(&mut m, *limit as u64);
                push_str(&mut m, " byte limit");
            },
            RunError::SpawnFailed(c, msg) => {
                push_str(&mut m, "failed to run `");
                push_str(&mut m, c.as_str());
                push_str(&mut m, "`: ");
                push_str(&mut m, msg.as_str());
            },
        }
        proof {
            assert(m@ =~= self.spec_message());
        }
        m
    }
}

/// `p` is the provider error for the failed command `e`: a missing command
/// stays one (named), a timeout becomes a timeout, and everything else is
/// described.
pub open spec fn is_mapped_error(e: RunError, p: ProviderError) -> bool {
    match e {
        RunError::NotFound(c) => p matches ProviderError::CommandNotFound(m) && m@ == c@,
        RunError::TimedOut(c, ms) => p matches ProviderError::Timeout(m) && m@ == c@
            + " timed out after "@ + duration_debug(ms),
        RunError::NonZeroExit(c, code, stderr) => p matches ProviderError::Other(m) && m@ == c@
            + " exited with status "@ + signed_decimal(code as int) + ": "@ + stderr@,
        RunError::OutputTooLarge(c, limit) => p matches ProviderError::Other(m) && m@ == c@
            + " output exceeded the "@ + decimal(limit as nat) + " byte limit"@,
        RunError::SpawnFailed(c, msg) => p matches ProviderError::Other(m) && m@ == "failed to run "@
            + c@ + ": "@ + msg@,
    }
}

/// The provider error for a failed command, as [`is_mapped_error`] says.
pub fn map_run_error(error: &RunError) -> (p: ProviderError)
    ensures
        is_mapped_error(*error, p),
{
    match error {
        RunError::NotFound(cmd) => ProviderError::CommandNotFound(cmd.clone()),
        RunError::TimedOut(cmd, ms) => {
            let mut m = String::new();
            push_str(&mut m, cmd.as_str());
            push_str(&mut m, " timed out after ");
            let d = duration_text(*ms);
            push_str(&mut m, d.as_str());
            ProviderError::Timeout(m)
        },
        RunError::NonZeroExit(cmd, code, stderr) => {
            let mut m = String::new();
            push_str(&mut m, cmd.as_str());
            push_str(&mut m, " exited with status ");
            push_signed(&mut m, *code);
            push_str(&mut m, ": ");
            push_str(&mut m, stderr.as_str());
            ProviderError::Other(m)
        },
        RunError::OutputTooLarge(cmd, limit) => {
            let mut m = String::new();
            push_str(&mut m, cmd.as_str());
            push_str(&mut m, " output exceeded the ");
            push_decimal(&mut m, *limit as u64);
            push_str(&mut m, " byte limit");
            ProviderError::Other(m)
        },
        RunError::SpawnFailed(cmd, message) => {
            let mut m = String::new();
            push_str(&mut m, "failed to run ");
            push_str(&mut m, cmd.as_str());
            push_str(&mut m, ": ");
            push_str(&mut m, message.as_str());
            ProviderError::Other(m)
        },
    }
}

/// The limits every command runs under: a timeout (ms) and an output cap (bytes).
#[derive(Debug, Clone, Copy)]
pub struct ProcessRunner {
    pub timeout_ms: u64,
    pub max_output_bytes: usize,
}

impl ProcessRunner {
    pub fn new(timeout_ms: u64, max_output_bytes: usize) -> (r: Self)
        ensures
            r.timeout_ms == timeout_ms,
            r.max_output_bytes == max_output_bytes,
    {
        ProcessRunner { timeout_ms, max_output_bytes }
    }
}

impl Default for ProcessRunner {
    /// 15 seconds and 8 MiB.
    fn default() -> (r: Self)
        ensures
            r.timeout_ms == 15000,
            r.max_output_bytes == 8388608,
    {
        ProcessRunner { timeout_ms: 15000, max_output_bytes: 8388608 }
    }
}

/// A run is a success only with exit status 0; otherwise the command's
/// stderr is reported with its status (-1 when it has none).
pub fn check_exit(program: &str, output: CommandOutput) -> (r: Result<CommandOutput, RunError>)
    ensures
        output.exit_code == Some(0i32) ==> r == Ok::<CommandOutput, RunError>(output),
        output.exit_code != Some(0i32) ==> (r matches Err(RunError::NonZeroExit(p, code, stderr))
            && p@ == program@ && code == (match output.exit_code {
            Some(c) => c,
            None => -1i32,
        }) && stderr == output.stderr),
{
    match output.exit_code {
        Some(0) => Ok(output),
        Some(c) => Err(RunError::NonZeroExit(program.to_owned(), c, output.stderr)),
        None => Err(RunError::NonZeroExit(program.to_owned(), -1, output.stderr)),
    }
}

/// A failed spawn: "not found" when the system said so, else the system's message.
pub fn spawn_error(program: &str, not_found: bool, message: &str) -> (e: RunError)
    ensures
        not_found ==> (e matches RunError::NotFound(p) && p@ == program@),
        !not_found ==> (e matches RunError::SpawnFailed(p, m) && p@ == program@ && m@ == message@),
{
    if not_found {
        RunError::NotFound(program.to_owned())
    } else {
        RunError::SpawnFailed(program.to_owned(), message.to_owned())
    }
}

/// How much of a chunk of `read` bytes to keep when `buffered` bytes are
/// already kept and at most `limit` may be: all of it while the limit
/// holds, else what still fits, with the output marked as cut.
pub fn take_within_limit(buffered: usize, read: usize, limit: usize) -> (r: (usize, bool))
    requires
        buffered + read <= usize::MAX,
    ensures
        buffered + read > limit ==> r == ((if limit > buffered { (limit - buffered) as usize } else { 0usize }), true),
        buffered + read <= limit ==> r == (read, false),
{
    if buffered + read > limit {
        let keep = if limit > buffered { limit - buffered } else { 0 };
        (keep, true)
    } else {
        (read, false)
    }
}

} // verus!
