//! The decisions of the `cmd` and `git` script modules once the command has
//! run: what the script gets back, or the error it sees.

use vstd::prelude::*;
use vstd::string::*;
use crate::error::Error;
use crate::text::{i64_to_decimal, int_to_decimal, join_strings, seq_join, string_views};

verus! {

/// How running a command went.
#[derive(Debug)]
pub enum CmdOutcome {
    /// The command ran: its outputs and its exit code (none when a signal ended it).
    Ran { stdout: String, stderr: String, exit_code: Option<i32> },
    /// The command could not be started; the message of the cause.
    SpawnFailed { error: String },
}

/// What a successful command gives the script.
#[derive(Debug)]
pub struct CmdResponse {
    pub stdout: String,
    pub stderr: String,
    pub exit: i64,
}

/// What a failed command gives the script as the value of its error.
#[derive(Debug)]
pub struct CmdFailure {
    pub stdout: Option<String>,
    pub stderr: Option<String>,
    pub exit: Option<i64>,
    pub error: String,
}

/// The exit code that the script sees: the process's, or `-1` without one.
pub open spec fn exit_of(exit_code: Option<i32>) -> int {
    match exit_code {
        Some(c) => c as int,
        None => -1,
    }
}

/// The message of a Lua `cmd.exec` failure for a command that did not start.
pub open spec fn spawn_failure_message(cmd: Seq<char>, args: Seq<char>, error: Seq<char>) -> Seq<
    char,
> {
    "Fail to execute: "@ + cmd + " "@ + args + "\nCause:\n"@ + error
}

/// The error text of a command that exited with a non-zero code.
pub open spec fn non_zero_message(exit: int) -> Seq<char> {
    "Command exited with non-zero status: "@ + int_to_decimal(exit)
}

fn exit_code_value(exit_code: Option<i32>) -> (res: i64)
    ensures
        res == exit_of(exit_code),
{
    match exit_code {
        Some(c) => c as i64,
        None => -1,
    }
}

/// `utils.cmd.exec(cmd_name, args)` once the command has run: the response
/// when the exit code is 0; otherwise the error value `{stdout, stderr, exit,
/// error}`, with the outputs and exit code when the command ran, and, when it
/// did not start, an error text naming the command, its arguments (joined
/// with spaces) and the cause.
pub fn lua_cmd_exec_result(cmd_name: &str, args: &Vec<String>, outcome: CmdOutcome) -> (res: Result<
    CmdResponse,
    CmdFailure,
>)
    ensures
        match outcome {
            CmdOutcome::Ran { stdout, stderr, exit_code } => if exit_of(exit_code) == 0 {
                res == Ok::<CmdResponse, CmdFailure>(CmdResponse { stdout, stderr, exit: 0 })
            } else {
                res matches Err(f) && f.stdout == Some(stdout) && f.stderr == Some(stderr) && f.exit
                    == Some(exit_of(exit_code) as i64) && f.error@ == non_zero_message(exit_of(exit_code))
            },
            CmdOutcome::SpawnFailed { error } => res matches Err(f) && f.stdout is None && f.stderr is None
                && f.exit is None && f.error@ == spawn_failure_message(
                cmd_name@,
                seq_join(string_views(args@), " "@),
                error@,
            ),
        },
{
    match outcome {
        CmdOutcome::Ran { stdout, stderr, exit_code } => {
            let exit = exit_code_value(exit_code);
            if exit == 0 {
                Ok(CmdResponse { stdout, stderr, exit })
            } else {
                let mut error = String::from_str("Command exited with non-zero status: ");
                error.append(i64_to_decimal(exit).as_str());
                Err(CmdFailure { stdout: Some(stdout), stderr: Some(stderr), exit: Some(exit), error })
            }
        },
        CmdOutcome::SpawnFailed { error } => {
            let mut msg = String::from_str("Fail to execute: ");
            msg.append(cmd_name);
            msg.append(" ");
            msg.append(join_strings(args, " ").as_str());
            msg.append("\nCause:\n");
            msg.append(error.as_str());
            Err(CmdFailure { stdout: None, stderr: None, exit: None, error: msg })
        },
    }
}

/// Rhai `cmd::exec(cmd_name, args)` once the command has run: the response
/// when the exit code is 0; otherwise the exception value, with the outputs
/// and exit code when the command ran.
pub fn rhai_cmd_exec_result(outcome: CmdOutcome) -> (res: Result<CmdResponse, CmdFailure>)
    ensures
        match outcome {
            CmdOutcome::Ran { stdout, stderr, exit_code } => if exit_of(exit_code) == 0 {
                res == Ok::<CmdResponse, CmdFailure>(CmdResponse { stdout, stderr, exit: 0 })
            } else {
                res matches Err(f) && f.stdout == Some(stdout) && f.stderr == Some(stderr) && f.exit
                    == Some(exit_of(exit_code) as i64) && f.error@ == non_zero_message(exit_of(exit_code))
            },
            CmdOutcome::SpawnFailed { error } => res == Err::<CmdResponse, CmdFailure>(
                CmdFailure { stdout: None, stderr: None, exit: None, error },
            ),
        },
{
    match outcome {
        CmdOutcome::Ran { stdout, stderr, exit_code } => {
            let exit = exit_code_value(exit_code);
            if exit == 0 {
                Ok(CmdResponse { stdout, stderr, exit })
            } else {
                let mut error = String::from_str("Command exited with non-zero status: ");
                error.append(i64_to_decimal(exit).as_str());
                Err(CmdFailure { stdout: Some(stdout), stderr: Some(stderr), exit: Some(exit), error })
            }
        },
        CmdOutcome::SpawnFailed { error } => Err(
            CmdFailure { stdout: None, stderr: None, exit: None, error },
        ),
    }
}

/// `git restore <path>` once it has run: its standard output, or an error
/// when it printed anything on its standard error.
pub fn git_restore_result(path: &str, stdout: String, stderr: String) -> (res: Result<String, Error>)
    ensures
        if stderr@.len() == 0 {
            res == Ok::<String, Error>(stdout)
        } else {
            res matches Err(Error::Cc { ctx, cause }) && ctx@ == "'git restore "@ + path@
                + "' failed"@ && cause == stderr
        },
{
    if stderr.as_str().is_empty() {
        Ok(stdout)
    } else {
        let mut ctx = String::from_str("'git restore ");
        ctx.append(path);
        ctx.append("' failed");
        Err(Error::Cc { ctx, cause: stderr })
    }
}

} // verus!
