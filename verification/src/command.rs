//! Commands that the helper has others run: what to start, and what to make of the outcome.

use vstd::prelude::*;
use vstd::utf8::{decode_utf8, valid_utf8};

use crate::state::{HelperState, MAX_CHILD_PROCS};
use crate::text::{opt_text, texts, trim, trimmed};

verus! {

/// How long to wait for the AeroSpace command line, in milliseconds.
pub const AEROSPACE_CMD_TIMEOUT_MS: u64 = 2000;

/// Where the AeroSpace command line is.
pub const AEROSPACE: &'static str = "/opt/homebrew/bin/aerospace";

/// A program to start, and its arguments.
pub struct Invocation {
    pub program: String,
    pub args: Vec<String>,
}

/// What there is to start.
#[verifier::ext_equal]
pub struct Command {
    pub program: Seq<char>,
    pub args: Seq<Seq<char>>,
}

impl View for Invocation {
    type V = Command;

    open spec fn view(&self) -> Command {
        Command { program: self.program@, args: texts(self.args@) }
    }
}

/// How a command went.
pub enum CommandOutcome {
    /// It could not be started.
    NotStarted,
    /// It ended in time, and its output was read.
    Finished { success: bool, stdout: Vec<u8> },
    /// It ended, or seems to have, and its output could not be read.
    Lost,
    /// It did not end in time.
    TimedOut,
}

/// What to make of a command.
pub struct CommandResult {
    /// Its output, if it is of use.
    pub output: Option<String>,
    /// Whether it still runs and has to be killed.
    pub kill: bool,
}

/// The text that bytes hold, with the replacement character for what is not UTF-8, as the
/// standard library decodes it.
pub uninterp spec fn lossy_text(bytes: Seq<u8>) -> Seq<char>;

/// Calls `String::from_utf8_lossy`.
///
/// Claimed: the text depends on the bytes alone, and where they are UTF-8 it is what they encode.
#[verifier::external_body]
fn decode_lossy(bytes: &[u8]) -> (text: String)
    ensures
        text@ == lossy_text(bytes@),
        valid_utf8(bytes@) ==> text@ == decode_utf8(bytes@),
{
    String::from_utf8_lossy(bytes).into_owned()
}

/// What a command's output text is worth: nothing unless the command succeeded, else the text
/// without the white space around it.
pub fn reply(success: bool, text: &str) -> (output: Option<String>)
    ensures
        opt_text(output) == if success {
            Some(trimmed(text@))
        } else {
            None
        },
{
    if success {
        Some(trim(text).to_owned())
    } else {
        None
    }
}

/// What to make of a call of the AeroSpace command line.
pub fn aerospace_cmd(outcome: CommandOutcome) -> (result: CommandResult)
    ensures
        opt_text(result.output) == match outcome {
            CommandOutcome::Finished { success: true, stdout } => Some(
                trimmed(lossy_text(stdout@)),
            ),
            _ => None,
        },
        outcome matches CommandOutcome::Finished { success: true, stdout } ==> valid_utf8(stdout@)
            ==> opt_text(result.output) == Some(trimmed(decode_utf8(stdout@))),
        result.kill == (outcome is TimedOut),
{
    match outcome {
        CommandOutcome::Finished { success, stdout } => {
            let text = decode_lossy(stdout.as_slice());
            CommandResult { output: reply(success, text.as_str()), kill: false }
        },
        CommandOutcome::TimedOut => CommandResult { output: None, kill: true },
        CommandOutcome::NotStarted | CommandOutcome::Lost => CommandResult {
            output: None,
            kill: false,
        },
    }
}

/// Decides on a fire-and-forget command: what to start, or nothing where as many child processes
/// run as may.
pub fn spawn_and_reap(program: &str, args: Vec<String>, state: &HelperState) -> (started: Option<
    Invocation,
>)
    ensures
        started is Some <==> state@.child_count < MAX_CHILD_PROCS,
        started matches Some(started) ==> started@ == (Command {
            program: program@,
            args: texts(args@),
        }),
{
    if state.may_spawn() {
        Some(Invocation { program: program.to_owned(), args })
    } else {
        None
    }
}

/// Decides on a fire-and-forget shell script.
pub fn spawn_bash_and_reap(script: &str, state: &HelperState) -> (started: Option<Invocation>)
    ensures
        started is Some <==> state@.child_count < MAX_CHILD_PROCS,
        started matches Some(started) ==> started@ == (Command {
            program: "/bin/bash"@,
            args: seq!["-c"@, script@],
        }),
{
    let mut args: Vec<String> = Vec::new();
    args.push("-c".to_owned());
    args.push(script.to_owned());
    assert(texts(args@) == seq!["-c"@, script@]);
    spawn_and_reap("/bin/bash", args, state)
}

/// What there is to start is the program and the arguments, one for one.
pub proof fn law_view_of_invocation(start: Invocation)
    ensures
        start@.program == start.program@,
        start@.args.len() == start.args.len(),
        forall|i: int| 0 <= i < start.args.len() ==> #[trigger] start@.args[i] == start.args[i]@,
{
}

/// The AeroSpace command line has two seconds, and stands where Homebrew puts it.
pub proof fn law_aerospace_called()
    ensures
        AEROSPACE_CMD_TIMEOUT_MS == 2 * 1000,
        AEROSPACE@ == "/opt/homebrew/bin/"@ + "aerospace"@,
{
    reveal_strlit("/opt/homebrew/bin/aerospace");
    reveal_strlit("/opt/homebrew/bin/");
    reveal_strlit("aerospace");
    assert(AEROSPACE@ =~= "/opt/homebrew/bin/"@ + "aerospace"@);
}

} // verus!
