//! One helper at a time: the process file, and what the helper says of itself.

use vstd::prelude::*;

use crate::number::{
    decimal, is_digit, law_decimal_read_back, lemma_decimal_digits, natural, read_u32,
    write_decimal,
};
use crate::text::{chain, is_space, listed, texts, trim, trimmed};
use crate::text_laws::law_trimmed_inside;

verus! {

/// The process that the process file names.
pub open spec fn pid_in(content: Seq<char>) -> Option<u32> {
    match natural(trimmed(content)) {
        Some(v) if v <= u32::MAX => Some(v as u32),
        _ => None,
    }
}

/// The process that the process file names, if there is a file and it names one.
pub fn recorded_pid(content: Option<&str>) -> (pid: Option<u32>)
    ensures
        pid == match content {
            Some(content) => pid_in(content@),
            None => None,
        },
{
    match content {
        Some(content) => read_u32(trim(content)),
        None => None,
    }
}

/// What to do about the process file.
pub enum PidDecision {
    /// Another helper runs: leave it to that one.
    Refuse,
    /// Write this text to the process file, and go on.
    Claim(String),
}

/// Whether this process is to be the helper. It is not where the process that the file names is
/// alive, and is another one.
pub fn write_pid_file(recorded: Option<u32>, alive: bool, my_pid: u32) -> (decision: PidDecision)
    ensures
        decision is Refuse <==> (recorded is Some && alive && recorded->0 != my_pid),
        decision matches PidDecision::Claim(text) ==> text@ == decimal(my_pid as nat),
{
    if let Some(old_pid) = recorded {
        if alive && old_pid != my_pid {
            return PidDecision::Refuse;
        }
    }
    PidDecision::Claim(write_decimal(my_pid as u64))
}

/// A helper that comes later reads from the process file the process number that was written
/// there.
pub proof fn law_pid_read_back(pid: u32)
    ensures
        pid_in(decimal(pid as nat)) == Some(pid),
{
    let text = decimal(pid as nat);
    law_decimal_read_back(pid as nat);
    lemma_decimal_digits(pid as nat);
    assert(is_digit(text[0]));
    assert(is_digit(text[text.len() - 1]));
    assert(trimmed(text) == text);
}

/// Whether the arguments ask for the version.
pub open spec fn asks_version(args: Seq<Seq<char>>) -> bool {
    args.contains("--version"@) || args.contains("-v"@)
}

/// Whether the arguments ask for the version.
pub fn wants_version(args: &Vec<String>) -> (yes: bool)
    ensures
        yes == asks_version(texts(args@)),
{
    listed(args, "--version") || listed(args, "-v")
}

/// The revision that the helper was built from, from the text that names it, if there is one;
/// `unknown` where there is none to name.
pub fn build_revision(hash: Option<&str>) -> (revision: String)
    ensures
        revision@ == if hash is Some && trimmed(hash->0@).len() > 0 {
            trimmed(hash->0@)
        } else {
            "unknown"@
        },
{
    match hash {
        Some(hash) => {
            let name = trim(hash);
            if name.is_empty() {
                "unknown".to_owned()
            } else {
                name.to_owned()
            }
        },
        None => "unknown".to_owned(),
    }
}

/// The helper's name, version and revision.
pub fn version_line(version: &str, revision: &str) -> (line: String)
    ensures
        line@ == "aerospace-helper "@ + version@ + " ("@ + revision@ + ")"@,
{
    let mut line = chain("aerospace-helper ", version);
    line.append(" (");
    line.append(revision);
    line.append(")");
    line
}

/// A process number is read with white space around it or without, up to the largest that there
/// is, and from no text that is no number.
pub proof fn law_pid_read(n: nat, before: Seq<char>, after: Seq<char>, other: Seq<char>)
    requires
        forall|k: int| 0 <= k < before.len() ==> is_space(#[trigger] before[k]),
        forall|k: int| 0 <= k < after.len() ==> is_space(#[trigger] after[k]),
    ensures
        n <= 0xffff_ffff ==> pid_in(before + decimal(n) + after) == Some(n as u32),
        n > 0xffff_ffff ==> pid_in(before + decimal(n) + after) is None,
        natural(trimmed(other)) is None ==> pid_in(other) is None,
{
    lemma_decimal_digits(n);
    law_decimal_read_back(n);
    let digits = decimal(n);
    assert(is_digit(digits[0]) && is_digit(digits[digits.len() - 1]));
    law_trimmed_inside(before, digits, after);
}

/// The version is asked for by one of two words, wherever among the arguments it stands, and by no
/// other.
pub proof fn law_version_asked(args: Seq<Seq<char>>)
    ensures
        asks_version(args) <==> exists|i: int|
            0 <= i < args.len() && (#[trigger] args[i] == "--version"@ || args[i] == "-v"@),
{
}

} // verus!
