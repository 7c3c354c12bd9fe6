//! Checking a listing: what each of its lines asks for, how the recomputed
//! digest is judged, and what is reported.
use crate::encoding::{hex_chars, is_hex_digit, lemma_hex_chars_are_digits};
use crate::listing::{
    generated_line, is_space, lemma_line_round_trip, parse_line, read_line, EntryView, Malformed,
};
use crate::strategy::{strategy_of_speed, strategy_of_tag, tag_of_speed, Strategy};
use vstd::prelude::*;
use vstd::string::StringExecFns;

verus! {

/// What checking one file comes to.
#[derive(Clone, Copy, Debug, PartialEq, Eq, Structural)]
pub enum Outcome {
    /// The recomputed digest is the stored one.
    Match,
    /// The recomputed digest differs from the stored one.
    Mismatch,
    /// The file could not be opened or read.
    IOFailure,
}

/// The work that one line of a listing asks for.
#[derive(Debug)]
pub struct CheckTask {
    /// How to recompute the digest.
    pub strategy: Strategy,
    /// The file to recompute it of.
    pub path: String,
    /// The digest that the listing holds for the file.
    pub expected: String,
}

/// The task that an entry asks for.
pub open spec fn task_of(entry: EntryView) -> (Strategy, Seq<char>, Seq<char>) {
    (strategy_of_tag(entry.speed_tag), entry.path, entry.digest_hex)
}

/// Reads a line of a listing as a task: the strategy that its tag
/// selects, the path, and the stored digest.
pub fn task_for_line(line: &str) -> (task: Result<CheckTask, Malformed>)
    ensures
        match task {
            Ok(task) => read_line(line@) matches Ok(entry) && task_of(entry) == (
                task.strategy,
                task.path@,
                task.expected@,
            ),
            Err(why) => read_line(line@) == Err::<EntryView, Malformed>(why),
        },
{
    match parse_line(line) {
        Ok(entry) => Ok(
            CheckTask {
                strategy: Strategy::for_tag(entry.speed_tag),
                path: entry.path,
                expected: entry.digest_hex,
            },
        ),
        Err(why) => Err(why),
    }
}

/// The outcome for a file whose digest was recomputed as `recomputed`, or
/// could not be, against the stored digest. Digests are equal when their
/// texts are, letter for letter; upper and lower case differ.
pub open spec fn verdict(recomputed: Option<Seq<char>>, stored: Seq<char>) -> Outcome {
    match recomputed {
        None => Outcome::IOFailure,
        Some(digest) => if digest == stored {
            Outcome::Match
        } else {
            Outcome::Mismatch
        },
    }
}

/// Judges a recomputed digest, or none where the file could not be read,
/// against the stored one.
pub fn judge(recomputed: Option<&String>, stored: &String) -> (outcome: Outcome)
    ensures
        outcome == verdict(
            match recomputed {
                Some(digest) => Some(digest@),
                None => None,
            },
            stored@,
        ),
{
    match recomputed {
        None => Outcome::IOFailure,
        Some(digest) => if *digest == *stored {
            Outcome::Match
        } else {
            Outcome::Mismatch
        },
    }
}

/// The line that reports an outcome for a path.
pub open spec fn report_text(path: Seq<char>, outcome: Outcome) -> Seq<char> {
    match outcome {
        Outcome::Match => path + ": OK"@,
        Outcome::Mismatch => path + ": FAILED"@,
        Outcome::IOFailure => path + ": FAILED open or read"@,
    }
}

/// Whether an outcome is reported at all: nothing is under `status`, and
/// a match is not under `quiet`.
pub open spec fn is_reported(outcome: Outcome, quiet: bool, status: bool) -> bool {
    !status && !(quiet && outcome == Outcome::Match)
}

/// The line to print for an outcome, if any.
pub fn report(path: &str, outcome: Outcome, quiet: bool, status: bool) -> (line: Option<String>)
    ensures
        line is Some == is_reported(outcome, quiet, status),
        line matches Some(text) ==> text@ == report_text(path@, outcome),
{
    if status {
        return None;
    }
    let mut text = String::from_str(path);
    match outcome {
        Outcome::Match => {
            if quiet {
                return None;
            }
            text.append(": OK");
        },
        Outcome::Mismatch => {
            text.append(": FAILED");
        },
        Outcome::IOFailure => {
            text.append(": FAILED open or read");
        },
    }
    Some(text)
}

/// What to do about a malformed line.
#[derive(Debug)]
pub struct Diagnosis {
    /// The complaint to write to the error stream.
    pub message: String,
    /// Whether the whole run ends at once, with failure.
    pub stop: bool,
}

/// Answers a malformed line: always a complaint that quotes the line, and
/// the end of the run under `strict`; otherwise the line is passed over.
pub fn on_malformed(line: &str, strict: bool) -> (diagnosis: Diagnosis)
    ensures
        diagnosis.message@ == "Improperly formatted checksum line: "@ + line@,
        diagnosis.stop == strict,
{
    let mut message = String::from_str("Improperly formatted checksum line: ");
    message.append(line);
    Diagnosis { message, stop: strict }
}

/// The line written for a file at a speed level, read back and judged
/// against the digest of the unchanged file, is a match and is reported
/// as OK. This holds of every path that is one token, and of every speed
/// level but 1: a digest of level 1 is written without its level and read
/// back as a digest of level 0.
pub proof fn lemma_round_trip(path: Seq<char>, digest: Seq<u8>, speed: usize)
    requires
        path.len() > 0,
        forall|i: int| 0 <= i < path.len() ==> !is_space(#[trigger] path[i]),
        digest.len() > 0,
        speed != 1,
    ensures
        read_line(generated_line(path, hex_chars(digest), tag_of_speed(speed))) matches Ok(entry)
            && task_of(entry) == (strategy_of_speed(speed), path, hex_chars(digest)) && verdict(
            Some(hex_chars(digest)),
            entry.digest_hex,
        ) == Outcome::Match && report_text(entry.path, Outcome::Match) == path + ": OK"@,
{
    let text = hex_chars(digest);
    assert forall|i: int| 0 <= i < text.len() implies is_hex_digit(#[trigger] text[i]) by {
        lemma_hex_chars_are_digits(digest, i);
    }
    lemma_line_round_trip(path, text, tag_of_speed(speed));
}

} // verus!
