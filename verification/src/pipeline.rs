//! The stages around the digest workers: what enters their queues, what
//! the consumer prints for each result, and the flag it keeps.
use crate::listing::{digest_line, generated_line};
use crate::option::Option as Config;
use crate::strategy::{speed_tag, tag_of_speed};
use crate::verification::{is_reported, report, report_text, Outcome};
use vstd::prelude::*;

verus! {

/// Bytes that the reader of an exact digest hands to the hasher at a time:
/// 2 MiB.
pub const CHUNK_SIZE: usize = 2097152;

/// Number of chunks that may wait between the reader and the hasher.
pub const HANDOFF_CAPACITY: usize = 4;

/// The result of digesting one file. An empty digest marks a file that
/// could not be opened or read.
#[derive(Debug)]
pub struct DigestResult {
    pub path: String,
    pub digest: String,
    pub speed_tag: Option<usize>,
}

impl DigestResult {
    /// The result for `path` digested at `speed`: the digest, or the empty
    /// mark of failure where there is none.
    pub fn new(path: String, digest: Option<String>, speed: usize) -> (result: Self)
        ensures
            result.path@ == path@,
            result.speed_tag == tag_of_speed(speed),
            match digest {
                Some(text) => result.digest@ == text@,
                None => result.digest@.len() == 0,
            },
    {
        let digest = match digest {
            Some(text) => text,
            None => String::new(),
        };
        DigestResult { path, digest, speed_tag: speed_tag(speed) }
    }

    /// Whether the file could not be digested.
    pub fn is_failure(&self) -> (failed: bool)
        ensures
            failed == (self.digest@.len() == 0),
    {
        self.digest.as_str().is_empty()
    }

    /// The line to print for this result.
    pub fn line(&self) -> (line: String)
        ensures
            line@ == generated_line(self.path@, self.digest@, self.speed_tag),
    {
        digest_line(self.path.as_str(), self.digest.as_str(), self.speed_tag)
    }
}

/// What the consumer does with one checked file.
#[derive(Debug)]
pub struct Step {
    /// The line to print, if any.
    pub print: Option<String>,
    /// Whether the whole run ends at once, with failure.
    pub stop: bool,
}

/// The consumer's running account: whether any file has failed so far.
#[derive(Debug)]
pub struct Tally {
    failed: bool,
}

impl Tally {
    /// Whether any file taken so far has failed.
    pub closed spec fn has_failed(&self) -> bool {
        self.failed
    }

    /// An account of no files.
    pub fn new() -> (tally: Self)
        ensures
            !tally.has_failed(),
    {
        Tally { failed: false }
    }

    /// Whether any file taken so far has failed.
    pub fn failed(&self) -> (failed: bool)
        ensures
            failed == self.has_failed(),
    {
        self.failed
    }

    /// Takes the result of digesting one file: gives its line and
    /// remembers a failure.
    pub fn take_digest(&mut self, result: &DigestResult) -> (line: String)
        ensures
            line@ == generated_line(result.path@, result.digest@, result.speed_tag),
            final(self).has_failed() == (old(self).has_failed() || result.digest@.len() == 0),
    {
        if result.is_failure() {
            self.failed = true;
        }
        result.line()
    }

    /// Takes the outcome of checking one file: gives the line to print, if
    /// any, remembers anything but a match as a failure, and under
    /// `status` ends the run at the first such outcome.
    pub fn take_outcome(&mut self, opt: &Config, path: &str, outcome: Outcome) -> (step: Step)
        ensures
            final(self).has_failed() == (old(self).has_failed() || outcome != Outcome::Match),
            step.stop == (opt.status && outcome != Outcome::Match),
            step.print is Some == is_reported(outcome, opt.quiet, opt.status),
            step.print matches Some(text) ==> text@ == report_text(path@, outcome),
    {
        let failed = match outcome {
            Outcome::Match => false,
            _ => true,
        };
        if failed {
            self.failed = true;
        }
        Step { print: report(path, outcome, opt.quiet, opt.status), stop: opt.status && failed }
    }

    /// The exit code of a run that ends with this account: 0 if every file
    /// was digested or verified, 1 if any failed.
    pub fn exit_code(&self) -> (code: i32)
        ensures
            code == if self.has_failed() { 1i32 } else { 0i32 },
    {
        if self.failed {
            1
        } else {
            0
        }
    }
}

/// Capacity of the queues before and behind the workers: four entries per
/// worker, as many as fit.
pub fn queue_capacity(threads: usize) -> (capacity: usize)
    ensures
        capacity == if threads * 4 <= usize::MAX { threads * 4 } else { usize::MAX as int },
{
    match threads.checked_mul(4) {
        Some(capacity) => capacity,
        None => usize::MAX,
    }
}

/// Number of workers that read the blocks of one file: the configured
/// number of threads, and at least one.
pub fn sampling_workers(threads: usize) -> (workers: usize)
    ensures
        workers == if threads == 0 { 1 } else { threads as int },
{
    if threads == 0 {
        1
    } else {
        threads
    }
}

/// Capacity of the queue of block digests: two entries per worker, as
/// many as fit.
pub fn block_queue_capacity(workers: usize) -> (capacity: usize)
    ensures
        capacity == if workers * 2 <= usize::MAX { workers * 2 } else { usize::MAX as int },
{
    match workers.checked_mul(2) {
        Some(capacity) => capacity,
        None => usize::MAX,
    }
}

} // verus!
