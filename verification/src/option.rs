//! Run configuration.
use vstd::prelude::*;

verus! {

/// The resolved configuration of one run, shared read-only by every stage.
#[derive(Clone, Debug)]
pub struct Option {
    /// The files or directories to digest, or the listings to check.
    pub dest: Vec<String>,
    /// Check listings instead of writing one.
    pub check: bool,
    /// Speed level, 0 (exact, slowest) to 9 (fastest).
    pub speed: u64,
    /// Number of worker threads.
    pub thread: usize,
    /// Include files whose names start with a dot.
    pub hidden: bool,
    /// Follow symbolic links.
    pub link: bool,
    /// Do not report files that verify.
    pub quiet: bool,
    /// Report nothing; the exit code alone tells the result.
    pub status: bool,
    /// Treat a malformed line of a listing as fatal.
    pub strict: bool,
    /// Warn about malformed lines of a listing.
    pub warn: bool,
}

/// Whether a file name marks a hidden entry: it starts with a dot, and is
/// neither `.` itself nor starts with `./` or `..`.
pub open spec fn is_hidden(name: Seq<char>) -> bool {
    name.len() >= 2 && name[0] == '.' && name[1] != '/' && name[1] != '.'
}

impl Option {
    /// Whether the values lie in their ranges: a speed level of 0 to 9 and
    /// at least one worker thread.
    pub open spec fn is_valid(&self) -> bool {
        self.speed <= 9 && self.thread >= 1
    }

    /// Whether the values lie in their ranges.
    pub fn validate(&self) -> (valid: bool)
        ensures
            valid == self.is_valid(),
    {
        self.speed <= 9 && self.thread >= 1
    }

    /// Whether a directory entry is walked: symbolic links only when links
    /// are followed, hidden names only when hidden files are included. An
    /// entry whose name is not text is never taken for hidden.
    pub open spec fn admits_entry(&self, name: core::option::Option<Seq<char>>, symlink: bool) -> bool {
        (self.link || !symlink) && (self.hidden || !(name matches Some(text) && is_hidden(text)))
    }

    /// Whether a directory entry with this name is walked.
    pub fn admits(&self, name: core::option::Option<&str>, symlink: bool) -> (walked: bool)
        ensures
            walked == self.admits_entry(
                match name {
                    Some(text) => Some(text@),
                    None => None,
                },
                symlink,
            ),
    {
        if symlink && !self.link {
            return false;
        }
        if self.hidden {
            return true;
        }
        match name {
            Some(text) => !hidden_name(text),
            None => true,
        }
    }
}

/// Whether a file name marks a hidden entry.
pub fn hidden_name(name: &str) -> (hidden: bool)
    ensures
        hidden == is_hidden(name@),
{
    let mut first: core::option::Option<char> = None;
    let mut second: core::option::Option<char> = None;
    let mut seen: usize = 0;
    for c in it: name.chars()
        invariant
            it.seq() == name@,
            seen == if it.index() < 2 { it.index() } else { 2 },
            seen >= 1 ==> first == Some(name@[0]),
            seen >= 2 ==> second == Some(name@[1]),
            seen < 2 ==> second is None,
    {
        if seen == 0 {
            first = Some(c);
            seen = 1;
        } else if seen == 1 {
            second = Some(c);
            seen = 2;
        }
    }
    match (first, second) {
        (Some(a), Some(b)) => a == '.' && b != '/' && b != '.',
        _ => false,
    }
}

impl Default for Option {
    /// The configuration before any argument is read: no destinations,
    /// speed level 5, three threads, every switch off.
    fn default() -> (opt: Self)
        ensures
            opt.dest@.len() == 0,
            !opt.check,
            opt.speed == 5,
            opt.thread == 3,
            !opt.hidden,
            !opt.link,
            !opt.quiet,
            !opt.status,
            !opt.strict,
            !opt.warn,
            opt.is_valid(),
    {
        Option {
            dest: Vec::new(),
            check: false,
            speed: 5,
            thread: 3,
            hidden: false,
            link: false,
            quiet: false,
            status: false,
            strict: false,
            warn: false,
        }
    }
}

} // verus!
