use fastmd5::listing::Malformed;
use fastmd5::option::Option as Config;
use fastmd5::pipeline::{
    block_queue_capacity, queue_capacity, sampling_workers, DigestResult, Tally,
};
use fastmd5::strategy::Strategy;
use fastmd5::verification::{judge, on_malformed, report, task_for_line, Outcome};

const MD5_HELLO: &str = "5d41402abc4b2a76b9719d911017c592";
const MD5_WORLD: &str = "7d793037a0760186574b0282f2f435e7";

fn config(quiet: bool, status: bool) -> Config {
    Config { quiet, status, check: true, ..Config::default() }
}

fn check_line(line: &str, content: Option<&[u8]>) -> Outcome {
    let task = task_for_line(line).unwrap();
    let recomputed = content.map(|bytes| task.strategy.digest_bytes(bytes).unwrap());
    judge(recomputed.as_ref(), &task.expected)
}

#[test]
fn task_of_a_bare_line() {
    let task = task_for_line("5d41402abc4b2a76b9719d911017c592  a.txt").unwrap();
    assert_eq!(task.strategy, Strategy::PipelinedExact);
    assert_eq!(task.path, "a.txt");
    assert_eq!(task.expected, MD5_HELLO);
}

#[test]
fn task_of_tagged_lines() {
    let exact = task_for_line("abcs1 f").unwrap();
    assert_eq!(exact.strategy, Strategy::SinglePassExact);
    assert_eq!(exact.expected, "abc");
    let sampled = task_for_line("abcs7 f").unwrap();
    assert_eq!(sampled.strategy, Strategy::Sampled { speed: 7 });
    assert_eq!(sampled.path, "f");
}

#[test]
fn task_of_a_malformed_line() {
    assert_eq!(task_for_line("nottahexdigest").unwrap_err(), Malformed::MissingPath);
    assert_eq!(task_for_line("abcsx f").unwrap_err(), Malformed::BadSpeed);
}

#[test]
fn judging_is_tri_state() {
    let stored = MD5_HELLO.to_string();
    assert_eq!(judge(Some(&MD5_HELLO.to_string()), &stored), Outcome::Match);
    assert_eq!(judge(Some(&MD5_WORLD.to_string()), &stored), Outcome::Mismatch);
    assert_eq!(judge(None, &stored), Outcome::IOFailure);
    assert_eq!(judge(Some(&String::new()), &String::new()), Outcome::Match);
}

#[test]
fn judging_tells_upper_from_lower_case() {
    let stored = MD5_HELLO.to_uppercase();
    assert_eq!(judge(Some(&MD5_HELLO.to_string()), &stored), Outcome::Mismatch);
}

#[test]
fn report_lines() {
    assert_eq!(report("a.txt", Outcome::Match, false, false), Some("a.txt: OK".to_string()));
    assert_eq!(report("a.txt", Outcome::Mismatch, false, false), Some("a.txt: FAILED".to_string()));
    assert_eq!(
        report("a.txt", Outcome::IOFailure, false, false),
        Some("a.txt: FAILED open or read".to_string())
    );
}

#[test]
fn quiet_leaves_out_matches_only() {
    assert_eq!(report("a.txt", Outcome::Match, true, false), None);
    assert_eq!(report("a.txt", Outcome::Mismatch, true, false), Some("a.txt: FAILED".to_string()));
    assert_eq!(
        report("a.txt", Outcome::IOFailure, true, false),
        Some("a.txt: FAILED open or read".to_string())
    );
}

#[test]
fn status_prints_nothing() {
    for quiet in [false, true] {
        for outcome in [Outcome::Match, Outcome::Mismatch, Outcome::IOFailure] {
            assert_eq!(report("a.txt", outcome, quiet, true), None);
        }
    }
}

#[test]
fn malformed_line_is_skipped_unless_strict() {
    let line = "nottahexdigest";
    assert_eq!(task_for_line(line).unwrap_err(), Malformed::MissingPath);
    let lenient = on_malformed(line, false);
    assert_eq!(lenient.message, "Improperly formatted checksum line: nottahexdigest");
    assert!(!lenient.stop);
    let strict = on_malformed(line, true);
    assert_eq!(strict.message, "Improperly formatted checksum line: nottahexdigest");
    assert!(strict.stop);
    let next = task_for_line("5d41402abc4b2a76b9719d911017c592  a.txt").unwrap();
    assert_eq!(next.path, "a.txt");
}

#[test]
fn tally_starts_clean_and_remembers_failures() {
    let opt = config(false, false);
    let mut tally = Tally::new();
    assert!(!tally.failed());
    assert_eq!(tally.exit_code(), 0);
    let ok = tally.take_outcome(&opt, "a", Outcome::Match);
    assert_eq!(ok.print, Some("a: OK".to_string()));
    assert!(!ok.stop);
    assert!(!tally.failed());
    let bad = tally.take_outcome(&opt, "b", Outcome::Mismatch);
    assert_eq!(bad.print, Some("b: FAILED".to_string()));
    assert!(!bad.stop);
    assert!(tally.failed());
    let again = tally.take_outcome(&opt, "c", Outcome::Match);
    assert_eq!(again.print, Some("c: OK".to_string()));
    assert!(tally.failed());
    assert_eq!(tally.exit_code(), 1);
}

#[test]
fn tally_counts_unreadable_files_as_failures() {
    let opt = config(true, false);
    let mut tally = Tally::new();
    let step = tally.take_outcome(&opt, "gone", Outcome::IOFailure);
    assert_eq!(step.print, Some("gone: FAILED open or read".to_string()));
    assert!(!step.stop);
    assert!(tally.failed());
}

#[test]
fn status_stops_at_the_first_failure() {
    let opt = config(false, true);
    let mut tally = Tally::new();
    let ok = tally.take_outcome(&opt, "a", Outcome::Match);
    assert_eq!(ok.print, None);
    assert!(!ok.stop);
    let bad = tally.take_outcome(&opt, "b", Outcome::Mismatch);
    assert_eq!(bad.print, None);
    assert!(bad.stop);
    assert_eq!(tally.exit_code(), 1);
    let mut other = Tally::new();
    assert!(other.take_outcome(&opt, "c", Outcome::IOFailure).stop);
}

#[test]
fn digest_results_and_their_lines() {
    let ok = DigestResult::new("a.txt".to_string(), Some(MD5_HELLO.to_string()), 0);
    assert!(!ok.is_failure());
    assert_eq!(ok.speed_tag, None);
    assert_eq!(ok.line(), "5d41402abc4b2a76b9719d911017c592  a.txt");
    let fast = DigestResult::new("a.txt".to_string(), Some("abcd".to_string()), 1);
    assert_eq!(fast.speed_tag, None);
    assert_eq!(fast.line(), "abcd  a.txt");
    let sampled = DigestResult::new("a.txt".to_string(), Some("abcd".to_string()), 5);
    assert_eq!(sampled.speed_tag, Some(5));
    assert_eq!(sampled.line(), "abcds5  a.txt");
    let gone = DigestResult::new("a.txt".to_string(), None, 5);
    assert!(gone.is_failure());
    assert_eq!(gone.digest, "");
    assert_eq!(gone.line(), "a.txt: FAILED open or read");
}

#[test]
fn tally_of_generation_remembers_unreadable_files() {
    let mut tally = Tally::new();
    let ok = DigestResult::new("a".to_string(), Some("abcd".to_string()), 3);
    assert_eq!(tally.take_digest(&ok), "abcds3  a");
    assert!(!tally.failed());
    let gone = DigestResult::new("b".to_string(), None, 3);
    assert_eq!(tally.take_digest(&gone), "b: FAILED open or read");
    assert!(tally.failed());
    assert_eq!(tally.take_digest(&ok), "abcds3  a");
    assert!(tally.failed());
    assert_eq!(tally.exit_code(), 1);
}

#[test]
fn queues_are_sized_by_the_workers() {
    assert_eq!(queue_capacity(0), 0);
    assert_eq!(queue_capacity(3), 12);
    assert_eq!(queue_capacity(usize::MAX), usize::MAX);
    assert_eq!(sampling_workers(0), 1);
    assert_eq!(sampling_workers(1), 1);
    assert_eq!(sampling_workers(8), 8);
    assert_eq!(block_queue_capacity(1), 2);
    assert_eq!(block_queue_capacity(8), 16);
    assert_eq!(block_queue_capacity(usize::MAX), usize::MAX);
}

#[test]
fn two_files_at_speed_zero_give_two_lines() {
    let files: [(&str, &[u8]); 2] = [("dir/a.txt", b"hello"), ("dir/b.txt", b"world")];
    let mut tally = Tally::new();
    let mut lines = Vec::new();
    for (path, content) in files.iter().rev() {
        let digest = Strategy::for_speed(0).digest_bytes(content).ok();
        lines.push(tally.take_digest(&DigestResult::new(path.to_string(), digest, 0)));
    }
    lines.sort();
    assert_eq!(
        lines,
        vec![
            "5d41402abc4b2a76b9719d911017c592  dir/a.txt".to_string(),
            "7d793037a0760186574b0282f2f435e7  dir/b.txt".to_string(),
        ]
    );
    assert!(!tally.failed());
}

#[test]
fn listing_of_unchanged_files_verifies() {
    let files: [(&str, Vec<u8>); 3] =
        [("dir/a.txt", b"hello".to_vec()), ("dir/b.txt", b"world".to_vec()), ("c", vec![9u8; 70_000])];
    for speed in [0usize, 2, 3, 5, 9] {
        let opt = config(false, false);
        let mut tally = Tally::new();
        for (path, content) in files.iter() {
            let digest = Strategy::for_speed(speed).digest_bytes(content).ok();
            let line = DigestResult::new(path.to_string(), digest, speed).line();
            let outcome = check_line(&line, Some(content));
            assert_eq!(outcome, Outcome::Match);
            let step = tally.take_outcome(&opt, path, outcome);
            assert_eq!(step.print, Some(format!("{}: OK", path)));
        }
        assert!(!tally.failed());
        assert_eq!(tally.exit_code(), 0);
    }
}

#[test]
fn listing_written_at_speed_one_is_read_as_speed_zero() {
    let digest = Strategy::for_speed(1).digest_bytes(b"hello").ok();
    let line = DigestResult::new("a.txt".to_string(), digest, 1).line();
    assert_eq!(task_for_line(&line).unwrap().strategy, Strategy::PipelinedExact);
    assert_eq!(check_line(&line, Some(b"hello")), Outcome::Mismatch);
}

#[test]
fn tagged_exact_line_verifies_with_the_single_pass_digest() {
    let digest = Strategy::SinglePassExact.digest_bytes(b"hello").unwrap();
    let line = format!("{}s1  a.txt", digest);
    assert_eq!(check_line(&line, Some(b"hello")), Outcome::Match);
    assert_eq!(check_line(&line, Some(b"hellp")), Outcome::Mismatch);
}

#[test]
fn changed_and_missing_files_are_told_apart() {
    let line = "5d41402abc4b2a76b9719d911017c592  a.txt";
    assert_eq!(check_line(line, Some(b"hello")), Outcome::Match);
    assert_eq!(check_line(line, Some(b"hello!")), Outcome::Mismatch);
    assert_eq!(check_line(line, None), Outcome::IOFailure);
}
