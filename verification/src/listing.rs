//! The checksum listing: how one of its lines is written and read.
//!
//! A line holds a tag and a path, separated by white space. The tag is a
//! bare digest in hexadecimal, or a digest followed by `s` and the speed
//! level in decimal digits.
use crate::encoding::is_hex_digit;
use vstd::prelude::*;
use vstd::string::{StrSliceExecFns, StringExecFns};

verus! {

/// Text as a sequence of characters.
pub type Text = Seq<char>;

/// Whether `c` is white space: a character with the Unicode property
/// `White_Space`.
pub open spec fn is_space(c: char) -> bool {
    let code = c as u32;
    ||| 0x09 <= code <= 0x0d
    ||| code == 0x20
    ||| code == 0x85
    ||| code == 0xa0
    ||| code == 0x1680
    ||| 0x2000 <= code <= 0x200a
    ||| code == 0x2028
    ||| code == 0x2029
    ||| code == 0x202f
    ||| code == 0x205f
    ||| code == 0x3000
}

/// Whether `c` is white space.
pub fn is_whitespace(c: char) -> (space: bool)
    ensures
        space == is_space(c),
{
    let code: u32 = c as u32;
    (0x09 <= code && code <= 0x0d) || code == 0x20 || code == 0x85 || code == 0xa0 || code
        == 0x1680 || (0x2000 <= code && code <= 0x200a) || code == 0x2028 || code == 0x2029
        || code == 0x202f || code == 0x205f || code == 0x3000
}

/// Whether a line holds nothing but white space.
pub open spec fn is_blank(line: Seq<char>) -> bool {
    forall|i: int| 0 <= i < line.len() ==> is_space(#[trigger] line[i])
}

/// The first position at or after `from` whose character is white space
/// (`spaces` false) or is not (`spaces` true); the length of the line if
/// there is none.
pub open spec fn scan(line: Seq<char>, from: int, spaces: bool) -> int
    decreases line.len() - from,
{
    if from < 0 || from >= line.len() {
        line.len() as int
    } else if is_space(line[from]) == spaces {
        scan(line, from + 1, spaces)
    } else {
        from
    }
}

/// Where the first token of a line starts.
pub open spec fn tag_start(line: Seq<char>) -> int {
    scan(line, 0, true)
}

/// Where the first token of a line ends.
pub open spec fn tag_end(line: Seq<char>) -> int {
    scan(line, tag_start(line), false)
}

/// Where the second token of a line starts.
pub open spec fn path_start(line: Seq<char>) -> int {
    scan(line, tag_end(line), true)
}

/// Where the second token of a line ends.
pub open spec fn path_end(line: Seq<char>) -> int {
    scan(line, path_start(line), false)
}

/// The first token of a line: its tag.
pub open spec fn tag_token(line: Seq<char>) -> Seq<char> {
    line.subrange(tag_start(line), tag_end(line))
}

/// The second token of a line: its path.
pub open spec fn path_token(line: Seq<char>) -> Seq<char> {
    line.subrange(path_start(line), path_end(line))
}

/// The position of the last `c` in `text`, or -1 if it holds none.
pub open spec fn last_index_of(text: Seq<char>, c: char) -> int
    decreases text.len(),
{
    if text.len() == 0 {
        -1
    } else if text.last() == c {
        text.len() - 1
    } else {
        last_index_of(text.drop_last(), c)
    }
}

/// Whether `c` is one of the decimal digits `0` to `9`.
pub open spec fn is_digit(c: char) -> bool {
    '0' <= c && c <= '9'
}

/// Whether `text` holds decimal digits only.
pub open spec fn all_digits(text: Seq<char>) -> bool {
    forall|i: int| 0 <= i < text.len() ==> is_digit(#[trigger] text[i])
}

/// The number that the decimal digits of `text` write.
pub open spec fn digits_value(text: Seq<char>) -> nat
    decreases text.len(),
{
    if text.len() == 0 {
        0
    } else {
        (digits_value(text.drop_last()) * 10 + (text.last() as u32 - '0' as u32)) as nat
    }
}

/// The speed level that a tag's suffix writes: its value if it is one or
/// more decimal digits and fits the machine's word, else none.
pub open spec fn speed_of_suffix(suffix: Seq<char>) -> Option<usize> {
    if suffix.len() > 0 && all_digits(suffix) && digits_value(suffix) <= usize::MAX {
        Some(digits_value(suffix) as usize)
    } else {
        None
    }
}

/// Why a line of a listing cannot be read.
#[derive(Clone, Copy, Debug, PartialEq, Eq, Structural)]
pub enum Malformed {
    /// The line holds fewer than two tokens.
    MissingPath,
    /// What follows the last `s` of the tag is not a number.
    BadSpeed,
}

/// One entry of a listing, as read from its line.
#[derive(Debug)]
pub struct ChecksumLine {
    pub digest_hex: String,
    pub speed_tag: Option<usize>,
    pub path: String,
}

/// What a `ChecksumLine` holds, as plain values.
pub struct EntryView {
    pub digest_hex: Seq<char>,
    pub speed_tag: Option<usize>,
    pub path: Seq<char>,
}

impl View for ChecksumLine {
    type V = EntryView;

    open spec fn view(&self) -> EntryView {
        EntryView { digest_hex: self.digest_hex@, speed_tag: self.speed_tag, path: self.path@ }
    }
}

/// What a tag and a path are read as. A tag without `s` is a bare digest.
/// Otherwise what stands before its last `s` is the digest, and what
/// follows it must write the speed level.
pub open spec fn read_tag(tag: Seq<char>, path: Seq<char>) -> Result<EntryView, Malformed> {
    let mark = last_index_of(tag, 's');
    if mark < 0 {
        Ok(EntryView { digest_hex: tag, speed_tag: None, path })
    } else {
        match speed_of_suffix(tag.subrange(mark + 1, tag.len() as int)) {
            Some(speed) => Ok(
                EntryView { digest_hex: tag.subrange(0, mark), speed_tag: Some(speed), path },
            ),
            None => Err(Malformed::BadSpeed),
        }
    }
}

/// What a line is read as: its first two tokens as tag and path. A line
/// with fewer than two tokens is malformed; tokens after the second are
/// not looked at.
pub open spec fn read_line(line: Seq<char>) -> Result<EntryView, Malformed> {
    if path_start(line) >= line.len() {
        Err(Malformed::MissingPath)
    } else {
        read_tag(tag_token(line), path_token(line))
    }
}

/// The characters of `text`, one by one.
fn chars_of(text: &str) -> (chars: Vec<char>)
    ensures
        chars@ == text@,
{
    let mut chars: Vec<char> = Vec::new();
    for c in it: text.chars()
        invariant
            it.seq() == text@,
            chars@ == text@.take(it.index()),
    {
        chars.push(c);
        assert(text@.take(it.index() + 1) =~= text@.take(it.index()).push(c));
    }
    assert(text@.take(text@.len() as int) =~= text@);
    chars
}

/// Whether a line holds nothing but white space; such lines are passed over.
pub fn is_blank_line(line: &str) -> (blank: bool)
    ensures
        blank == is_blank(line@),
{
    let chars = chars_of(line);
    let mut i: usize = 0;
    while i < chars.len()
        invariant
            i <= chars@.len(),
            chars@ == line@,
            forall|j: int| 0 <= j < i ==> is_space(#[trigger] line@[j]),
        decreases chars@.len() - i,
    {
        if !is_whitespace(chars[i]) {
            return false;
        }
        i = i + 1;
    }
    true
}

/// A scan stops on the line, at or after its start; it passes over
/// characters of the one kind only, and stops before a character of the
/// other kind or at the end of the line.
pub proof fn lemma_scan_stops(line: Text, from: int, spaces: bool)
    requires
        0 <= from <= line.len(),
    ensures
        from <= scan(line, from, spaces) <= line.len(),
        forall|i: int| from <= i < scan(line, from, spaces) ==> is_space(#[trigger] line[i]) == spaces,
        scan(line, from, spaces) < line.len() ==> is_space(line[scan(line, from, spaces)])
            != spaces,
    decreases line.len() - from,
{
    if from < line.len() && is_space(line[from]) == spaces {
        lemma_scan_stops(line, from + 1, spaces);
    }
}

/// How a line with a path is laid out: white space, the tag, white space,
/// the path, and then the end of the line or white space and more. Tag and
/// path are not empty and hold no white space.
pub proof fn lemma_line_layout(line: Text)
    requires
        path_start(line) < line.len(),
    ensures
        0 <= tag_start(line) < tag_end(line) < path_start(line) < path_end(line) <= line.len(),
        forall|i: int| 0 <= i < tag_start(line) ==> is_space(#[trigger] line[i]),
        forall|i: int| tag_start(line) <= i < tag_end(line) ==> !is_space(#[trigger] line[i]),
        forall|i: int| tag_end(line) <= i < path_start(line) ==> is_space(#[trigger] line[i]),
        forall|i: int| path_start(line) <= i < path_end(line) ==> !is_space(#[trigger] line[i]),
        path_end(line) < line.len() ==> is_space(line[path_end(line)]),
{
    lemma_scan_stops(line, 0, true);
    lemma_scan_stops(line, tag_start(line), false);
    lemma_scan_stops(line, tag_end(line), true);
    lemma_scan_stops(line, path_start(line), false);
}

fn scan_from(chars: &Vec<char>, from: usize, spaces: bool) -> (stop: usize)
    requires
        from <= chars@.len(),
    ensures
        stop == scan(chars@, from as int, spaces),
        from <= stop <= chars@.len(),
{
    let mut i: usize = from;
    while i < chars.len() && is_whitespace(chars[i]) == spaces
        invariant
            from <= i <= chars@.len(),
            scan(chars@, from as int, spaces) == scan(chars@, i as int, spaces),
        decreases chars@.len() - i,
    {
        i = i + 1;
    }
    i
}

fn last_mark(chars: &Vec<char>, from: usize, to: usize) -> (mark: Option<usize>)
    requires
        from <= to <= chars@.len(),
    ensures
        match mark {
            Some(at) => from <= at < to && at - from == last_index_of(
                chars@.subrange(from as int, to as int),
                's',
            ),
            None => last_index_of(chars@.subrange(from as int, to as int), 's') == -1,
        },
{
    let ghost tag = chars@.subrange(from as int, to as int);
    let mut i: usize = to;
    assert(tag.take(tag.len() as int) =~= tag);
    while i > from
        invariant
            from <= i <= to <= chars@.len(),
            tag == chars@.subrange(from as int, to as int),
            last_index_of(tag, 's') == last_index_of(tag.take(i - from), 's'),
        decreases i - from,
    {
        let ghost upto = tag.take(i - from);
        if chars[i - 1] == 's' {
            assert(upto.last() == 's');
            return Some(i - 1);
        }
        assert(upto.last() != 's');
        assert(upto.drop_last() =~= tag.take(i - 1 - from));
        i = i - 1;
    }
    None
}

/// The value of a longer run of digits is at least that of its beginning.
proof fn lemma_digits_grow(text: Seq<char>, k: int)
    requires
        0 <= k <= text.len(),
        all_digits(text),
    ensures
        digits_value(text.take(k)) <= digits_value(text),
    decreases text.len() - k,
{
    if k < text.len() {
        let longer = text.take(k + 1);
        assert(longer.drop_last() =~= text.take(k));
        assert(is_digit(text[k]));
        assert(longer.last() == text[k]);
        lemma_digits_grow(text, k + 1);
    } else {
        assert(text.take(k) =~= text);
    }
}

fn read_speed(chars: &Vec<char>, from: usize, to: usize) -> (speed: Option<usize>)
    requires
        from <= to <= chars@.len(),
    ensures
        speed == speed_of_suffix(chars@.subrange(from as int, to as int)),
{
    let ghost suffix = chars@.subrange(from as int, to as int);
    if from == to {
        return None;
    }
    let mut value: usize = 0;
    let mut i: usize = from;
    assert(suffix.take(0) =~= Seq::<char>::empty());
    while i < to
        invariant
            from <= i <= to <= chars@.len(),
            suffix == chars@.subrange(from as int, to as int),
            all_digits(suffix.take(i - from)),
            value == digits_value(suffix.take(i - from)),
        decreases to - i,
    {
        let c: char = chars[i];
        let ghost longer = suffix.take(i + 1 - from);
        proof {
            assert(longer.drop_last() =~= suffix.take(i - from));
            assert(longer.last() == c);
        }
        if !('0' <= c && c <= '9') {
            assert(!is_digit(suffix[i - from]));
            return None;
        }
        assert(all_digits(longer)) by {
            assert forall|j: int| 0 <= j < longer.len() implies is_digit(#[trigger] longer[j]) by {
                if j < i - from {
                    assert(longer[j] == suffix.take(i - from)[j]);
                }
            }
        }
        let digit: usize = (c as u32 - '0' as u32) as usize;
        let next: Option<usize> = match value.checked_mul(10) {
            Some(tens) => tens.checked_add(digit),
            None => None,
        };
        match next {
            Some(sum) => {
                value = sum;
            },
            None => {
                proof {
                    assert(digits_value(longer) > usize::MAX);
                    if all_digits(suffix) {
                        lemma_digits_grow(suffix, i + 1 - from);
                    }
                }
                return None;
            },
        }
        i = i + 1;
    }
    assert(suffix.take(to - from) =~= suffix);
    Some(value)
}

/// Reads one line of a listing: its first token as tag, its second as
/// path, and the tag as a digest with or without a speed level.
pub fn parse_line(line: &str) -> (parsed: Result<ChecksumLine, Malformed>)
    ensures
        match parsed {
            Ok(entry) => read_line(line@) == Ok::<EntryView, Malformed>(entry@),
            Err(why) => read_line(line@) == Err::<EntryView, Malformed>(why),
        },
{
    let chars = chars_of(line);
    let a: usize = scan_from(&chars, 0, true);
    let b: usize = scan_from(&chars, a, false);
    let c: usize = scan_from(&chars, b, true);
    if c >= chars.len() {
        return Err(Malformed::MissingPath);
    }
    let d: usize = scan_from(&chars, c, false);
    let path = line.substring_char(c, d).to_owned();
    let ghost tag = line@.subrange(a as int, b as int);
    match last_mark(&chars, a, b) {
        None => {
            let digest_hex = line.substring_char(a, b).to_owned();
            Ok(ChecksumLine { digest_hex, speed_tag: None, path })
        },
        Some(at) => {
            assert(chars@.subrange(at + 1, b as int) =~= tag.subrange(
                at - a + 1,
                tag.len() as int,
            ));
            assert(line@.subrange(a as int, at as int) =~= tag.subrange(0, at - a));
            match read_speed(&chars, at + 1, b) {
                Some(speed) => {
                    let digest_hex = line.substring_char(a, at).to_owned();
                    Ok(ChecksumLine { digest_hex, speed_tag: Some(speed), path })
                },
                None => Err(Malformed::BadSpeed),
            }
        },
    }
}

/// The decimal digit that writes `d`.
pub open spec fn digit_char(d: int) -> char {
    ('0' as u32 + d) as char
}

/// `n` in decimal digits, without leading zeros.
pub open spec fn decimal_chars(n: nat) -> Seq<char>
    decreases n,
{
    if n < 10 {
        seq![digit_char(n as int)]
    } else {
        decimal_chars(n / 10).push(digit_char((n % 10) as int))
    }
}

/// The line that generation writes for a file: for a digest made at an
/// exact level the digest, two spaces and the path; for a sampled digest
/// the digest, `s`, the speed level, two spaces and the path; for a file
/// that could not be read, marked by an empty digest, the path and the
/// words of failure.
pub open spec fn generated_line(path: Text, digest: Text, speed_tag: Option<usize>) -> Text {
    if digest.len() == 0 {
        path + ": FAILED open or read"@
    } else {
        match speed_tag {
            None => digest + "  "@ + path,
            Some(speed) => digest + "s"@ + decimal_chars(speed as nat) + "  "@ + path,
        }
    }
}

fn digit_text(d: usize) -> (text: &'static str)
    requires
        d < 10,
    ensures
        text@ == seq![digit_char(d as int)],
{
    proof {
        reveal_strlit("0");
        reveal_strlit("1");
        reveal_strlit("2");
        reveal_strlit("3");
        reveal_strlit("4");
        reveal_strlit("5");
        reveal_strlit("6");
        reveal_strlit("7");
        reveal_strlit("8");
        reveal_strlit("9");
    }
    let text = if d == 0 {
        "0"
    } else if d == 1 {
        "1"
    } else if d == 2 {
        "2"
    } else if d == 3 {
        "3"
    } else if d == 4 {
        "4"
    } else if d == 5 {
        "5"
    } else if d == 6 {
        "6"
    } else if d == 7 {
        "7"
    } else if d == 8 {
        "8"
    } else {
        "9"
    };
    assert(text@ =~= seq![digit_char(d as int)]);
    text
}

/// Writes `n` in decimal digits.
pub fn decimal(n: usize) -> (text: String)
    ensures
        text@ == decimal_chars(n as nat),
    decreases n,
{
    if n < 10 {
        String::from_str(digit_text(n))
    } else {
        let mut text = decimal(n / 10);
        text.append(digit_text(n % 10));
        assert(text@ =~= decimal_chars(n as nat));
        text
    }
}

/// Writes the line for one file: see `generated_line`.
pub fn digest_line(path: &str, digest: &str, speed_tag: Option<usize>) -> (line: String)
    ensures
        line@ == generated_line(path@, digest@, speed_tag),
{
    if digest.is_empty() {
        let mut line = String::from_str(path);
        line.append(": FAILED open or read");
        return line;
    }
    let mut line = String::from_str(digest);
    match speed_tag {
        None => {},
        Some(speed) => {
            line.append("s");
            let level = decimal(speed);
            line.append(level.as_str());
        },
    }
    line.append("  ");
    line.append(path);
    line
}

/// A scan over a run of like characters stops at the run's end.
pub proof fn lemma_scan_run(line: Seq<char>, from: int, to: int, spaces: bool)
    requires
        0 <= from <= to <= line.len(),
        forall|i: int| from <= i < to ==> is_space(#[trigger] line[i]) == spaces,
        to < line.len() ==> is_space(line[to]) != spaces,
    ensures
        scan(line, from, spaces) == to,
    decreases to - from,
{
    if from < to {
        assert(is_space(line[from]) == spaces);
        lemma_scan_run(line, from + 1, to, spaces);
    }
}

/// The last index of a character is the one place that holds it with none
/// behind it.
pub proof fn lemma_last_index_of(text: Seq<char>, c: char)
    ensures
        -1 <= last_index_of(text, c) < text.len(),
        last_index_of(text, c) >= 0 ==> text[last_index_of(text, c)] == c,
        forall|i: int| last_index_of(text, c) < i < text.len() ==> #[trigger] text[i] != c,
    decreases text.len(),
{
    if text.len() > 0 && text.last() != c {
        let shorter = text.drop_last();
        lemma_last_index_of(shorter, c);
        assert forall|i: int| last_index_of(text, c) < i < text.len() implies #[trigger] text[i]
            != c by {
            if i < shorter.len() {
                assert(shorter[i] == text[i]);
            }
        }
    }
}

/// A number written in decimal reads back as itself, and its text is one
/// or more digits.
pub proof fn lemma_decimal_reads_back(n: nat)
    ensures
        decimal_chars(n).len() > 0,
        all_digits(decimal_chars(n)),
        digits_value(decimal_chars(n)) == n,
    decreases n,
{
    let text = decimal_chars(n);
    if n < 10 {
        assert(text.drop_last() =~= Seq::<char>::empty());
        assert(digits_value(text.drop_last()) == 0);
    } else {
        lemma_decimal_reads_back(n / 10);
        let shorter = decimal_chars(n / 10);
        assert(text.drop_last() =~= shorter);
        assert forall|i: int| 0 <= i < text.len() implies is_digit(#[trigger] text[i]) by {
            if i < shorter.len() {
                assert(text[i] == shorter[i]);
            }
        }
    }
}

/// A line written for a digest reads back as that digest, its speed level
/// and its path, where the path is one token and the digest is
/// hexadecimal.
pub proof fn lemma_line_round_trip(path: Seq<char>, digest: Seq<char>, speed_tag: Option<usize>)
    requires
        path.len() > 0,
        forall|i: int| 0 <= i < path.len() ==> !is_space(#[trigger] path[i]),
        digest.len() > 0,
        forall|i: int| 0 <= i < digest.len() ==> is_hex_digit(#[trigger] digest[i]),
    ensures
        read_line(generated_line(path, digest, speed_tag)) == Ok::<EntryView, Malformed>(
            EntryView { digest_hex: digest, speed_tag, path },
        ),
{
    reveal_strlit("  ");
    reveal_strlit("s");
    let line = generated_line(path, digest, speed_tag);
    let tag = match speed_tag {
        None => digest,
        Some(speed) => digest + seq!['s'] + decimal_chars(speed as nat),
    };
    assert("s"@ =~= seq!['s']);
    assert("  "@ =~= seq![' ', ' ']);
    assert(line =~= tag + seq![' ', ' '] + path);
    let n = tag.len() as int;
    match speed_tag {
        None => {},
        Some(speed) => {
            lemma_decimal_reads_back(speed as nat);
        },
    }
    assert forall|i: int| 0 <= i < n implies !is_space(#[trigger] line[i]) by {
        if i < digest.len() {
            assert(is_hex_digit(digest[i]));
            assert(line[i] == digest[i]);
        } else if i > digest.len() {
            let level = decimal_chars(speed_tag->0 as nat);
            assert(is_digit(level[i - digest.len() - 1]));
            assert(line[i] == level[i - digest.len() - 1]);
        }
    }
    assert(is_space(line[n]) && is_space(line[n + 1]));
    assert forall|i: int| n + 2 <= i < line.len() implies !is_space(#[trigger] line[i]) by {
        assert(line[i] == path[i - n - 2]);
    }
    lemma_scan_run(line, 0, 0, true);
    lemma_scan_run(line, 0, n, false);
    lemma_scan_run(line, n, n + 2, true);
    lemma_scan_run(line, n + 2, line.len() as int, false);
    assert(tag_token(line) =~= tag);
    assert(path_token(line) =~= path);
    lemma_last_index_of(tag, 's');
    let mark = last_index_of(tag, 's');
    match speed_tag {
        None => {
            if mark >= 0 {
                assert(is_hex_digit(digest[mark]));
            }
        },
        Some(speed) => {
            let level = decimal_chars(speed as nat);
            let at = digest.len() as int;
            assert(tag[at] == 's');
            if mark < at {
                assert(tag[at] != 's');
            }
            if mark > at {
                assert(is_digit(level[mark - at - 1]));
                assert(tag[mark] == level[mark - at - 1]);
            }
            assert(tag.subrange(mark + 1, tag.len() as int) =~= level);
            assert(tag.subrange(0, mark) =~= digest);
        },
    }
}

/// A line of one token has no path and is malformed.
pub proof fn lemma_single_token_is_malformed(line: Seq<char>)
    requires
        forall|i: int| 0 <= i < line.len() ==> !is_space(#[trigger] line[i]),
    ensures
        read_line(line) == Err::<EntryView, Malformed>(Malformed::MissingPath),
{
    let end = line.len() as int;
    lemma_scan_run(line, 0, 0, true);
    lemma_scan_run(line, 0, end, false);
    lemma_scan_run(line, end, end, true);
}

} // verus!
