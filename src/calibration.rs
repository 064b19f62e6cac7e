use vstd::prelude::*;
use crate::tokens::{Mode, token_at, token_at_exec};
use crate::text::{chars_of, split_lines, text_lines, views};

verus! {

/// A line that holds no token of the chosen mode.
#[derive(Clone, Copy, Debug, PartialEq, Eq, Structural)]
pub struct MalformedLineError;

/// The value of the leftmost token of `s` at position `i` or later.
pub open spec fn first_token_from(mode: Mode, s: Seq<char>, i: int) -> Option<nat>
    decreases s.len() - i,
{
    if i < 0 || i >= s.len() {
        None
    } else if token_at(mode, s, i) is Some {
        token_at(mode, s, i)
    } else {
        first_token_from(mode, s, i + 1)
    }
}

/// The value of the rightmost token of `s` that starts before position `j`.
pub open spec fn last_token_before(mode: Mode, s: Seq<char>, j: int) -> Option<nat>
    decreases j,
{
    if j <= 0 || j > s.len() {
        None
    } else if token_at(mode, s, j - 1) is Some {
        token_at(mode, s, j - 1)
    } else {
        last_token_before(mode, s, j - 1)
    }
}

/// The value of the leftmost token of `s`.
pub open spec fn first_token(mode: Mode, s: Seq<char>) -> Option<nat> {
    first_token_from(mode, s, 0)
}

/// The value of the rightmost token of `s`.
pub open spec fn last_token(mode: Mode, s: Seq<char>) -> Option<nat> {
    last_token_before(mode, s, s.len() as int)
}

/// The calibration value of a line: ten times its first token plus its last,
/// or `None` when the line holds no token.
pub open spec fn line_value(mode: Mode, s: Seq<char>) -> Option<nat> {
    match (first_token(mode, s), last_token(mode, s)) {
        (Some(f), Some(l)) => Some(10 * f + l),
        _ => None,
    }
}

/// What extracting a line returns.
pub open spec fn line_result(mode: Mode, s: Seq<char>) -> Result<u32, MalformedLineError> {
    match line_value(mode, s) {
        Some(v) => Ok(v as u32),
        None => Err(MalformedLineError),
    }
}

/// The leftmost token from `i` on is a single digit.
pub proof fn lemma_first_token_bound(mode: Mode, s: Seq<char>, i: int)
    ensures
        first_token_from(mode, s, i) matches Some(d) ==> d <= 9,
    decreases s.len() - i,
{
    if 0 <= i < s.len() && token_at(mode, s, i) is None {
        lemma_first_token_bound(mode, s, i + 1);
    }
}

/// The rightmost token before `j` is a single digit.
pub proof fn lemma_last_token_bound(mode: Mode, s: Seq<char>, j: int)
    ensures
        last_token_before(mode, s, j) matches Some(d) ==> d <= 9,
    decreases j,
{
    if 0 < j <= s.len() && token_at(mode, s, j - 1) is None {
        lemma_last_token_bound(mode, s, j - 1);
    }
}

/// A calibration value is at most 99.
pub proof fn lemma_line_value_bound(mode: Mode, s: Seq<char>)
    ensures
        line_value(mode, s) matches Some(v) ==> v <= 99,
{
    lemma_first_token_bound(mode, s, 0);
    lemma_last_token_bound(mode, s, s.len() as int);
}

/// The leftmost token of `line`, scanning left to right.
fn first_token_exec(mode: Mode, line: &Vec<char>) -> (r: Option<u32>)
    ensures
        r matches Some(d) ==> first_token(mode, line@) == Some(d as nat) && d <= 9,
        r is None ==> first_token(mode, line@) is None,
{
    let n = line.len();
    let mut i: usize = 0;
    while i < n
        invariant
            i <= n,
            n == line@.len(),
            first_token(mode, line@) == first_token_from(mode, line@, i as int),
        decreases n - i,
    {
        let t = token_at_exec(mode, line, i);
        if t.is_some() {
            return t;
        }
        i = i + 1;
    }
    None
}

/// The rightmost token of `line`, scanning right to left.
fn last_token_exec(mode: Mode, line: &Vec<char>) -> (r: Option<u32>)
    ensures
        r matches Some(d) ==> last_token(mode, line@) == Some(d as nat) && d <= 9,
        r is None ==> last_token(mode, line@) is None,
{
    let mut j: usize = line.len();
    while j > 0
        invariant
            j <= line@.len(),
            last_token(mode, line@) == last_token_before(mode, line@, j as int),
        decreases j,
    {
        let t = token_at_exec(mode, line, j - 1);
        if t.is_some() {
            return t;
        }
        j = j - 1;
    }
    None
}

/// The calibration value of `line` under `mode`.
pub fn line_value_exec(mode: Mode, line: &Vec<char>) -> (r: Result<u32, MalformedLineError>)
    ensures
        r == line_result(mode, line@),
        r matches Ok(v) ==> v <= 99,
{
    let first = first_token_exec(mode, line);
    let last = last_token_exec(mode, line);
    match (first, last) {
        (Some(f), Some(l)) => Ok(10 * f + l),
        _ => Err(MalformedLineError),
    }
}

/// The most lines whose values are sure to fit a `u32` sum: `99 * MAX_LINES <= u32::MAX`.
pub const MAX_LINES: usize = 43383508;

/// The sum of the calibration values of `lines`, or `None` when one of them
/// holds no token.
pub open spec fn sum_values(mode: Mode, lines: Seq<Seq<char>>) -> Option<nat>
    decreases lines.len(),
{
    if lines.len() == 0 {
        Some(0)
    } else {
        match (sum_values(mode, lines.drop_last()), line_value(mode, lines.last())) {
            (Some(a), Some(b)) => Some(a + b),
            _ => None,
        }
    }
}

/// What summing `lines` returns.
pub open spec fn sum_result(mode: Mode, lines: Seq<Seq<char>>) -> Result<u32, MalformedLineError> {
    match sum_values(mode, lines) {
        Some(v) => Ok(v as u32),
        None => Err(MalformedLineError),
    }
}

/// One malformed line makes the whole sum fail.
pub proof fn lemma_sum_fails(mode: Mode, lines: Seq<Seq<char>>, k: int)
    requires
        0 <= k < lines.len(),
        line_value(mode, lines[k]) is None,
    ensures
        sum_values(mode, lines) is None,
    decreases lines.len(),
{
    if k < lines.len() - 1 {
        lemma_sum_fails(mode, lines.drop_last(), k);
    }
}

/// The sum of the calibration values of `lines`.
fn sum_lines(mode: Mode, lines: &Vec<Vec<char>>) -> (r: Result<u32, MalformedLineError>)
    requires
        lines@.len() <= MAX_LINES,
    ensures
        r == sum_result(mode, views(lines@)),
{
    let n = lines.len();
    let mut acc: u32 = 0;
    let mut i: usize = 0;
    while i < n
        invariant
            i <= n,
            n == lines@.len(),
            n <= MAX_LINES,
            sum_values(mode, views(lines@).subrange(0, i as int)) == Some(acc as nat),
            acc <= 99 * i,
        decreases n - i,
    {
        let ghost before = views(lines@).subrange(0, i as int);
        let ghost upto = views(lines@).subrange(0, i + 1);
        assert(upto.drop_last() =~= before);
        assert(upto.last() == lines@[i as int]@);
        proof {
            lemma_line_value_bound(mode, lines@[i as int]@);
        }
        match line_value_exec(mode, &lines[i]) {
            Ok(v) => {
                acc = acc + v;
            },
            Err(e) => {
                proof {
                    lemma_sum_fails(mode, views(lines@), i as int);
                }
                return Err(e);
            },
        }
        i = i + 1;
    }
    assert(views(lines@).subrange(0, n as int) =~= views(lines@));
    Ok(acc)
}

/// Extracts the calibration value of `line` from its digits alone.
pub fn extract_digits_only(line: &str) -> (r: Result<u32, MalformedLineError>)
    ensures
        r == line_result(Mode::DigitsOnly, line@),
{
    line_value_exec(Mode::DigitsOnly, &chars_of(line))
}

/// Extracts the calibration value of `line` from its digits and number words,
/// overlapping words included.
pub fn extract_digits_or_words(line: &str) -> (r: Result<u32, MalformedLineError>)
    ensures
        r == line_result(Mode::DigitsOrWords, line@),
{
    line_value_exec(Mode::DigitsOrWords, &chars_of(line))
}

/// The views of a list of string slices.
pub open spec fn str_views(lines: Seq<&str>) -> Seq<Seq<char>> {
    lines.map_values(|l: &str| l@)
}

/// The sum of the calibration values of `lines` under `mode`; fails on the
/// first line that holds no token.
pub fn sum_calibration_values(lines: &Vec<&str>, mode: Mode) -> (r: Result<u32, MalformedLineError>)
    requires
        lines@.len() <= MAX_LINES,
    ensures
        r == sum_result(mode, str_views(lines@)),
{
    let mut all: Vec<Vec<char>> = Vec::new();
    let mut i: usize = 0;
    while i < lines.len()
        invariant
            i <= lines@.len(),
            all@.len() == i,
            views(all@) == str_views(lines@).subrange(0, i as int),
        decreases lines@.len() - i,
    {
        let line = chars_of(lines[i]);
        all.push(line);
        assert(views(all@)[i as int] == str_views(lines@)[i as int]);
        i = i + 1;
        assert(views(all@) =~= str_views(lines@).subrange(0, i as int));
    }
    assert(str_views(lines@).subrange(0, i as int) =~= str_views(lines@));
    sum_lines(mode, &all)
}

/// A text has no more non-blank lines than it has characters.
pub proof fn lemma_text_lines_count(s: Seq<char>, cur: Seq<char>)
    ensures
        crate::text::lines_after(s, cur).len() <= s.len() + cur.len(),
    decreases s.len(),
{
    if s.len() > 0 {
        if s[0] == '\n' {
            lemma_text_lines_count(s.drop_first(), seq![]);
        } else {
            lemma_text_lines_count(s.drop_first(), cur.push(s[0]));
        }
    }
}

/// The sum of the calibration values of the non-blank lines of `input`,
/// from their digits alone.
pub fn part_1(input: &str) -> (r: Result<u32, MalformedLineError>)
    requires
        input@.len() <= MAX_LINES,
    ensures
        r == sum_result(Mode::DigitsOnly, text_lines(input@)),
{
    proof {
        lemma_text_lines_count(input@, seq![]);
    }
    sum_lines(Mode::DigitsOnly, &split_lines(&chars_of(input)))
}

/// The sum of the calibration values of the non-blank lines of `input`,
/// from their digits and number words.
pub fn part_2(input: &str) -> (r: Result<u32, MalformedLineError>)
    requires
        input@.len() <= MAX_LINES,
    ensures
        r == sum_result(Mode::DigitsOrWords, text_lines(input@)),
{
    proof {
        lemma_text_lines_count(input@, seq![]);
    }
    sum_lines(Mode::DigitsOrWords, &split_lines(&chars_of(input)))
}

} // verus!
