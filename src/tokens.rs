use vstd::prelude::*;

verus! {

/// Which tokens count when scanning a line.
#[derive(Clone, Copy, Debug, PartialEq, Eq, Structural)]
pub enum Mode {
    /// Only the ASCII digits `0`..`9`.
    DigitsOnly,
    /// The ASCII digits and the words `one`..`nine`.
    DigitsOrWords,
}

/// The value of an ASCII decimal digit.
pub open spec fn digit_of(c: char) -> Option<nat> {
    if '0' <= c && c <= '9' {
        Some((c as nat - '0' as nat) as nat)
    } else {
        None
    }
}

/// The spelled-out word of `k`, for `1 <= k <= 9`.
pub open spec fn number_word(k: nat) -> Seq<char> {
    if k == 1 {
        seq!['o', 'n', 'e']
    } else if k == 2 {
        seq!['t', 'w', 'o']
    } else if k == 3 {
        seq!['t', 'h', 'r', 'e', 'e']
    } else if k == 4 {
        seq!['f', 'o', 'u', 'r']
    } else if k == 5 {
        seq!['f', 'i', 'v', 'e']
    } else if k == 6 {
        seq!['s', 'i', 'x']
    } else if k == 7 {
        seq!['s', 'e', 'v', 'e', 'n']
    } else if k == 8 {
        seq!['e', 'i', 'g', 'h', 't']
    } else if k == 9 {
        seq!['n', 'i', 'n', 'e']
    } else {
        seq![]
    }
}

/// `w` occurs in `s` starting at position `i`.
pub open spec fn occurs_at(s: Seq<char>, i: int, w: Seq<char>) -> bool {
    0 <= i && i + w.len() <= s.len() && s.subrange(i, i + w.len()) == w
}

/// The number whose word starts at position `i` of `s`, if any.
/// No number word is a prefix of another, so at most one can match.
pub open spec fn word_at(s: Seq<char>, i: int) -> Option<nat> {
    if occurs_at(s, i, number_word(1)) {
        Some(1)
    } else if occurs_at(s, i, number_word(2)) {
        Some(2)
    } else if occurs_at(s, i, number_word(3)) {
        Some(3)
    } else if occurs_at(s, i, number_word(4)) {
        Some(4)
    } else if occurs_at(s, i, number_word(5)) {
        Some(5)
    } else if occurs_at(s, i, number_word(6)) {
        Some(6)
    } else if occurs_at(s, i, number_word(7)) {
        Some(7)
    } else if occurs_at(s, i, number_word(8)) {
        Some(8)
    } else if occurs_at(s, i, number_word(9)) {
        Some(9)
    } else {
        None
    }
}

/// The value of the token that starts at position `i` of `s` under `mode`, if any.
pub open spec fn token_at(mode: Mode, s: Seq<char>, i: int) -> Option<nat> {
    if 0 <= i < s.len() && digit_of(s[i]) is Some {
        digit_of(s[i])
    } else if mode is DigitsOrWords {
        word_at(s, i)
    } else {
        None
    }
}

/// The word of `k`, as a string literal.
fn number_word_str(k: u32) -> (w: &'static str)
    requires
        1 <= k <= 9,
    ensures
        w@ == number_word(k as nat),
{
    if k == 1 {
        proof { reveal_strlit("one"); }
        let w = "one";
        assert(w@ =~= number_word(1));
        w
    } else if k == 2 {
        proof { reveal_strlit("two"); }
        let w = "two";
        assert(w@ =~= number_word(2));
        w
    } else if k == 3 {
        proof { reveal_strlit("three"); }
        let w = "three";
        assert(w@ =~= number_word(3));
        w
    } else if k == 4 {
        proof { reveal_strlit("four"); }
        let w = "four";
        assert(w@ =~= number_word(4));
        w
    } else if k == 5 {
        proof { reveal_strlit("five"); }
        let w = "five";
        assert(w@ =~= number_word(5));
        w
    } else if k == 6 {
        proof { reveal_strlit("six"); }
        let w = "six";
        assert(w@ =~= number_word(6));
        w
    } else if k == 7 {
        proof { reveal_strlit("seven"); }
        let w = "seven";
        assert(w@ =~= number_word(7));
        w
    } else if k == 8 {
        proof { reveal_strlit("eight"); }
        let w = "eight";
        assert(w@ =~= number_word(8));
        w
    } else {
        proof { reveal_strlit("nine"); }
        let w = "nine";
        assert(w@ =~= number_word(9));
        w
    }
}

/// Whether `w` occurs in `line` starting at position `i`.
fn occurs_at_exec(line: &Vec<char>, i: usize, w: &str) -> (r: bool)
    ensures
        r == occurs_at(line@, i as int, w@),
{
    let n = w.unicode_len();
    if i > line.len() || n > line.len() - i {
        return false;
    }
    let mut j: usize = 0;
    while j < n
        invariant
            j <= n,
            n == w@.len(),
            i + n <= line.len(),
            forall|k: int| 0 <= k < j ==> line@[i + k] == w@[k],
        decreases n - j,
    {
        if line[i + j] != w.get_char(j) {
            assert(line@.subrange(i as int, i + n)[j as int] != w@[j as int]);
            return false;
        }
        j = j + 1;
    }
    assert(line@.subrange(i as int, i + n) =~= w@);
    true
}

/// The value of the digit `c`, if it is one.
fn digit_value(c: char) -> (r: Option<u32>)
    ensures
        r matches Some(d) ==> digit_of(c) == Some(d as nat) && d <= 9,
        r is None ==> digit_of(c) is None,
{
    if '0' <= c && c <= '9' {
        Some((c as u32) - ('0' as u32))
    } else {
        None
    }
}

/// The value of the token that starts at position `i` of `line` under `mode`, if any.
pub fn token_at_exec(mode: Mode, line: &Vec<char>, i: usize) -> (r: Option<u32>)
    requires
        i < line@.len(),
    ensures
        r matches Some(d) ==> token_at(mode, line@, i as int) == Some(d as nat) && d <= 9,
        r is None ==> token_at(mode, line@, i as int) is None,
{
    let d = digit_value(line[i]);
    if d.is_some() {
        return d;
    }
    match mode {
        Mode::DigitsOnly => None,
        Mode::DigitsOrWords => {
            let mut k: u32 = 1;
            while k <= 9
                invariant
                    1 <= k <= 10,
                    mode is DigitsOrWords,
                    digit_of(line@[i as int]) is None,
                    forall|m: nat| 1 <= m < k ==> !occurs_at(line@, i as int, #[trigger] number_word(m)),
                decreases 10 - k,
            {
                if occurs_at_exec(line, i, number_word_str(k)) {
                    assert(word_at(line@, i as int) == Some(k as nat));
                    return Some(k);
                }
                k = k + 1;
            }
            None
        },
    }
}

} // verus!
