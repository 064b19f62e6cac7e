use vstd::prelude::*;
use crate::tokens::{Mode, digit_of, number_word, occurs_at, token_at, word_at};
use crate::calibration::{first_token_from, last_token_before, line_value};

verus! {

/// Where no token starts in `[i, j)`, the leftmost token from `i` on is the
/// leftmost one from `j` on.
proof fn lemma_first_skip(mode: Mode, s: Seq<char>, i: int, j: int)
    requires
        0 <= i <= j <= s.len(),
        forall|k: int| i <= k < j ==> token_at(mode, s, k) is None,
    ensures
        first_token_from(mode, s, i) == first_token_from(mode, s, j),
    decreases j - i,
{
    if i < j {
        lemma_first_skip(mode, s, i + 1, j);
    }
}

/// Where no token starts in `[i, j)`, the rightmost token before `j` is the
/// rightmost one before `i`.
proof fn lemma_last_skip(mode: Mode, s: Seq<char>, i: int, j: int)
    requires
        0 <= i <= j <= s.len(),
        forall|k: int| i <= k < j ==> token_at(mode, s, k) is None,
    ensures
        last_token_before(mode, s, j) == last_token_before(mode, s, i),
    decreases j - i,
{
    if i < j {
        lemma_last_skip(mode, s, i, j - 1);
    }
}

/// A line that is one digit, written once or repeated, has that digit as
/// both its first and its last token, in either mode.
pub proof fn lemma_repeated_digit(mode: Mode, s: Seq<char>, c: char)
    requires
        s.len() > 0,
        digit_of(c) is Some,
        forall|i: int| 0 <= i < s.len() ==> s[i] == c,
    ensures
        line_value(mode, s) == Some(11 * digit_of(c)->0),
{
    assert(token_at(mode, s, 0) == digit_of(c));
    assert(token_at(mode, s, s.len() - 1) == digit_of(c));
}

/// In `occurs_at`, each character of the word matches the text.
proof fn lemma_occurs_chars(s: Seq<char>, i: int, w: Seq<char>)
    requires
        occurs_at(s, i, w),
    ensures
        forall|j: int| 0 <= j < w.len() ==> s[i + j] == w[j],
{
    assert forall|j: int| 0 <= j < w.len() implies s[i + j] == w[j] by {
        assert(s.subrange(i, i + w.len())[j] == w[j]);
    }
}

/// Inside a number word, no other token starts after its first letter.
proof fn lemma_word_interior(k: nat, i: int)
    requires
        1 <= k <= 9,
        1 <= i < number_word(k).len(),
    ensures
        token_at(Mode::DigitsOrWords, number_word(k), i) is None,
{
    let s = number_word(k);
    assert(digit_of(s[i]) is None);
    assert forall|m: nat| 1 <= m <= 9 implies !occurs_at(s, i, #[trigger] number_word(m)) by {
        if occurs_at(s, i, number_word(m)) {
            lemma_occurs_chars(s, i, number_word(m));
            assert(s[i] == number_word(m)[0]);
            assert(s[i + 1] == number_word(m)[1]);
        }
    }
    assert(word_at(s, i) is None);
}

/// A line that is a single number word has that number as both its first
/// and its last token.
pub proof fn lemma_single_word(k: nat)
    requires
        1 <= k <= 9,
    ensures
        line_value(Mode::DigitsOrWords, number_word(k)) == Some(11 * k),
{
    let s = number_word(k);
    let mode = Mode::DigitsOrWords;
    assert(s.subrange(0, s.len() as int) =~= s);
    assert(word_at(s, 0) == Some(k)) by {
        assert forall|m: nat| 1 <= m < k implies !occurs_at(s, 0, #[trigger] number_word(m)) by {
            if occurs_at(s, 0, number_word(m)) {
                lemma_occurs_chars(s, 0, number_word(m));
                assert(s[0] == number_word(m)[0]);
                assert(s[1] == number_word(m)[1]);
                assert(s[2] == number_word(m)[2]);
            }
        }
    }
    assert(token_at(mode, s, 0) == Some(k));
    assert forall|i: int| 1 <= i < s.len() implies token_at(mode, s, i) is None by {
        lemma_word_interior(k, i);
    }
    lemma_last_skip(mode, s, 1, s.len() as int);
}

/// Without any number word in the line, both modes give the same value.
pub proof fn lemma_modes_agree(s: Seq<char>)
    requires
        forall|i: int| 0 <= i < s.len() ==> word_at(s, i) is None,
    ensures
        line_value(Mode::DigitsOnly, s) == line_value(Mode::DigitsOrWords, s),
{
    assert forall|i: int| 0 <= i <= s.len() implies first_token_from(Mode::DigitsOnly, s, i)
        == first_token_from(Mode::DigitsOrWords, s, i) by {
        lemma_first_modes(s, i);
    }
    lemma_last_modes(s, s.len() as int);
    assert(first_token_from(Mode::DigitsOnly, s, 0) == first_token_from(Mode::DigitsOrWords, s, 0));
}

proof fn lemma_first_modes(s: Seq<char>, i: int)
    requires
        0 <= i <= s.len(),
        forall|k: int| 0 <= k < s.len() ==> word_at(s, k) is None,
    ensures
        first_token_from(Mode::DigitsOnly, s, i) == first_token_from(Mode::DigitsOrWords, s, i),
    decreases s.len() - i,
{
    if i < s.len() {
        lemma_first_modes(s, i + 1);
    }
}

proof fn lemma_last_modes(s: Seq<char>, j: int)
    requires
        0 <= j <= s.len(),
        forall|k: int| 0 <= k < s.len() ==> word_at(s, k) is None,
    ensures
        last_token_before(Mode::DigitsOnly, s, j) == last_token_before(Mode::DigitsOrWords, s, j),
    decreases j,
{
    if j > 0 {
        lemma_last_modes(s, j - 1);
    }
}

/// A line made of digits alone holds no number word.
pub proof fn lemma_digits_hold_no_word(s: Seq<char>)
    requires
        forall|i: int| 0 <= i < s.len() ==> digit_of(s[i]) is Some,
    ensures
        forall|i: int| 0 <= i < s.len() ==> word_at(s, i) is None,
{
    assert forall|i: int| 0 <= i < s.len() implies word_at(s, i) is None by {
        assert forall|m: nat| 1 <= m <= 9 implies !occurs_at(s, i, #[trigger] number_word(m)) by {
            if occurs_at(s, i, number_word(m)) {
                lemma_occurs_chars(s, i, number_word(m));
                assert(s[i] == number_word(m)[0]);
            }
        }
    }
}

/// A line without a digit is malformed when only digits count.
pub proof fn lemma_no_digit_malformed(s: Seq<char>)
    requires
        forall|i: int| 0 <= i < s.len() ==> digit_of(s[i]) is None,
    ensures
        line_value(Mode::DigitsOnly, s) is None,
{
    lemma_first_skip(Mode::DigitsOnly, s, 0, s.len() as int);
}

} // verus!
