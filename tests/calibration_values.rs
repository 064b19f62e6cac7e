use calibration::{
    MalformedLineError, Mode, MAX_LINES, extract_digits_only, extract_digits_or_words, part_1,
    part_2, sum_calibration_values,
};

#[test]
fn digits_only_first_and_last() {
    assert_eq!(extract_digits_only("a1b2c3"), Ok(13));
}

#[test]
fn digits_only_single_digit_is_first_and_last() {
    assert_eq!(extract_digits_only("7"), Ok(77));
}

#[test]
fn words_two1nine() {
    assert_eq!(extract_digits_or_words("two1nine"), Ok(29));
}

#[test]
fn words_overlapping_eightwothree() {
    assert_eq!(extract_digits_or_words("eightwothree"), Ok(83));
}

#[test]
fn words_among_noise() {
    assert_eq!(extract_digits_or_words("abcone2threexyz"), Ok(13));
}

#[test]
fn sum_two_lines_digits_only() {
    let lines = vec!["1abc2", "pqr3stu8vwx"];
    assert_eq!(sum_calibration_values(&lines, Mode::DigitsOnly), Ok(50));
}

#[test]
fn repeated_digit_is_first_and_last() {
    assert_eq!(extract_digits_only("5555"), Ok(55));
    assert_eq!(extract_digits_or_words("5555"), Ok(55));
    assert_eq!(extract_digits_only("0"), Ok(0));
}

#[test]
fn single_word_is_first_and_last() {
    assert_eq!(extract_digits_or_words("three"), Ok(33));
    assert_eq!(extract_digits_or_words("one"), Ok(11));
    assert_eq!(extract_digits_or_words("nine"), Ok(99));
}

#[test]
fn modes_agree_on_digit_lines() {
    assert_eq!(extract_digits_only("9213"), Ok(93));
    assert_eq!(extract_digits_or_words("9213"), Ok(93));
    assert_eq!(extract_digits_only("x4y"), extract_digits_or_words("x4y"));
}

#[test]
fn letters_only_is_malformed_for_digits() {
    assert_eq!(extract_digits_only("abcdef"), Err(MalformedLineError));
    assert_eq!(extract_digits_only("oneight"), Err(MalformedLineError));
}

#[test]
fn no_token_is_malformed_for_words() {
    assert_eq!(extract_digits_or_words("xyz"), Err(MalformedLineError));
    assert_eq!(extract_digits_or_words("zero"), Err(MalformedLineError));
    assert_eq!(extract_digits_or_words(""), Err(MalformedLineError));
}

#[test]
fn overlapping_words_both_count() {
    assert_eq!(extract_digits_or_words("oneight"), Ok(18));
    assert_eq!(extract_digits_or_words("twone"), Ok(21));
    assert_eq!(extract_digits_or_words("eightwo"), Ok(82));
}

#[test]
fn zero_digit_counts() {
    assert_eq!(extract_digits_only("a0b"), Ok(0));
    assert_eq!(extract_digits_or_words("x0nine"), Ok(9));
}

#[test]
fn sum_fails_on_a_malformed_line() {
    let lines = vec!["1abc2", "xyz", "7"];
    assert_eq!(sum_calibration_values(&lines, Mode::DigitsOnly), Err(MalformedLineError));
    let lines = vec!["1abc2", "two", "7"];
    assert_eq!(sum_calibration_values(&lines, Mode::DigitsOrWords), Ok(12 + 22 + 77));
}

#[test]
fn sum_of_no_lines_is_zero() {
    let lines: Vec<&str> = Vec::new();
    assert_eq!(sum_calibration_values(&lines, Mode::DigitsOrWords), Ok(0));
}

#[test]
fn part_one_example() {
    let input = "1abc2\npqr3stu8vwx\na1b2c3d4e5f\ntreb7uchet\n";
    assert_eq!(part_1(input), Ok(142));
}

#[test]
fn part_two_example() {
    let input = "two1nine\neightwothree\nabcone2threexyz\nxtwone3four\n\
                 4nineeightseven2\nzoneight234\n7pqrstsixteen";
    assert_eq!(part_2(input), Ok(281));
}

#[test]
fn blank_lines_and_carriage_returns_are_ignored() {
    let input = "\n1abc2\r\n\r\n\npqr3stu8vwx\n\n";
    assert_eq!(part_1(input), Ok(50));
    assert_eq!(part_1(""), Ok(0));
}

#[test]
fn parts_fail_on_a_malformed_line() {
    assert_eq!(part_1("1abc2\nnone\n"), Err(MalformedLineError));
    assert_eq!(part_2("1abc2\nnone\n"), Ok(12 + 11));
    assert_eq!(part_2("1abc2\nxyz\n"), Err(MalformedLineError));
}

#[test]
fn line_bound_fits_a_u32_sum() {
    assert!((MAX_LINES as u64) * 99 <= u32::MAX as u64);
}
