//! Calibration values: the first and last digit of each line of a text,
//! read as a two-digit number and summed over the lines. Digits may also be
//! spelled out as words, and overlapping words each count.

pub mod tokens;
pub mod calibration;
pub mod text;
pub mod laws;
pub mod shapes;

pub use tokens::Mode;
pub use calibration::{
    MalformedLineError, MAX_LINES, extract_digits_only, extract_digits_or_words, part_1, part_2,
    sum_calibration_values,
};
pub use text::first_word;
pub use shapes::{Person, Rectangle};
