//! A Wordle-style word-guessing game: a hidden five-letter answer, up to six
//! guesses, and per-letter feedback (green / yellow / gray) that credits
//! duplicate letters at most once per occurrence in the answer.

pub mod color;
pub mod dict;
pub mod game;
pub mod row;

pub use color::{
    color_at, color_word, colors_spec, count_color_below, count_letter_below, credited_below,
    lemma_credit_bounded, lemma_green_count, lemma_self_guess_all_green, matches_below, Color,
};
pub use dict::Dictionary;
pub use game::{Game, RejectReason, TurnResult};
pub use row::{is_letter, row_blank, row_concrete, Row, BLANK};
