//! Questions for a console quiz, read from pipe-delimited text.
//!
//! A quiz file holds one record to a line. `loader` turns its lines into
//! questions and reports the lines that are no valid record; `questions`
//! holds the kinds of question and the check of an answer; `text` and
//! `decimal` hold the string primitives that the two are specified with.

pub mod decimal;
pub mod loader;
pub mod questions;
pub mod text;

pub use loader::{
    gen_ques_inner, generate_question, is_comment_line, load_lines, tokenize, LoadErrs,
    LoadOutcome,
};
pub use questions::{
    convert_choice_to_number, MultipleChoice, Question, QuestionInterface, ShortAnswer,
};
