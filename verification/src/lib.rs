//! Turning dictated text into what gets typed: trigger words that stand for
//! key presses or replacement text, word-boundary matching, merging of text
//! segments, and the choice of the input tool that performs each action.

pub mod text;
pub mod segments;
pub mod triggers;
pub mod process;
pub mod output;
pub mod paste;
pub mod text_case;
