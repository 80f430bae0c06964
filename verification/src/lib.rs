//! A flashcard inspired learning application: the scheduling engine that deals
//! flashcards by spaced repetition, the progress store behind it, the markup
//! that cardboxes are written in and the validation of what a learner types.

pub mod cardbox;
pub mod cardbox_parser;
pub mod cli;
pub mod common;
pub mod constants;
pub mod db;
pub mod display;
pub mod error;
pub mod flashcards;
pub mod scheduling;
pub mod text;
pub mod validator;
