//! A flashcard trainer: cards with a query and accepted answers, their
//! one-line text form, and the training session that sorts cards into
//! remaining, failed and completed.

pub mod authoring;
pub mod card;
pub mod command;
pub mod dictionary;
pub mod fields;
pub mod text;
pub mod training;
