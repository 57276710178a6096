//! Reformats screenplay text: paragraph content is split into logical lines,
//! each line is normalized and classified (scene/cast heading, bracketed
//! aside, or dialogue), dialogue is segmented around a speaker prefix and
//! single-level bracketed asides, and the result is an ordered list of styled
//! text spans plus a paragraph-level style decision, ready for a document
//! writer.

pub mod classify;
pub mod emit;
pub mod normalize;
pub mod paragraph;
pub mod segment;
pub mod span;
pub mod style;
