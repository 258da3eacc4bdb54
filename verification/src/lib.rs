//! The logic of a desktop trading terminal.

pub mod exact;
pub mod json;
pub mod laws;
pub mod model;
pub mod num;
pub mod options;
pub mod order;
pub mod sc;
pub mod screen;
pub mod seqs;
pub mod shortcuts;
pub mod table;
pub mod text;
pub mod worker;
pub mod workspace;
