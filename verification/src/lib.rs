pub mod file_checker;
pub mod laws;
pub mod pattern;
pub mod seqs;
pub mod syncer;
