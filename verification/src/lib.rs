//! Byte-level directory-tree listing: glob matching, walk decisions and
//! the text, JSON and HTML renderings of a walked tree.

pub mod pattern;
pub mod pattern_laws;
pub mod digits;
pub mod lits;
pub mod seqs;
pub mod options;
pub mod walk;
pub mod sort;
pub mod walk_laws;
pub mod traverse;
pub mod output;
