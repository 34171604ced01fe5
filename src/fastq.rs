//! Quality scores of sequencing reads.

pub mod quality;
