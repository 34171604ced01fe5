//! Parsing and validation of genomic annotation text (GFF3), together with
//! the nucleotide, amino-acid and quality-score alphabets that sequence
//! formats are built from.

pub mod text;
pub mod gff;
pub mod err;
pub mod genomics;
pub mod proteomics;
pub mod fastq;
