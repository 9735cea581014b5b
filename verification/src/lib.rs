//! Scoring of a multiple-sequence alignment against a trusted reference
//! alignment: the sum-of-pairs score and the column score, each as an exact
//! ratio of two counts.
//!
//! An [`Alignment`] holds aligned rows and one core-block flag per column,
//! and derives from the rows the unaligned sequences and the map that leads
//! from an unaligned place to its column. [`compute_scores`] goes through a
//! test alignment column by column and asks the reference, for each pair of
//! residues that the test alignment puts in one column, whether it has them
//! in one core-block column too.
//!
//! Every function states what it returns over a model of its arguments: the
//! rows as sequences of bytes, the flags as a sequence of booleans. The
//! module `laws` proves what follows for all alignments.

pub mod alignment;
pub mod balibase;
pub mod counting;
pub mod fasta;
pub mod laws;
pub mod pairs;
pub mod scoring;
pub mod sequence;

pub use alignment::{
    Alignment, AlignmentError, AlignmentView, PositionAlignment, PositionMap, Site,
};
pub use scoring::{compute_scores, true_site_pair_count, AlignmentScores, Ratio, ScoreError};
pub use sequence::Sequence;
