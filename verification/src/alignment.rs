//! A multiple-sequence alignment in aligned and unaligned coordinates, with
//! its core-block columns, and the classification of a pair of sites.

use crate::counting::count_range;
use crate::sequence::{
    as_columns, lemma_residue_columns, residue_columns, residues, select_core, Sequence,
    GAP_CHARACTER,
};
use vstd::prelude::*;

verus! {

/// A coordinate in unaligned space: the residue at place `pos` of the
/// sequence with index `seq`.
#[derive(Debug, Clone, Copy, PartialEq, Eq, Hash, PartialOrd, Ord, Default)]
pub struct Site {
    pub seq: usize,
    pub pos: usize,
}

/// How a reference alignment judges a pair of sites.
#[derive(Debug, Clone, Copy, PartialEq, Eq, Structural, Hash)]
pub enum PositionAlignment {
    /// Both sites stand in one column, and it is a core-block column.
    Correct,
    /// The sites stand in different columns, one of them a core-block column.
    Incorrect,
    /// No core-block column is involved: the pair must not affect a score.
    Unknown,
}

/// Why an alignment cannot be scored.
#[derive(Debug, Clone, Copy, PartialEq, Eq, Structural)]
pub enum AlignmentError {
    /// There is no sequence, or the first sequence has no column.
    EmptyAlignment,
    /// A sequence differs in length from the first.
    InconsistentLength,
    /// The number of core-block flags is not the number of columns.
    CoreBlockLength,
}

/// What the scores depend on: the aligned rows and the core-block flags.
pub struct AlignmentView {
    pub rows: Seq<Seq<u8>>,
    pub core: Seq<bool>,
}

impl AlignmentView {
    /// Every row has one flag per column.
    pub open spec fn rectangular(self) -> bool {
        forall|s: int|
            0 <= s < self.rows.len() ==> (#[trigger] self.rows[s]).len() == self.core.len()
    }

    /// Rectangular, with at least one row and one column.
    pub open spec fn scorable(self) -> bool {
        &&& self.rectangular()
        &&& self.rows.len() > 0
        &&& self.core.len() > 0
    }

    /// Whether `site` names a residue of this alignment.
    pub open spec fn has_site(self, site: Site) -> bool {
        &&& site.seq < self.rows.len()
        &&& site.pos < residues(self.rows[site.seq as int]).len()
    }

    /// The column in which row `s` holds the residue of place `position`.
    pub open spec fn column_at(self, s: int, position: int) -> int {
        residue_columns(self.rows[s])[position]
    }

    /// The column in which the residue at `site` stands.
    pub open spec fn column_of(self, site: Site) -> int {
        self.column_at(site.seq as int, site.pos as int)
    }

    /// The judgement on two residues that stand in the columns `first` and
    /// `second`.
    pub open spec fn classify(self, first: int, second: int) -> PositionAlignment {
        if first == second && self.core[first] {
            PositionAlignment::Correct
        } else if first != second && (self.core[first] || self.core[second]) {
            PositionAlignment::Incorrect
        } else {
            PositionAlignment::Unknown
        }
    }

    /// Whether a column is a core-block column, as a predicate on columns.
    pub open spec fn core_at(self) -> spec_fn(int) -> bool {
        |column: int| self.core[column]
    }

    /// The number of core-block columns.
    pub open spec fn core_columns(self) -> nat {
        count_range(0, self.core.len() as int, self.core_at())
    }

    /// What a check of the shape finds: the first fault, or none.
    pub open spec fn shape(self) -> Result<(), AlignmentError> {
        if self.rows.len() == 0 || self.rows[0].len() == 0 {
            Err(AlignmentError::EmptyAlignment)
        } else if exists|s: int|
            0 <= s < self.rows.len() && (#[trigger] self.rows[s]).len() != self.rows[0].len() {
            Err(AlignmentError::InconsistentLength)
        } else if self.core.len() != self.rows[0].len() {
            Err(AlignmentError::CoreBlockLength)
        } else {
            Ok(())
        }
    }

    /// Whether `other` holds the same sequences as far as scoring needs it:
    /// as many sequences, each with as many residues as its counterpart.
    pub open spec fn comparable(self, other: AlignmentView) -> bool {
        &&& self.rows.len() == other.rows.len()
        &&& forall|s: int|
            0 <= s < self.rows.len() ==> residues(#[trigger] self.rows[s]).len() == residues(
                other.rows[s],
            ).len()
    }

    /// The rows restricted to the core-block columns.
    pub open spec fn core_rows(self) -> Seq<Seq<u8>> {
        Seq::new(self.rows.len(), |s: int| select_core(self.rows[s], self.core))
    }
}

/// For each sequence of an alignment, the column of each of its residues.
/// Only `Alignment::new` makes one, and nothing outside this module reads
/// or changes what it holds.
#[derive(Debug, PartialEq, Eq)]
pub struct PositionMap {
    columns: Vec<Vec<usize>>,
}

impl View for PositionMap {
    type V = Seq<Seq<int>>;

    closed spec fn view(&self) -> Seq<Seq<int>> {
        Seq::new(self.columns@.len(), |s: int| as_columns(self.columns@[s]@))
    }
}

/// A multiple-sequence alignment: the aligned rows as given, the unaligned
/// sequences and the map from unaligned places to columns derived from them,
/// and one core-block flag per column.
#[derive(Debug)]
pub struct Alignment {
    pub name: String,
    pub aligned_data: Vec<Sequence>,
    pub unaligned_data: Vec<Sequence>,
    pub unaligned_to_aligned_pos: PositionMap,
    pub core_blocks: Vec<bool>,
}

/// What the scores depend on, of given aligned sequences and core-block
/// flags: the symbols of the sequences as rows, and the flags.
pub open spec fn view_of(aligned_data: Seq<Sequence>, core_blocks: Seq<bool>) -> AlignmentView {
    AlignmentView {
        rows: Seq::new(aligned_data.len(), |s: int| aligned_data[s].data@),
        core: core_blocks,
    }
}

impl View for Alignment {
    type V = AlignmentView;

    open spec fn view(&self) -> AlignmentView {
        view_of(self.aligned_data@, self.core_blocks@)
    }
}

impl Clone for Alignment {
    /// A copy of the name, the aligned rows and the core-block flags, with
    /// the unaligned sequences and the position map derived from the rows.
    fn clone(&self) -> (copy: Self)
        ensures
            copy.name@ == self.name@,
            copy@ == self@,
            copy.wf(),
            copy.aligned_data@.len() == self.aligned_data@.len(),
            forall|s: int|
                0 <= s < self.aligned_data@.len() ==> (#[trigger] copy.aligned_data@[s]).name@
                    == self.aligned_data@[s].name@,
    {
        let mut aligned_data: Vec<Sequence> = Vec::new();
        let count: usize = self.aligned_data.len();
        for s in 0..count
            invariant
                count == self.aligned_data@.len(),
                aligned_data@.len() == s,
                forall|t: int|
                    0 <= t < s ==> {
                        &&& (#[trigger] aligned_data@[t]).name@ == self.aligned_data@[t].name@
                        &&& aligned_data@[t].data@ == self.aligned_data@[t].data@
                    },
        {
            aligned_data.push(self.aligned_data[s].clone());
        }
        let copy = Alignment::new(self.name.clone(), aligned_data, self.core_blocks.clone());
        assert(copy@.rows =~= self@.rows);
        copy
    }
}

impl Alignment {
    /// The symbol that marks a gap.
    pub const GAP_CHARACTER: u8 = GAP_CHARACTER;

    /// For each sequence, the column of each of its residues.
    pub open spec fn position_map(&self) -> Seq<Seq<int>> {
        self.unaligned_to_aligned_pos@
    }

    /// The derived data agree with the aligned rows: each unaligned sequence
    /// holds the residues of its row under the row's name, and the position
    /// map holds the columns of those residues.
    pub open spec fn wf(&self) -> bool {
        &&& self.unaligned_data@.len() == self.aligned_data@.len()
        &&& self.position_map().len() == self.aligned_data@.len()
        &&& forall|s: int|
            0 <= s < self.aligned_data@.len() ==> {
                &&& (#[trigger] self.unaligned_data@[s]).name@ == self.aligned_data@[s].name@
                &&& self.unaligned_data@[s].data@ == residues(self.aligned_data@[s].data@)
            }
        &&& forall|s: int|
            0 <= s < self.aligned_data@.len() ==> #[trigger] self.position_map()[s]
                == residue_columns(self.aligned_data@[s].data@)
    }

    /// Builds the alignment from its aligned rows and core-block flags, and
    /// derives the unaligned sequences and the position map by stripping the
    /// gaps. Nothing is checked: the rows may differ in length.
    pub fn new(name: String, aligned_data: Vec<Sequence>, core_blocks: Vec<bool>) -> (alignment:
        Self)
        ensures
            alignment.wf(),
            alignment.name == name,
            alignment.aligned_data == aligned_data,
            alignment.core_blocks == core_blocks,
    {
        let mut unaligned_data: Vec<Sequence> = Vec::new();
        let mut pos_mapping: Vec<Vec<usize>> = Vec::new();
        let count: usize = aligned_data.len();
        for s in 0..count
            invariant
                count == aligned_data@.len(),
                unaligned_data@.len() == s,
                pos_mapping@.len() == s,
                forall|t: int|
                    0 <= t < s ==> {
                        &&& (#[trigger] unaligned_data@[t]).name@ == aligned_data@[t].name@
                        &&& unaligned_data@[t].data@ == residues(aligned_data@[t].data@)
                    },
                forall|t: int|
                    0 <= t < s ==> as_columns(#[trigger] pos_mapping@[t]@) == residue_columns(
                        aligned_data@[t].data@,
                    ),
        {
            let (unaligned, positions) = aligned_data[s].clone().into_unaligned();
            unaligned_data.push(unaligned);
            pos_mapping.push(positions);
        }
        Self {
            name,
            aligned_data,
            unaligned_data,
            unaligned_to_aligned_pos: PositionMap { columns: pos_mapping },
            core_blocks,
        }
    }

    /// Builds the alignment as `new` does, after a check of its shape: there
    /// is an alignment exactly where there is at least one sequence and one
    /// column, all sequences have one length, and there is one core-block
    /// flag per column; else the first fault is returned.
    pub fn try_new(name: String, aligned_data: Vec<Sequence>, core_blocks: Vec<bool>) -> (built:
        Result<Self, AlignmentError>)
        ensures
            match built {
                Ok(alignment) => {
                    &&& view_of(aligned_data@, core_blocks@).shape() is Ok
                    &&& alignment@.scorable()
                    &&& alignment.wf()
                    &&& alignment.name == name
                    &&& alignment.aligned_data == aligned_data
                    &&& alignment.core_blocks == core_blocks
                },
                Err(fault) => view_of(aligned_data@, core_blocks@).shape() == Err::<
                    (),
                    AlignmentError,
                >(fault),
            },
    {
        let alignment = Alignment::new(name, aligned_data, core_blocks);
        match alignment.validate() {
            Ok(()) => Ok(alignment),
            Err(fault) => Err(fault),
        }
    }

    /// Judges two residues by the columns in which this alignment has them.
    pub fn pos_aligned(&self, pos1: Site, pos2: Site) -> (judgement: PositionAlignment)
        requires
            self.wf(),
            self@.rectangular(),
            self@.has_site(pos1),
            self@.has_site(pos2),
        ensures
            judgement == self@.classify(self@.column_of(pos1), self@.column_of(pos2)),
    {
        proof {
            lemma_residue_columns(self@.rows[pos1.seq as int]);
            lemma_residue_columns(self@.rows[pos2.seq as int]);
            assert(self.position_map()[pos1.seq as int] == residue_columns(
                self@.rows[pos1.seq as int],
            ));
            assert(self.position_map()[pos2.seq as int] == residue_columns(
                self@.rows[pos2.seq as int],
            ));
        }
        let mapped_1: usize = self.unaligned_to_aligned_pos.columns[pos1.seq][pos1.pos];
        let mapped_2: usize = self.unaligned_to_aligned_pos.columns[pos2.seq][pos2.pos];
        assert(mapped_1 as int == self@.column_of(pos1));
        assert(mapped_2 as int == self@.column_of(pos2));
        if mapped_1 == mapped_2 && self.core_blocks[mapped_1] {
            PositionAlignment::Correct
        } else if mapped_1 != mapped_2 && (self.core_blocks[mapped_1]
            || self.core_blocks[mapped_2]) {
            PositionAlignment::Incorrect
        } else {
            PositionAlignment::Unknown
        }
    }

    /// The aligned rows restricted to the core-block columns, each under
    /// its name.
    pub fn core_block_data(&self) -> (data: Vec<Sequence>)
        requires
            self@.rectangular(),
        ensures
            data@.len() == self.aligned_data@.len(),
            forall|s: int|
                0 <= s < data@.len() ==> {
                    &&& (#[trigger] data@[s]).name@ == self.aligned_data@[s].name@
                    &&& data@[s].data@ == self@.core_rows()[s]
                },
    {
        let mut data: Vec<Sequence> = Vec::new();
        let count: usize = self.aligned_data.len();
        for s in 0..count
            invariant
                count == self.aligned_data@.len(),
                self@.rectangular(),
                data@.len() == s,
                forall|t: int|
                    0 <= t < s ==> {
                        &&& (#[trigger] data@[t]).name@ == self.aligned_data@[t].name@
                        &&& data@[t].data@ == self@.core_rows()[t]
                    },
        {
            assert(self@.rows[s as int].len() == self@.core.len());
            let selected = self.aligned_data[s].select_core_blocks(self.core_blocks.as_slice());
            data.push(selected);
        }
        data
    }

    /// The number of core-block columns.
    pub fn core_block_columns(&self) -> (count: usize)
        ensures
            count == self@.core_columns(),
    {
        let mut count: usize = 0;
        let length: usize = self.core_blocks.len();
        for column in 0..length
            invariant
                length == self.core_blocks@.len(),
                count == count_range(0, column as int, self@.core_at()),
                count <= column,
        {
            if self.core_blocks[column] {
                count += 1;
            }
        }
        count
    }

    /// Checks the shape that scoring relies on: at least one sequence and
    /// one column, all sequences of one length, one core-block flag per
    /// column.
    pub fn validate(&self) -> (outcome: Result<(), AlignmentError>)
        ensures
            outcome == self@.shape(),
            outcome is Ok <==> self@.scorable(),
    {
        let count: usize = self.aligned_data.len();
        if count == 0 {
            return Err(AlignmentError::EmptyAlignment);
        }
        let length: usize = self.aligned_data[0].data.len();
        if length == 0 {
            return Err(AlignmentError::EmptyAlignment);
        }
        for s in 1..count
            invariant
                0 < count == self.aligned_data@.len(),
                0 < length == self@.rows[0].len(),
                forall|t: int| 0 <= t < s ==> (#[trigger] self@.rows[t]).len() == length,
        {
            if self.aligned_data[s].data.len() != length {
                assert(self@.rows[s as int].len() != self@.rows[0].len());
                return Err(AlignmentError::InconsistentLength);
            }
        }
        if self.core_blocks.len() != length {
            assert(!self@.rectangular()) by {
                assert(self@.rows[0].len() != self@.core.len());
            }
            return Err(AlignmentError::CoreBlockLength);
        }
        Ok(())
    }

    /// Whether `other` can be scored against this alignment: whether it
    /// holds as many sequences, each with as many residues as its
    /// counterpart here.
    pub fn comparable(&self, other: &Alignment) -> (same: bool)
        requires
            self.wf(),
            other.wf(),
        ensures
            same == self@.comparable(other@),
    {
        let count: usize = self.unaligned_data.len();
        if other.unaligned_data.len() != count {
            return false;
        }
        for s in 0..count
            invariant
                self.wf(),
                other.wf(),
                count == self@.rows.len(),
                count == other@.rows.len(),
                forall|t: int|
                    0 <= t < s ==> residues(#[trigger] self@.rows[t]).len() == residues(
                        other@.rows[t],
                    ).len(),
        {
            if self.unaligned_data[s].data.len() != other.unaligned_data[s].data.len() {
                assert(residues(self@.rows[s as int]).len() != residues(
                    other@.rows[s as int],
                ).len());
                return false;
            }
        }
        true
    }
}

} // verus!
