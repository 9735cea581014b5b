//! One row of an alignment, and the relation between its aligned (gapped) and
//! unaligned (gap-free) forms.

use crate::counting::{count_range, lemma_count_agree, lemma_count_bound};
use vstd::prelude::*;
use vstd::string::StringExecFns;
use vstd::utf8::{decode_utf8, valid_utf8};

verus! {

/// The symbol that marks a gap in an aligned row: the ASCII hyphen.
pub const GAP_CHARACTER: u8 = 45;

/// The residues of an aligned row, in order: the row without its gap symbols.
pub open spec fn residues(row: Seq<u8>) -> Seq<u8>
    decreases row.len(),
{
    if row.len() == 0 {
        Seq::empty()
    } else if row.last() == GAP_CHARACTER {
        residues(row.drop_last())
    } else {
        residues(row.drop_last()).push(row.last())
    }
}

/// The columns of an aligned row that hold a residue, in increasing order.
pub open spec fn residue_columns(row: Seq<u8>) -> Seq<int>
    decreases row.len(),
{
    if row.len() == 0 {
        Seq::empty()
    } else if row.last() == GAP_CHARACTER {
        residue_columns(row.drop_last())
    } else {
        residue_columns(row.drop_last()).push(row.len() - 1)
    }
}

/// Whether a column of an aligned row holds a gap, as a predicate on columns.
pub open spec fn gap_at(row: Seq<u8>) -> spec_fn(int) -> bool {
    |column: int| row[column] == GAP_CHARACTER
}

/// The number of gaps of an aligned row that lie before `column`.
pub open spec fn gaps_before(row: Seq<u8>, column: int) -> nat {
    count_range(0, column, gap_at(row))
}

/// The place among the residues of a row of the residue that stands in
/// `column`: the column less the gaps before it.
pub open spec fn unaligned_position(row: Seq<u8>, column: int) -> int {
    column - gaps_before(row, column)
}

/// The symbols of an aligned row that stand in core-block columns, in order.
pub open spec fn select_core(row: Seq<u8>, core: Seq<bool>) -> Seq<u8>
    decreases row.len(),
{
    if row.len() == 0 || core.len() == 0 {
        Seq::empty()
    } else if core.last() {
        select_core(row.drop_last(), core.drop_last()).push(row.last())
    } else {
        select_core(row.drop_last(), core.drop_last())
    }
}

/// Positions held as machine integers, read as columns.
pub open spec fn as_columns(positions: Seq<usize>) -> Seq<int> {
    Seq::new(positions.len(), |i: int| positions[i] as int)
}

/// The gaps before a column depend only on the symbols before it.
pub proof fn lemma_gaps_before_prefix(row: Seq<u8>, length: int, column: int)
    requires
        0 <= column <= length <= row.len(),
    ensures
        gaps_before(row.take(length), column) == gaps_before(row, column),
        gaps_before(row, column) <= column,
{
    lemma_count_agree(0, column, gap_at(row.take(length)), gap_at(row));
    lemma_count_bound(0, column, gap_at(row));
}

/// Stripping the gaps and recording the columns go together: the two
/// results have one length, which is the length of the row less its gaps;
/// each recorded column lies in the row and holds the residue of the same
/// place, which is no gap; and the columns increase.
pub proof fn lemma_residue_columns(row: Seq<u8>)
    ensures
        residue_columns(row).len() == residues(row).len(),
        residues(row).len() == row.len() - gaps_before(row, row.len() as int),
        forall|i: int|
            0 <= i < residues(row).len() ==> {
                let column = #[trigger] residue_columns(row)[i];
                &&& 0 <= column < row.len()
                &&& row[column] != GAP_CHARACTER
                &&& row[column] == residues(row)[i]
            },
        forall|i: int, j: int|
            0 <= i < j < residues(row).len() ==> #[trigger] residue_columns(row)[i]
                < #[trigger] residue_columns(row)[j],
    decreases row.len(),
{
    if row.len() > 0 {
        let shorter = row.drop_last();
        lemma_residue_columns(shorter);
        lemma_gaps_before_prefix(row, row.len() - 1, row.len() - 1);
        assert(row.take(row.len() - 1) == shorter);
        assert forall|i: int| 0 <= i < residues(row).len() implies {
            let column = #[trigger] residue_columns(row)[i];
            &&& 0 <= column < row.len()
            &&& row[column] != GAP_CHARACTER
            &&& row[column] == residues(row)[i]
        } by {
            if i < residues(shorter).len() {
                let column = residue_columns(shorter)[i];
                assert(shorter[column] == row[column]);
            }
        }
    }
}

/// The recorded columns lead back: the residue that stands in `column` is
/// found at its unaligned position, and the column recorded for that
/// position is `column` again.
pub proof fn lemma_unaligned_position(row: Seq<u8>, column: int)
    requires
        0 <= column < row.len(),
        row[column] != GAP_CHARACTER,
    ensures
        0 <= unaligned_position(row, column) < residues(row).len(),
        residue_columns(row)[unaligned_position(row, column)] == column,
    decreases row.len(),
{
    let shorter = row.drop_last();
    assert(row.take(row.len() - 1) == shorter);
    lemma_residue_columns(shorter);
    lemma_residue_columns(row);
    lemma_gaps_before_prefix(row, row.len() - 1, column);
    if column < row.len() - 1 {
        lemma_unaligned_position(shorter, column);
    } else {
        lemma_gaps_before_prefix(row, row.len() - 1, row.len() - 1);
    }
}

/// Of two residues of a row, the later one has the later unaligned position.
pub proof fn lemma_unaligned_position_increases(row: Seq<u8>, first: int, second: int)
    requires
        0 <= first < second < row.len(),
        row[first] != GAP_CHARACTER,
        row[second] != GAP_CHARACTER,
    ensures
        unaligned_position(row, first) < unaligned_position(row, second),
{
    lemma_unaligned_position(row, first);
    lemma_unaligned_position(row, second);
    lemma_residue_columns(row);
    let earlier = unaligned_position(row, first);
    let later = unaligned_position(row, second);
    if later < earlier {
        assert(residue_columns(row)[later] < residue_columns(row)[earlier]);
    }
}

/// The text that bytes hold, by `std::str::from_utf8`. Not proved here, but
/// taken from that function: that there is a text exactly where the bytes
/// are valid UTF-8, and that it is made of the characters that the bytes
/// encode.
#[verifier::external_body]
pub(crate) fn from_utf8(bytes: &[u8]) -> (text: Option<&str>)
    ensures
        text is Some <==> valid_utf8(bytes@),
        text matches Some(held) ==> held@ == decode_utf8(bytes@),
{
    std::str::from_utf8(bytes).ok()
}

/// A named sequence of residue symbols, aligned (with gaps) or unaligned.
#[derive(PartialEq, Debug)]
pub struct Sequence {
    pub name: String,
    pub data: Vec<u8>,
}

impl Clone for Sequence {
    /// A sequence of the same name and symbols.
    fn clone(&self) -> (copy: Self)
        ensures
            copy.name@ == self.name@,
            copy.data@ == self.data@,
    {
        Sequence { name: self.name.clone(), data: self.data.clone() }
    }
}

impl Sequence {
    /// A sequence of the given name and symbols.
    pub fn new(name: String, data: Vec<u8>) -> (sequence: Self)
        ensures
            sequence.name == name,
            sequence.data == data,
    {
        Self { name, data }
    }

    /// The number of symbols, gaps included.
    pub fn len(&self) -> (n: usize)
        ensures
            n == self.data@.len(),
    {
        self.data.len()
    }

    /// Whether the sequence has no symbol at all.
    pub fn is_empty(&self) -> (empty: bool)
        ensures
            empty <==> self.data@.len() == 0,
    {
        self.data.len() == 0
    }

    /// The sequence as a FASTA record: `>` and the name on one line, the
    /// symbols on the next. There is none where the symbols are no UTF-8.
    pub fn to_fasta(&self) -> (record: Option<String>)
        ensures
            record is Some <==> valid_utf8(self.data@),
            record matches Some(text) ==> text@ == seq!['>'] + self.name@ + seq!['\n']
                + decode_utf8(self.data@),
    {
        match from_utf8(self.data.as_slice()) {
            Some(symbols) => {
                proof {
                    reveal_strlit(">");
                    reveal_strlit("\n");
                    assert(">"@ =~= seq!['>']);
                    assert("\n"@ =~= seq!['\n']);
                }
                let mut text: String = ">".to_owned();
                text.append(self.name.as_str());
                text.append("\n");
                text.append(symbols);
                Some(text)
            },
            None => None,
        }
    }

    /// Strips the gaps: gives the sequence of the residues alone, under the
    /// same name, and for each residue the column it stood in.
    pub fn into_unaligned(self) -> (unaligned: (Self, Vec<usize>))
        ensures
            unaligned.0.name@ == self.name@,
            unaligned.0.data@ == residues(self.data@),
            as_columns(unaligned.1@) == residue_columns(self.data@),
    {
        let mut positions: Vec<usize> = Vec::new();
        let mut no_gap_data: Vec<u8> = Vec::new();
        let length: usize = self.data.len();
        for column in 0..length
            invariant
                length == self.data@.len(),
                no_gap_data@ == residues(self.data@.take(column as int)),
                as_columns(positions@) == residue_columns(self.data@.take(column as int)),
        {
            let symbol: u8 = self.data[column];
            proof {
                let longer = self.data@.take(column + 1);
                assert(longer.drop_last() == self.data@.take(column as int));
                assert(longer.last() == symbol);
            }
            if symbol != GAP_CHARACTER {
                let ghost before = as_columns(positions@);
                positions.push(column);
                no_gap_data.push(symbol);
                assert(as_columns(positions@) == before.push(column as int));
            }
        }
        assert(self.data@.take(length as int) == self.data@);
        (Self { name: self.name, data: no_gap_data }, positions)
    }

    /// Restricts the sequence to the core-block columns: gives, under the
    /// same name, the symbols that stand where `core_blocks` is true.
    pub fn select_core_blocks(&self, core_blocks: &[bool]) -> (selected: Self)
        requires
            self.data@.len() == core_blocks@.len(),
        ensures
            selected.name@ == self.name@,
            selected.data@ == select_core(self.data@, core_blocks@),
    {
        let mut data: Vec<u8> = Vec::new();
        let length: usize = self.data.len();
        for column in 0..length
            invariant
                length == self.data@.len(),
                length == core_blocks@.len(),
                data@ == select_core(
                    self.data@.take(column as int),
                    core_blocks@.take(column as int),
                ),
        {
            proof {
                let longer = self.data@.take(column + 1);
                let longer_core = core_blocks@.take(column + 1);
                assert(longer.drop_last() == self.data@.take(column as int));
                assert(longer_core.drop_last() == core_blocks@.take(column as int));
            }
            if core_blocks[column] {
                data.push(self.data[column]);
            }
        }
        assert(self.data@.take(length as int) == self.data@);
        assert(core_blocks@.take(length as int) == core_blocks@);
        Self { name: self.name.clone(), data }
    }
}

} // verus!
