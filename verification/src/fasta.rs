//! A test alignment as a FASTA file gives it: aligned sequences alone, all
//! of whose columns count as one core block.

use crate::alignment::{Alignment, AlignmentError};
use crate::sequence::{from_utf8, Sequence};
use vstd::prelude::*;
use vstd::slice::slice_to_vec;
use vstd::utf8::{decode_utf8, valid_utf8};

verus! {

/// The sequence of a FASTA record: its name is the text of the record's
/// identifier, its symbols are the record's. There is none where the
/// identifier is no UTF-8.
pub fn from_record(id: &[u8], data: &[u8]) -> (sequence: Option<Sequence>)
    ensures
        sequence is Some <==> valid_utf8(id@),
        sequence matches Some(s) ==> s.name@ == decode_utf8(id@) && s.data@ == data@,
{
    match from_utf8(id) {
        Some(name) => Some(Sequence::new(name.to_owned(), slice_to_vec(data))),
        None => None,
    }
}

/// Builds the alignment from the name and the records of a FASTA file, with
/// one core-block flag, true, for each column of the first record. Fails
/// where there is no record.
pub fn parse(name: String, aligned_data: Vec<Sequence>) -> (parsed: Result<
    Alignment,
    AlignmentError,
>)
    ensures
        parsed is Ok <==> aligned_data@.len() > 0,
        parsed matches Err(error) ==> error == AlignmentError::EmptyAlignment,
        parsed matches Ok(alignment) ==> {
            &&& alignment.wf()
            &&& alignment.name == name
            &&& alignment.aligned_data == aligned_data
            &&& alignment.core_blocks@ == Seq::new(aligned_data@[0].data@.len(), |column: int| true)
        },
{
    if aligned_data.len() == 0 {
        return Err(AlignmentError::EmptyAlignment);
    }
    let alig_len: usize = aligned_data[0].data.len();
    let core_blocks: Vec<bool> = vec![true; alig_len];
    assert(core_blocks@ =~= Seq::new(alig_len as nat, |column: int| true));
    Ok(Alignment::new(name, aligned_data, core_blocks))
}

} // verus!
