use bali_score::sequence::GAP_CHARACTER;
use bali_score::{Alignment, Sequence};

fn sequence(name: &str, data: &str) -> Sequence {
    Sequence::new(name.to_string(), data.as_bytes().to_vec())
}

#[test]
fn new_keeps_name_and_data() {
    let seq = sequence("one", "AC-G");
    assert_eq!(seq.name, "one");
    assert_eq!(seq.data, b"AC-G".to_vec());
}

#[test]
fn len_counts_gaps_too() {
    assert_eq!(sequence("one", "AC-G").len(), 4);
    assert_eq!(sequence("one", "").len(), 0);
}

#[test]
fn is_empty_only_without_symbols() {
    assert!(sequence("one", "").is_empty());
    assert!(!sequence("one", "-").is_empty());
}

#[test]
fn gap_character_is_the_hyphen() {
    assert_eq!(GAP_CHARACTER, b'-');
    assert_eq!(Alignment::GAP_CHARACTER, b'-');
}

#[test]
fn into_unaligned_strips_gaps_and_records_columns() {
    let (unaligned, positions) = sequence("one", "-A--CG-T").into_unaligned();
    assert_eq!(unaligned.name, "one");
    assert_eq!(unaligned.data, b"ACGT".to_vec());
    assert_eq!(positions, vec![1, 4, 5, 7]);
}

#[test]
fn into_unaligned_of_gaps_alone_is_empty() {
    let (unaligned, positions) = sequence("one", "---").into_unaligned();
    assert!(unaligned.is_empty());
    assert!(positions.is_empty());
}

#[test]
fn into_unaligned_without_gaps_keeps_everything() {
    let (unaligned, positions) = sequence("one", "acgt").into_unaligned();
    assert_eq!(unaligned.data, b"acgt".to_vec());
    assert_eq!(positions, vec![0, 1, 2, 3]);
}

#[test]
fn recorded_columns_lead_back_to_the_residues() {
    let aligned = sequence("one", "--AC-G-tt--A");
    let (unaligned, positions) = aligned.clone().into_unaligned();
    assert_eq!(unaligned.data.len(), positions.len());
    for (place, column) in positions.iter().enumerate() {
        assert_eq!(aligned.data[*column], unaligned.data[place]);
        assert_ne!(aligned.data[*column], b'-');
    }
    for pair in positions.windows(2) {
        assert!(pair[0] < pair[1]);
    }
}

#[test]
fn select_core_blocks_keeps_flagged_columns() {
    let selected = sequence("one", "AC-GT").select_core_blocks(&[true, false, true, true, false]);
    assert_eq!(selected.name, "one");
    assert_eq!(selected.data, b"A-G".to_vec());
}

#[test]
fn select_core_blocks_without_core_is_empty() {
    let selected = sequence("one", "ACG").select_core_blocks(&[false, false, false]);
    assert!(selected.is_empty());
}

#[test]
fn clone_is_equal() {
    let seq = sequence("one", "AC-G");
    assert!(seq.clone() == seq);
}

#[test]
fn to_fasta_writes_name_and_symbols() {
    assert_eq!(sequence("one", "AC-G").to_fasta(), Some(">one\nAC-G".to_string()));
}

#[test]
fn to_fasta_refuses_invalid_utf8() {
    let seq = Sequence::new("one".to_string(), vec![b'A', 0xff, b'C']);
    assert_eq!(seq.to_fasta(), None);
}
