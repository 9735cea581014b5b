use bali_score::{Alignment, AlignmentError, PositionAlignment, Sequence, Site};

fn rows(rows: &[&str], core_blocks: Vec<bool>) -> Alignment {
    let aligned_data = rows
        .iter()
        .enumerate()
        .map(|(i, row)| Sequence::new(format!("seq{}", i), row.as_bytes().to_vec()))
        .collect();
    Alignment::new("alignment".to_string(), aligned_data, core_blocks)
}

fn site(seq: usize, pos: usize) -> Site {
    Site { seq, pos }
}

#[test]
fn new_derives_unaligned_data_and_position_map() {
    let alignment = rows(&["AC-G", "A-CG"], vec![true, false, false, true]);
    assert_eq!(alignment.name, "alignment");
    assert_eq!(alignment.aligned_data.len(), 2);
    assert_eq!(alignment.unaligned_data.len(), 2);
    assert_eq!(alignment.unaligned_data[0].name, "seq0");
    assert_eq!(alignment.unaligned_data[0].data, b"ACG".to_vec());
    assert_eq!(alignment.unaligned_data[1].data, b"ACG".to_vec());
    assert_eq!(alignment.pos_aligned(site(0, 1), site(1, 1)), PositionAlignment::Unknown);
    assert_eq!(alignment.pos_aligned(site(0, 2), site(1, 2)), PositionAlignment::Correct);
    assert_eq!(alignment.pos_aligned(site(0, 1), site(1, 2)), PositionAlignment::Incorrect);
    assert_eq!(alignment.core_blocks, vec![true, false, false, true]);
}

#[test]
fn new_does_not_check_lengths() {
    let alignment = rows(&["AC-G", "A"], vec![true]);
    assert_eq!(alignment.unaligned_data[1].data, b"A".to_vec());
    assert_eq!(alignment.validate(), Err(AlignmentError::InconsistentLength));
}

#[test]
fn position_map_round_trip() {
    let alignment = rows(&["--AC-G-T", "ACGT----", "A-C-G-T-"], vec![true; 8]);
    for s in 0..3 {
        let unaligned = &alignment.unaligned_data[s].data;
        let (stripped, map) = alignment.aligned_data[s].clone().into_unaligned();
        assert_eq!(&stripped.data, unaligned);
        assert_eq!(unaligned.len(), map.len());
        for place in 0..unaligned.len() {
            assert_eq!(alignment.aligned_data[s].data[map[place]], unaligned[place]);
            assert_eq!(
                alignment.pos_aligned(site(s, place), site(s, place)),
                PositionAlignment::Correct
            );
        }
    }
    assert_eq!(alignment.pos_aligned(site(0, 0), site(2, 1)), PositionAlignment::Correct);
    assert_eq!(alignment.pos_aligned(site(0, 3), site(1, 3)), PositionAlignment::Incorrect);
}

#[test]
fn same_core_column_is_correct() {
    let alignment = rows(&["AC-G", "A-CG"], vec![true, false, false, true]);
    assert_eq!(alignment.pos_aligned(site(0, 0), site(1, 0)), PositionAlignment::Correct);
    assert_eq!(alignment.pos_aligned(site(0, 2), site(1, 2)), PositionAlignment::Correct);
    assert_eq!(alignment.pos_aligned(site(0, 0), site(0, 0)), PositionAlignment::Correct);
}

#[test]
fn different_columns_one_core_is_incorrect() {
    let alignment = rows(&["AC-G", "A-CG"], vec![true, false, false, true]);
    assert_eq!(alignment.pos_aligned(site(0, 0), site(1, 1)), PositionAlignment::Incorrect);
    assert_eq!(alignment.pos_aligned(site(0, 1), site(1, 2)), PositionAlignment::Incorrect);
    assert_eq!(alignment.pos_aligned(site(0, 0), site(1, 2)), PositionAlignment::Incorrect);
}

#[test]
fn no_core_column_is_unknown() {
    let alignment = rows(&["ACG", "ACG"], vec![true, false, false]);
    assert_eq!(alignment.pos_aligned(site(0, 1), site(1, 1)), PositionAlignment::Unknown);
    assert_eq!(alignment.pos_aligned(site(0, 1), site(1, 2)), PositionAlignment::Unknown);
}

#[test]
fn every_pair_of_sites_gets_one_judgement() {
    let alignment = rows(&["A-CG", "AC-G"], vec![true, false, true, false]);
    let map: Vec<Vec<usize>> = alignment
        .aligned_data
        .iter()
        .map(|row| row.clone().into_unaligned().1)
        .collect();
    for p1 in 0..3 {
        for p2 in 0..3 {
            let (c1, c2) = (map[0][p1], map[1][p2]);
            let core = &alignment.core_blocks;
            let expected = if c1 == c2 && core[c1] {
                PositionAlignment::Correct
            } else if c1 != c2 && (core[c1] || core[c2]) {
                PositionAlignment::Incorrect
            } else {
                PositionAlignment::Unknown
            };
            assert_eq!(alignment.pos_aligned(site(0, p1), site(1, p2)), expected);
        }
    }
}

#[test]
fn core_block_data_restricts_each_row() {
    let alignment = rows(&["AC-G", "A-CG"], vec![true, false, true, true]);
    let data = alignment.core_block_data();
    assert_eq!(data.len(), 2);
    assert_eq!(data[0].name, "seq0");
    assert_eq!(data[0].data, b"A-G".to_vec());
    assert_eq!(data[1].name, "seq1");
    assert_eq!(data[1].data, b"ACG".to_vec());
}

#[test]
fn core_block_columns_counts_true_flags() {
    assert_eq!(rows(&["ACGT"], vec![true, false, true, true]).core_block_columns(), 3);
    assert_eq!(rows(&["ACGT"], vec![false; 4]).core_block_columns(), 0);
    assert_eq!(rows(&[], vec![]).core_block_columns(), 0);
}

#[test]
fn validate_accepts_a_rectangle() {
    assert_eq!(rows(&["AC-G", "A-CG"], vec![true; 4]).validate(), Ok(()));
}

#[test]
fn validate_reports_empty_alignment() {
    assert_eq!(rows(&[], vec![]).validate(), Err(AlignmentError::EmptyAlignment));
    assert_eq!(rows(&["", "A"], vec![]).validate(), Err(AlignmentError::EmptyAlignment));
}

#[test]
fn validate_reports_inconsistent_length() {
    assert_eq!(
        rows(&["ACG", "AC", "ACG"], vec![true; 3]).validate(),
        Err(AlignmentError::InconsistentLength)
    );
}

#[test]
fn validate_reports_core_block_length() {
    assert_eq!(
        rows(&["ACG", "ACG"], vec![true; 2]).validate(),
        Err(AlignmentError::CoreBlockLength)
    );
}

#[test]
fn comparable_needs_same_residue_counts() {
    let reference = rows(&["AC-G", "A-CG"], vec![true; 4]);
    assert!(reference.comparable(&rows(&["ACG", "acg"], vec![true; 3])));
    assert!(!reference.comparable(&rows(&["ACG", "AC-"], vec![true; 3])));
    assert!(!reference.comparable(&rows(&["ACG"], vec![true; 3])));
}

#[test]
fn clone_keeps_rows_flags_and_derived_data() {
    let alignment = rows(&["AC-G", "A-CG"], vec![true, false, false, true]);
    let copy = alignment.clone();
    assert_eq!(copy.name, alignment.name);
    assert!(copy.aligned_data == alignment.aligned_data);
    assert!(copy.unaligned_data == alignment.unaligned_data);
    assert!(copy.unaligned_to_aligned_pos == alignment.unaligned_to_aligned_pos);
    assert_eq!(copy.core_blocks, alignment.core_blocks);
}

#[test]
fn try_new_builds_what_new_builds() {
    let aligned_data = vec![
        Sequence::new("one".to_string(), b"AC-G".to_vec()),
        Sequence::new("two".to_string(), b"A-CG".to_vec()),
    ];
    let built = Alignment::try_new("x".to_string(), aligned_data, vec![true; 4]).unwrap();
    assert_eq!(built.name, "x");
    assert_eq!(built.aligned_data[1].name, "two");
    assert_eq!(built.unaligned_data[0].data, b"ACG".to_vec());
    assert_eq!(built.core_blocks, vec![true; 4]);
    assert_eq!(built.validate(), Ok(()));
    assert_eq!(built.pos_aligned(site(0, 1), site(1, 1)), PositionAlignment::Incorrect);
}

#[test]
fn try_new_reports_the_first_fault() {
    let data = |rows: &[&str]| -> Vec<Sequence> {
        rows.iter().map(|row| Sequence::new("s".to_string(), row.as_bytes().to_vec())).collect()
    };
    let fault = |rows: &[&str], flags: usize| {
        Alignment::try_new("x".to_string(), data(rows), vec![true; flags]).err()
    };
    assert_eq!(fault(&[], 0), Some(AlignmentError::EmptyAlignment));
    assert_eq!(fault(&["", ""], 0), Some(AlignmentError::EmptyAlignment));
    assert_eq!(fault(&["", "A"], 1), Some(AlignmentError::EmptyAlignment));
    assert_eq!(fault(&["AC", "A"], 1), Some(AlignmentError::InconsistentLength));
    assert_eq!(fault(&["AC", "ACG"], 2), Some(AlignmentError::InconsistentLength));
    assert_eq!(fault(&["AC", "AC"], 3), Some(AlignmentError::CoreBlockLength));
    assert_eq!(fault(&["AC", "AC"], 2), None);
}

#[test]
fn clone_keeps_the_names_of_the_sequences() {
    let alignment = rows(&["AC-G", "A-CG"], vec![true; 4]);
    let copy = alignment.clone();
    assert_eq!(copy.aligned_data[0].name, "seq0");
    assert_eq!(copy.aligned_data[1].name, "seq1");
    assert_eq!(copy.unaligned_data[1].name, "seq1");
}
