use bali_score::{
    compute_scores, true_site_pair_count, Alignment, AlignmentScores, Ratio, ScoreError, Sequence,
};

fn alignment(name: &str, rows: &[&str], core_blocks: Vec<bool>) -> Alignment {
    let aligned_data = rows
        .iter()
        .enumerate()
        .map(|(i, row)| Sequence::new(format!("seq{}", i), row.as_bytes().to_vec()))
        .collect();
    Alignment::new(name.to_string(), aligned_data, core_blocks)
}

fn scores(pairs: (usize, usize), columns: (usize, usize)) -> AlignmentScores {
    AlignmentScores {
        sum_of_pairs: Ratio { numerator: pairs.0, denominator: pairs.1 },
        column_score: Ratio { numerator: columns.0, denominator: columns.1 },
    }
}

#[test]
fn identical_alignment_recovers_every_pair() {
    let reference = alignment("ref", &["AC-G", "A-CG"], vec![true; 4]);
    let test = alignment("test", &["AC-G", "A-CG"], vec![true; 4]);
    assert_eq!(compute_scores(&reference, &test, false), Ok(scores((2, 2), (2, 4))));
}

#[test]
fn misaligned_residue_lowers_both_scores() {
    let reference = alignment("ref", &["AC-G", "A-CG"], vec![true; 4]);
    let same = alignment("test", &["AC-G", "A-CG"], vec![true; 4]);
    let moved = alignment("test", &["ACG-", "A-CG"], vec![true; 4]);
    let before = compute_scores(&reference, &same, false).unwrap();
    let after = compute_scores(&reference, &moved, false).unwrap();
    assert_eq!(after, scores((1, 2), (1, 4)));
    assert!(after.sum_of_pairs.numerator < before.sum_of_pairs.numerator);
    assert!(after.column_score.numerator < before.column_score.numerator);
    assert_eq!(after.sum_of_pairs.denominator, before.sum_of_pairs.denominator);
    assert_eq!(after.column_score.denominator, before.column_score.denominator);
}

#[test]
fn self_comparison_without_gaps_scores_one() {
    let reference = alignment("ref", &["ACGT", "ACGA", "TCGT"], vec![true, true, false, true]);
    let result = compute_scores(&reference, &reference, true).unwrap();
    assert_eq!(result, scores((9, 9), (3, 3)));
}

#[test]
fn self_comparison_recovers_every_true_pair() {
    let reference = alignment(
        "ref",
        &["AC-GT-", "A-CGTA", "-ACG-A", "ac-gta"],
        vec![true, false, true, true, true, false],
    );
    let result = compute_scores(&reference, &reference, true).unwrap();
    assert_eq!(result.sum_of_pairs.numerator, result.sum_of_pairs.denominator);
    assert_eq!(result.sum_of_pairs, Ratio { numerator: 13, denominator: 13 });
    assert_eq!(result.column_score, Ratio { numerator: 1, denominator: 4 });
}

#[test]
fn single_sequence_has_no_pairs() {
    let reference = alignment("ref", &["ACG"], vec![true; 3]);
    assert_eq!(compute_scores(&reference, &reference, true), Err(ScoreError::NoAlignedPairs));
}

#[test]
fn denominators_do_not_depend_on_the_test_alignment() {
    let reference = alignment("ref", &["AC-G", "A-CG", "ACG-"], vec![true, true, false, true]);
    let first = alignment("one", &["ACG", "ACG", "ACG"], vec![true; 3]);
    let second = alignment("two", &["A-C-G", "-AC-G", "AC--G"], vec![true; 5]);
    let one = compute_scores(&reference, &first, false).unwrap();
    let two = compute_scores(&reference, &second, true).unwrap();
    assert_eq!(one.sum_of_pairs.denominator, 5);
    assert_eq!(two.sum_of_pairs.denominator, 5);
    assert_eq!(one.column_score.denominator, 3);
    assert_eq!(two.column_score.denominator, 3);
    assert_eq!(true_site_pair_count(&reference), Some(5));
}

#[test]
fn lower_case_residue_counts_only_when_case_is_ignored() {
    let reference = alignment("ref", &["AC", "AC"], vec![true; 2]);
    let test = alignment("test", &["Ac", "AC"], vec![true; 2]);
    assert_eq!(compute_scores(&reference, &test, false), Ok(scores((1, 2), (1, 2))));
    assert_eq!(compute_scores(&reference, &test, true), Ok(scores((2, 2), (2, 2))));
}

#[test]
fn both_residues_must_be_upper_case() {
    let reference = alignment("ref", &["AC", "AC"], vec![true; 2]);
    let test = alignment("test", &["ac", "ac"], vec![true; 2]);
    assert_eq!(compute_scores(&reference, &test, false), Ok(scores((0, 2), (0, 2))));
    assert_eq!(compute_scores(&reference, &test, true), Ok(scores((2, 2), (2, 2))));
}

#[test]
fn symbols_next_to_the_upper_case_letters_do_not_count() {
    let reference = alignment("ref", &["AZ", "AZ"], vec![true; 2]);
    let test = alignment("test", &["@[", "AZ"], vec![true; 2]);
    assert_eq!(compute_scores(&reference, &test, false), Ok(scores((0, 2), (0, 2))));
}

#[test]
fn pairs_outside_core_blocks_do_not_count() {
    let reference = alignment("ref", &["ACG", "ACG"], vec![false, true, false]);
    let test = alignment("test", &["ACG", "ACG"], vec![true; 3]);
    assert_eq!(compute_scores(&reference, &test, false), Ok(scores((1, 1), (1, 1))));
}

#[test]
fn column_counts_only_if_every_sequence_is_in_a_correct_pair() {
    let reference = alignment("ref", &["AC", "AC", "A-"], vec![true; 2]);
    let test = alignment("test", &["AC", "AC", "A-"], vec![true; 2]);
    assert_eq!(compute_scores(&reference, &test, false), Ok(scores((4, 4), (1, 2))));
}

#[test]
fn column_of_two_correct_groups_counts() {
    let reference = alignment("ref", &["A-", "A-", "-A", "-A"], vec![true; 2]);
    let test = alignment("test", &["A", "A", "A", "A"], vec![true]);
    assert_eq!(compute_scores(&reference, &test, false), Ok(scores((2, 2), (1, 2))));
}

#[test]
fn all_pairs_of_sequences_are_compared() {
    let reference = alignment("ref", &["A", "A", "A", "A", "A"], vec![true]);
    let result = compute_scores(&reference, &reference, false).unwrap();
    assert_eq!(result, scores((10, 10), (1, 1)));
}

#[test]
fn reference_without_core_blocks_has_no_scores() {
    let reference = alignment("ref", &["AC", "AC"], vec![false; 2]);
    let test = alignment("test", &["AC", "AC"], vec![true; 2]);
    assert_eq!(compute_scores(&reference, &test, false), Err(ScoreError::NoCoreBlocks));
}

#[test]
fn reference_without_aligned_pairs_has_no_scores() {
    let reference = alignment("ref", &["A-", "-A"], vec![true; 2]);
    let test = alignment("test", &["A", "A"], vec![true]);
    assert_eq!(compute_scores(&reference, &test, false), Err(ScoreError::NoAlignedPairs));
}

#[test]
fn true_site_pairs_sum_over_core_columns() {
    let reference = alignment(
        "ref",
        &["ACGT", "ACG-", "AC--", "A---"],
        vec![true, true, true, true],
    );
    assert_eq!(true_site_pair_count(&reference), Some(6 + 3 + 1));
    let partly = alignment(
        "ref",
        &["ACGT", "ACG-", "AC--", "A---"],
        vec![false, true, false, true],
    );
    assert_eq!(true_site_pair_count(&partly), Some(3));
}

#[test]
fn true_site_pairs_without_core_columns_is_zero() {
    let reference = alignment("ref", &["AC", "AC"], vec![false, false]);
    assert_eq!(true_site_pair_count(&reference), Some(0));
}

#[test]
fn no_numerator_exceeds_its_denominator() {
    let reference = alignment(
        "ref",
        &["AC-GT", "A-CGT", "ACG-T"],
        vec![true, false, true, true, true],
    );
    let tests = [
        alignment("one", &["ACGT", "ACGT", "ACGT"], vec![true; 4]),
        alignment("two", &["A-C-G-T", "-A-C-GT", "ACGT---"], vec![true; 7]),
        alignment("three", &["AC-GT", "A-CGT", "ACG-T"], vec![true; 5]),
    ];
    for test in tests.iter() {
        for ignore in [false, true] {
            let result = compute_scores(&reference, test, ignore).unwrap();
            assert!(result.sum_of_pairs.numerator <= result.sum_of_pairs.denominator);
            assert!(result.column_score.numerator <= result.column_score.denominator);
            assert_eq!(result.sum_of_pairs.denominator, 8);
            assert_eq!(result.column_score.denominator, 4);
        }
    }
}
