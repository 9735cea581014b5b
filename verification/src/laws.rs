//! What holds of the alignment model and of the scores in general.

use crate::alignment::{Alignment, AlignmentView, PositionAlignment};
use crate::counting::{
    lemma_count_agree, lemma_count_at_most, lemma_count_bound, lemma_count_increasing_image,
    lemma_count_none, lemma_sum_agree, lemma_sum_at_most,
};
use crate::pairs::{
    binomial, columns_per_pair, in_column, lemma_count_pairs_agree, lemma_count_pairs_among,
    lemma_count_pairs_at_most, lemma_pairs_by_column, lemma_sum_pairs_at_most, of_pair,
    pairs_per_column, sum_pairs_from,
};
use crate::scoring::{
    column_correct, correct_columns, correct_in, correct_pairs, correct_pairs_in_column,
    is_upper, lemma_site_of_residue, marked, pair_correct, residue_at, score,
    true_pairs_in_column, true_site_pairs,
};
use crate::sequence::{
    lemma_residue_columns, lemma_unaligned_position, lemma_unaligned_position_increases,
    residue_columns, unaligned_position, GAP_CHARACTER,
};
use vstd::prelude::*;

verus! {

/// The position map leads from each residue of an unaligned sequence back
/// to that residue in the aligned row: the column recorded for a place lies
/// in the row, and the row holds there the symbol of that place, which is
/// no gap.
pub proof fn lemma_coordinate_round_trip(alignment: Alignment, s: int, position: int)
    requires
        alignment.wf(),
        0 <= s < alignment.aligned_data@.len(),
        0 <= position < alignment.unaligned_data@[s].data@.len(),
    ensures
        alignment.position_map()[s].len() == alignment.unaligned_data@[s].data@.len(),
        0 <= alignment.position_map()[s][position] < alignment.aligned_data@[s].data@.len(),
        alignment.aligned_data@[s].data@[alignment.position_map()[s][position]]
            == alignment.unaligned_data@[s].data@[position],
        alignment.unaligned_data@[s].data@[position] != GAP_CHARACTER,
{
    lemma_residue_columns(alignment.aligned_data@[s].data@);
    assert(alignment.position_map()[s] == crate::sequence::residue_columns(
        alignment.aligned_data@[s].data@,
    ));
    assert(alignment.unaligned_data@[s].data@ == crate::sequence::residues(
        alignment.aligned_data@[s].data@,
    ));
}

/// Every pair of columns gets exactly one judgement: `Correct` where the
/// columns are one and it is a core-block column, `Incorrect` where they
/// differ and one of them is a core-block column, `Unknown` in every other
/// case.
pub proof fn lemma_classification(alignment: AlignmentView, first: int, second: int)
    ensures
        alignment.classify(first, second) == PositionAlignment::Correct <==> first == second
            && alignment.core[first],
        alignment.classify(first, second) == PositionAlignment::Incorrect <==> first != second
            && (alignment.core[first] || alignment.core[second]),
        alignment.classify(first, second) == PositionAlignment::Unknown <==> !alignment.core[first]
            && (first == second || !alignment.core[second]),
{
}

/// Whether the case of the symbols is ignored matters for a pair only
/// through the symbols: with the case ignored a pair counts where both rows
/// hold a residue and the reference judges their sites `Correct`; with the
/// case regarded it counts where, besides, both symbols are upper-case.
pub proof fn lemma_case_sensitivity(
    reference: AlignmentView,
    test: AlignmentView,
    column: int,
    a: int,
    b: int,
)
    ensures
        pair_correct(reference, test, true, column, a, b) <==> {
            &&& test.rows[a][column] != GAP_CHARACTER
            &&& test.rows[b][column] != GAP_CHARACTER
            &&& reference.classify(
                reference.column_at(a, unaligned_position(test.rows[a], column)),
                reference.column_at(b, unaligned_position(test.rows[b], column)),
            ) == PositionAlignment::Correct
        },
        pair_correct(reference, test, false, column, a, b) <==> {
            &&& pair_correct(reference, test, true, column, a, b)
            &&& is_upper(test.rows[a][column])
            &&& is_upper(test.rows[b][column])
        },
{
}

/// Ignoring the case of the symbols loses nothing: every pair and every
/// column that counts with the case regarded counts with the case ignored.
pub proof fn lemma_ignoring_case_keeps_all(reference: AlignmentView, test: AlignmentView)
    ensures
        correct_pairs(reference, test, false) <= correct_pairs(reference, test, true),
        correct_columns(reference, test, false) <= correct_columns(reference, test, true),
{
    let seq_cnt = test.rows.len() as int;
    let width = test.core.len() as int;
    let strict = correct_pairs_in_column(reference, test, false);
    let loose = correct_pairs_in_column(reference, test, true);
    assert forall|column: int| 0 <= column < width implies #[trigger] strict(column) <= loose(
        column,
    ) by {
        lemma_count_pairs_at_most(
            0,
            seq_cnt,
            correct_in(reference, test, false, column),
            correct_in(reference, test, true, column),
        );
    }
    lemma_sum_at_most(0, width, strict, loose);
    let strict_column = column_correct(reference, test, false);
    let loose_column = column_correct(reference, test, true);
    assert forall|column: int|
        0 <= column < width && #[trigger] strict_column(column) implies loose_column(column) by {
        assert forall|s: int| 0 <= s < seq_cnt implies #[trigger] marked(
            reference,
            test,
            true,
            column,
            s,
        ) by {
            assert(marked(reference, test, false, column, s));
            let (a, b) = choose|a: int, b: int|
                0 <= a < b < seq_cnt && (a == s || b == s) && #[trigger] pair_correct(
                    reference,
                    test,
                    false,
                    column,
                    a,
                    b,
                );
            assert(pair_correct(reference, test, true, column, a, b));
        }
    }
    lemma_count_at_most(0, width, strict_column, loose_column);
}

/// The two denominators come from the reference alone: whatever is scored
/// against one reference, and with the case ignored or not, the scores
/// stand over the same counts, the truly aligned pairs and the core-block
/// columns of the reference.
pub proof fn lemma_denominators_from_reference(
    reference: Alignment,
    first: Alignment,
    first_ignores_case: bool,
    second: Alignment,
    second_ignores_case: bool,
)
    ensures
        score(reference@, first@, first_ignores_case) matches Ok(scores) ==> {
            &&& scores.sum_of_pairs.denominator == true_site_pairs(reference@)
            &&& scores.column_score.denominator == reference@.core_columns()
            &&& scores.sum_of_pairs.denominator > 0
            &&& scores.column_score.denominator > 0
        },
        score(reference@, first@, first_ignores_case) matches Ok(one) ==> (score(
            reference@,
            second@,
            second_ignores_case,
        ) matches Ok(other) ==> {
            &&& one.sum_of_pairs.denominator == other.sum_of_pairs.denominator
            &&& one.column_score.denominator == other.column_score.denominator
        }),
{
    lemma_count_bound(0, reference@.core.len() as int, reference@.core_at());
    assert(reference@.core.len() == reference.core_blocks.len());
}

/// In an alignment scored against itself with the case ignored, a pair of
/// rows is aligned correctly in a column exactly where the column is a
/// core-block column and both rows hold a residue in it.
pub proof fn lemma_self_pair(alignment: AlignmentView, column: int, a: int, b: int)
    requires
        alignment.rectangular(),
        0 <= column < alignment.core.len(),
        0 <= a < alignment.rows.len(),
        0 <= b < alignment.rows.len(),
    ensures
        pair_correct(alignment, alignment, true, column, a, b) <==> {
            &&& alignment.core[column]
            &&& alignment.rows[a][column] != GAP_CHARACTER
            &&& alignment.rows[b][column] != GAP_CHARACTER
        },
{
    assert(alignment.rows[a].len() == alignment.core.len());
    assert(alignment.rows[b].len() == alignment.core.len());
    if alignment.rows[a][column] != GAP_CHARACTER && alignment.rows[b][column] != GAP_CHARACTER {
        lemma_unaligned_position(alignment.rows[a], column);
        lemma_unaligned_position(alignment.rows[b], column);
    }
}

/// An alignment scored against itself with the case ignored recovers each
/// of its truly aligned pairs: the number of correctly aligned pairs is the
/// number of truly aligned pairs, so that the sum-of-pairs score, where it
/// is defined, is one.
pub proof fn lemma_self_comparison_pairs(alignment: AlignmentView)
    requires
        alignment.rectangular(),
    ensures
        correct_pairs(alignment, alignment, true) == true_site_pairs(alignment),
{
    let seq_cnt = alignment.rows.len() as int;
    let found = correct_pairs_in_column(alignment, alignment, true);
    let held = true_pairs_in_column(alignment);
    assert forall|column: int| 0 <= column < alignment.core.len() implies #[trigger] found(column)
        == held(column) by {
        let p = correct_in(alignment, alignment, true, column);
        let q = if alignment.core[column] {
            residue_at(alignment.rows, column)
        } else {
            |s: int| false
        };
        assert forall|a: int, b: int| 0 <= a < b < seq_cnt implies #[trigger] p(a, b) == (q(a)
            && q(b)) by {
            lemma_self_pair(alignment, column, a, b);
        }
        lemma_count_pairs_among(0, seq_cnt, p, q);
        if !alignment.core[column] {
            lemma_count_none(0, seq_cnt, q);
            assert(binomial(0, 2) == 0);
        }
    }
    lemma_sum_agree(0, alignment.core.len() as int, found, held);
}

/// An alignment of two sequences or more, none of which has a gap in a
/// core-block column, scored against itself with the case ignored recovers
/// each of its core-block columns: the number of correct columns is the
/// number of core-block columns, so that the column score, where it is
/// defined, is one.
pub proof fn lemma_self_comparison_columns(alignment: AlignmentView)
    requires
        alignment.rectangular(),
        alignment.rows.len() >= 2,
        forall|s: int, column: int|
            0 <= s < alignment.rows.len() && 0 <= column < alignment.core.len()
                && alignment.core[column] ==> #[trigger] alignment.rows[s][column]
                != GAP_CHARACTER,
    ensures
        correct_columns(alignment, alignment, true) == alignment.core_columns(),
{
    let seq_cnt = alignment.rows.len() as int;
    let whole = column_correct(alignment, alignment, true);
    assert forall|column: int| 0 <= column < alignment.core.len() implies #[trigger] whole(column)
        == alignment.core_at()(column) by {
        if alignment.core[column] {
            assert forall|s: int| 0 <= s < seq_cnt implies #[trigger] marked(
                alignment,
                alignment,
                true,
                column,
                s,
            ) by {
                let (a, b) = if s == 0 {
                    (0int, 1int)
                } else {
                    (0int, s)
                };
                lemma_self_pair(alignment, column, a, b);
                assert(alignment.rows[a][column] != GAP_CHARACTER);
                assert(alignment.rows[b][column] != GAP_CHARACTER);
                assert(pair_correct(alignment, alignment, true, column, a, b));
            }
        } else {
            assert(!marked(alignment, alignment, true, column, 0)) by {
                assert forall|a: int, b: int| 0 <= a < b < seq_cnt implies !#[trigger] pair_correct(
                    alignment,
                    alignment,
                    true,
                    column,
                    a,
                    b,
                ) by {
                    lemma_self_pair(alignment, column, a, b);
                }
            }
        }
    }
    lemma_count_agree(0, alignment.core.len() as int, whole, alignment.core_at());
}

/// The scores of an alignment against itself with the case ignored: the
/// sum-of-pairs score is one, and so is the column score where the alignment
/// has two sequences or more and no gap in a core-block column.
pub proof fn lemma_self_comparison(alignment: Alignment)
    requires
        alignment@.rectangular(),
    ensures
        score(alignment@, alignment@, true) matches Ok(scores) ==> {
            &&& scores.sum_of_pairs.numerator == scores.sum_of_pairs.denominator
            &&& (alignment@.rows.len() >= 2 && (forall|s: int, column: int|
                0 <= s < alignment@.rows.len() && 0 <= column < alignment@.core.len()
                    && alignment@.core[column] ==> #[trigger] alignment@.rows[s][column]
                    != GAP_CHARACTER)) ==> scores.column_score.numerator
                == scores.column_score.denominator
        },
{
    lemma_self_comparison_pairs(alignment@);
    if alignment@.rows.len() >= 2 && (forall|s: int, column: int|
        0 <= s < alignment@.rows.len() && 0 <= column < alignment@.core.len()
            && alignment@.core[column] ==> #[trigger] alignment@.rows[s][column]
            != GAP_CHARACTER) {
        lemma_self_comparison_columns(alignment@);
    }
}

/// For a row of the test alignment, the column of the reference in which
/// the residue of a test column stands.
pub open spec fn reference_column(reference: AlignmentView, test: AlignmentView, s: int) -> spec_fn(
    int,
) -> int {
    |column: int| reference.column_at(s, unaligned_position(test.rows[s], column))
}

/// The residues of a row of the test alignment stand in the reference in
/// the order in which they stand in the test alignment.
pub proof fn lemma_reference_column_increases(
    reference: AlignmentView,
    test: AlignmentView,
    s: int,
    first: int,
    second: int,
)
    requires
        reference.comparable(test),
        0 <= s < test.rows.len(),
        0 <= first < second < test.rows[s].len(),
        test.rows[s][first] != GAP_CHARACTER,
        test.rows[s][second] != GAP_CHARACTER,
    ensures
        reference_column(reference, test, s)(first) < reference_column(reference, test, s)(
            second,
        ),
{
    lemma_unaligned_position(test.rows[s], first);
    lemma_unaligned_position(test.rows[s], second);
    lemma_unaligned_position_increases(test.rows[s], first, second);
    lemma_residue_columns(reference.rows[s]);
    let earlier = unaligned_position(test.rows[s], first);
    let later = unaligned_position(test.rows[s], second);
    assert(residue_columns(reference.rows[s])[earlier] < residue_columns(reference.rows[s])[later]);
}

/// The column score is at most one: the test alignment has no more correct
/// columns than the reference has core-block columns.
pub proof fn lemma_correct_columns_bounded(
    reference: AlignmentView,
    test: AlignmentView,
    ignore_symbol_case: bool,
)
    requires
        reference.rectangular(),
        test.rectangular(),
        reference.comparable(test),
        test.rows.len() > 0,
    ensures
        correct_columns(reference, test, ignore_symbol_case) <= reference.core_columns(),
{
    let whole = column_correct(reference, test, ignore_symbol_case);
    let image = reference_column(reference, test, 0);
    let width = test.core.len() as int;
    assert(test.rows[0].len() == width);
    assert forall|column: int| 0 <= column < width && #[trigger] whole(column) implies 0 <= image(
        column,
    ) < reference.core.len() && reference.core_at()(image(column))
        && test.rows[0][column] != GAP_CHARACTER by {
        assert(marked(reference, test, ignore_symbol_case, column, 0));
        let (a, b) = choose|a: int, b: int|
            0 <= a < b < test.rows.len() && (a == 0 || b == 0) && #[trigger] pair_correct(
                reference,
                test,
                ignore_symbol_case,
                column,
                a,
                b,
            );
        lemma_site_of_residue(reference, test, 0, column);
    }
    assert forall|first: int, second: int|
        0 <= first < second < width && #[trigger] whole(first) && #[trigger] whole(
            second,
        ) implies image(first) < image(second) by {
        lemma_reference_column_increases(reference, test, 0, first, second);
    }
    lemma_count_increasing_image(
        width,
        whole,
        reference.core.len() as int,
        reference.core_at(),
        image,
    );
}

/// `pair_correct` as a property of a column and a pair of rows.
pub open spec fn correct_at(
    reference: AlignmentView,
    test: AlignmentView,
    ignore_symbol_case: bool,
) -> spec_fn(int, int, int) -> bool {
    |column: int, a: int, b: int| pair_correct(reference, test, ignore_symbol_case, column, a, b)
}

/// The correctly aligned pairs can be counted pair by pair: for each pair
/// of rows the columns in which the test alignment aligns it correctly.
pub proof fn lemma_correct_pairs_by_pair(
    reference: AlignmentView,
    test: AlignmentView,
    ignore_symbol_case: bool,
)
    ensures
        correct_pairs(reference, test, ignore_symbol_case) == sum_pairs_from(
            0,
            test.rows.len() as int,
            columns_per_pair(
                test.core.len() as int,
                correct_at(reference, test, ignore_symbol_case),
            ),
        ),
{
    let seq_cnt = test.rows.len() as int;
    let width = test.core.len() as int;
    let p = correct_at(reference, test, ignore_symbol_case);
    let found = correct_pairs_in_column(reference, test, ignore_symbol_case);
    assert forall|column: int| 0 <= column < width implies #[trigger] found(column)
        == pairs_per_column(seq_cnt, p)(column) by {
        lemma_count_pairs_agree(
            0,
            seq_cnt,
            correct_in(reference, test, ignore_symbol_case, column),
            in_column(p, column),
        );
    }
    lemma_sum_agree(0, width, found, pairs_per_column(seq_cnt, p));
    lemma_pairs_by_column(width, seq_cnt, p);
}

/// The sum-of-pairs score is at most one: the test alignment aligns no
/// more pairs correctly than the reference holds truly aligned.
pub proof fn lemma_correct_pairs_bounded(
    reference: AlignmentView,
    test: AlignmentView,
    ignore_symbol_case: bool,
)
    requires
        reference.rectangular(),
        test.rectangular(),
        reference.comparable(test),
    ensures
        correct_pairs(reference, test, ignore_symbol_case) <= true_site_pairs(reference),
{
    let seq_cnt = test.rows.len() as int;
    let found = correct_at(reference, test, ignore_symbol_case);
    let held = correct_at(reference, reference, true);
    let found_per_pair = columns_per_pair(test.core.len() as int, found);
    let held_per_pair = columns_per_pair(reference.core.len() as int, held);
    lemma_self_comparison_pairs(reference);
    lemma_correct_pairs_by_pair(reference, test, ignore_symbol_case);
    lemma_correct_pairs_by_pair(reference, reference, true);
    assert forall|a: int, b: int| 0 <= a < b < seq_cnt implies #[trigger] found_per_pair(a, b)
        <= held_per_pair(a, b) by {
        let image = reference_column(reference, test, a);
        let hits = of_pair(found, a, b);
        assert(test.rows[a].len() == test.core.len());
        assert(test.rows[b].len() == test.core.len());
        assert forall|column: int| 0 <= column < test.core.len() && #[trigger] hits(
            column,
        ) implies 0 <= image(column) < reference.core.len() && of_pair(held, a, b)(
            image(column),
        ) by {
            lemma_site_of_residue(reference, test, a, column);
            lemma_site_of_residue(reference, test, b, column);
            lemma_residue_columns(reference.rows[a]);
            lemma_residue_columns(reference.rows[b]);
            lemma_self_pair(reference, image(column), a, b);
        }
        assert forall|first: int, second: int|
            0 <= first < second < test.core.len() && #[trigger] hits(first) && #[trigger] hits(
                second,
            ) implies image(first) < image(second) by {
            lemma_reference_column_increases(reference, test, a, first, second);
        }
        lemma_count_increasing_image(
            test.core.len() as int,
            hits,
            reference.core.len() as int,
            of_pair(held, a, b),
            image,
        );
    }
    lemma_sum_pairs_at_most(0, seq_cnt, found_per_pair, held_per_pair);
}

/// Both scores are at most one: in the scores of a comparison neither
/// numerator exceeds its denominator.
pub proof fn lemma_scores_at_most_one(
    reference: Alignment,
    test: Alignment,
    ignore_symbol_case: bool,
)
    requires
        reference@.scorable(),
        test@.scorable(),
        reference@.comparable(test@),
    ensures
        score(reference@, test@, ignore_symbol_case) matches Ok(scores) ==> {
            &&& scores.sum_of_pairs.numerator <= scores.sum_of_pairs.denominator
            &&& scores.column_score.numerator <= scores.column_score.denominator
        },
{
    lemma_correct_pairs_bounded(reference@, test@, ignore_symbol_case);
    lemma_correct_columns_bounded(reference@, test@, ignore_symbol_case);
    lemma_count_bound(0, reference@.core.len() as int, reference@.core_at());
    assert(reference@.core.len() == reference.core_blocks.len());
}

} // verus!
