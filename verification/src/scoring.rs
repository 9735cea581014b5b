//! The scores of a test alignment against a reference alignment: how many
//! of the reference's truly aligned residue pairs and core-block columns the
//! test alignment reproduces.

use crate::alignment::{Alignment, AlignmentView, PositionAlignment, Site};
use crate::counting::{
    count_range, lemma_count_agree, lemma_count_bound, lemma_sum_agree, lemma_sum_split,
    sum_range,
};
use crate::laws::lemma_correct_pairs_bounded;
use crate::pairs::{
    as_int_pairs, binomial, binomial_u128, count_listed, count_pairs, index_pairs,
    lemma_binomial_two, lemma_count_listed_next, lemma_count_listed_pairs,
    lemma_pairs_from_members, tuple_combinations,
};
use crate::sequence::{
    gaps_before, lemma_gaps_before_prefix, lemma_residue_columns, lemma_unaligned_position,
    residue_columns, residues, select_core, unaligned_position, GAP_CHARACTER,
};
use vstd::prelude::*;

verus! {

/// Whether a row holds a residue in `column`, as a predicate on rows.
pub open spec fn residue_at(rows: Seq<Seq<u8>>, column: int) -> spec_fn(int) -> bool {
    |s: int| rows[s][column] != GAP_CHARACTER
}

/// The number of rows that hold a residue in `column`.
pub open spec fn residues_in_column(rows: Seq<Seq<u8>>, column: int) -> nat {
    count_range(0, rows.len() as int, residue_at(rows, column))
}

/// For each column, the number of pairs among the residues in it.
pub open spec fn pairs_in_column(rows: Seq<Seq<u8>>) -> spec_fn(int) -> nat {
    |column: int| binomial(residues_in_column(rows, column), 2)
}

/// For each column, the number of pairs among the residues in it if it is a
/// core-block column, and none if it is not.
pub open spec fn true_pairs_in_column(alignment: AlignmentView) -> spec_fn(int) -> nat {
    |column: int|
        if alignment.core[column] {
            binomial(residues_in_column(alignment.rows, column), 2)
        } else {
            0
        }
}

/// The number of residue pairs that an alignment holds truly aligned: the
/// pairs of residues that stand together in a core-block column.
pub open spec fn true_site_pairs(alignment: AlignmentView) -> nat {
    sum_range(0, alignment.core.len() as int, true_pairs_in_column(alignment))
}

/// Whether a symbol is an upper-case ASCII letter.
pub open spec fn is_upper(symbol: u8) -> bool {
    65 <= symbol <= 90
}

/// Whether two residue symbols may count as aligned: always where the case
/// is ignored, else only where both are upper-case.
pub open spec fn symbols_aligned(ignore_symbol_case: bool, first: u8, second: u8) -> bool {
    ignore_symbol_case || (is_upper(first) && is_upper(second))
}

/// Whether the test alignment aligns the rows `a` and `b` correctly in
/// `column`: both hold a residue there, the two symbols may count as
/// aligned, and the reference judges the two sites `Correct`.
pub open spec fn pair_correct(
    reference: AlignmentView,
    test: AlignmentView,
    ignore_symbol_case: bool,
    column: int,
    a: int,
    b: int,
) -> bool {
    &&& test.rows[a][column] != GAP_CHARACTER
    &&& test.rows[b][column] != GAP_CHARACTER
    &&& symbols_aligned(ignore_symbol_case, test.rows[a][column], test.rows[b][column])
    &&& reference.classify(
        reference.column_at(a, unaligned_position(test.rows[a], column)),
        reference.column_at(b, unaligned_position(test.rows[b], column)),
    ) == PositionAlignment::Correct
}

/// `pair_correct` in one column, as a property of pairs of rows.
pub open spec fn correct_in(
    reference: AlignmentView,
    test: AlignmentView,
    ignore_symbol_case: bool,
    column: int,
) -> spec_fn(int, int) -> bool {
    |a: int, b: int| pair_correct(reference, test, ignore_symbol_case, column, a, b)
}

/// For each column of the test alignment, the number of pairs of rows that
/// it aligns correctly there.
pub open spec fn correct_pairs_in_column(
    reference: AlignmentView,
    test: AlignmentView,
    ignore_symbol_case: bool,
) -> spec_fn(int) -> nat {
    |column: int|
        count_pairs(
            test.rows.len() as int,
            correct_in(reference, test, ignore_symbol_case, column),
        )
}

/// The number of correctly aligned pairs over all columns of the test
/// alignment.
pub open spec fn correct_pairs(
    reference: AlignmentView,
    test: AlignmentView,
    ignore_symbol_case: bool,
) -> nat {
    sum_range(
        0,
        test.core.len() as int,
        correct_pairs_in_column(reference, test, ignore_symbol_case),
    )
}

/// Whether row `s` belongs to a pair that the test alignment aligns
/// correctly in `column`.
pub open spec fn marked(
    reference: AlignmentView,
    test: AlignmentView,
    ignore_symbol_case: bool,
    column: int,
    s: int,
) -> bool {
    exists|a: int, b: int|
        0 <= a < b < test.rows.len() && (a == s || b == s) && #[trigger] pair_correct(
            reference,
            test,
            ignore_symbol_case,
            column,
            a,
            b,
        )
}

/// Whether every row belongs to a correctly aligned pair in a column, as a
/// predicate on the columns of the test alignment.
pub open spec fn column_correct(
    reference: AlignmentView,
    test: AlignmentView,
    ignore_symbol_case: bool,
) -> spec_fn(int) -> bool {
    |column: int|
        forall|s: int|
            0 <= s < test.rows.len() ==> #[trigger] marked(
                reference,
                test,
                ignore_symbol_case,
                column,
                s,
            )
}

/// The number of columns of the test alignment in which every row belongs
/// to a correctly aligned pair.
pub open spec fn correct_columns(
    reference: AlignmentView,
    test: AlignmentView,
    ignore_symbol_case: bool,
) -> nat {
    count_range(0, test.core.len() as int, column_correct(reference, test, ignore_symbol_case))
}

/// A score as an exact ratio of two counts.
#[derive(Debug, Clone, Copy, PartialEq, Eq, Structural)]
pub struct Ratio {
    pub numerator: usize,
    pub denominator: usize,
}

/// The two scores of a test alignment against a reference.
#[derive(Debug, Clone, Copy, PartialEq, Eq, Structural)]
pub struct AlignmentScores {
    /// Correctly aligned pairs over truly aligned pairs.
    pub sum_of_pairs: Ratio,
    /// Correct columns over core-block columns.
    pub column_score: Ratio,
}

/// Why a comparison has no scores.
#[derive(Debug, Clone, Copy, PartialEq, Eq, Structural)]
pub enum ScoreError {
    /// The reference has no core-block column: both scores are undefined.
    NoCoreBlocks,
    /// No two residues of the reference stand together in a core-block
    /// column: the sum-of-pairs score is undefined.
    NoAlignedPairs,
    /// The number of truly aligned pairs of the reference does not fit in a
    /// machine integer.
    Overflow,
}

/// What a comparison yields: the scores, or the reason why there are none.
/// The counts are those of two alignments that can be scored against each
/// other; of such alignments no numerator exceeds its denominator.
pub open spec fn score(
    reference: AlignmentView,
    test: AlignmentView,
    ignore_symbol_case: bool,
) -> Result<AlignmentScores, ScoreError> {
    if reference.core_columns() == 0 {
        Err(ScoreError::NoCoreBlocks)
    } else if true_site_pairs(reference) == 0 {
        Err(ScoreError::NoAlignedPairs)
    } else if true_site_pairs(reference) > usize::MAX {
        Err(ScoreError::Overflow)
    } else {
        Ok(
            AlignmentScores {
                sum_of_pairs: Ratio {
                    numerator: correct_pairs(reference, test, ignore_symbol_case) as usize,
                    denominator: true_site_pairs(reference) as usize,
                },
                column_score: Ratio {
                    numerator: correct_columns(reference, test, ignore_symbol_case) as usize,
                    denominator: reference.core_columns() as usize,
                },
            },
        )
    }
}

/// The first `width` columns of an alignment.
pub open spec fn leading_columns(alignment: AlignmentView, width: int) -> AlignmentView {
    AlignmentView {
        rows: Seq::new(alignment.rows.len(), |s: int| alignment.rows[s].take(width)),
        core: alignment.core.take(width),
    }
}

/// A row restricted to the core-block columns has as many symbols as there
/// are core-block columns.
pub proof fn lemma_select_core_len(row: Seq<u8>, core: Seq<bool>)
    requires
        row.len() == core.len(),
    ensures
        select_core(row, core).len() == count_range(0, core.len() as int, |c: int| core[c]),
    decreases row.len(),
{
    if row.len() > 0 {
        lemma_select_core_len(row.drop_last(), core.drop_last());
        lemma_count_agree(
            0,
            core.len() - 1,
            |c: int| core.drop_last()[c],
            |c: int| core[c],
        );
    }
}

/// Counting the pairs column by column in the rows restricted to the core
/// blocks gives the number of truly aligned pairs.
pub proof fn lemma_core_rows_pairs(alignment: AlignmentView, width: int)
    requires
        alignment.rectangular(),
        0 <= width <= alignment.core.len(),
    ensures
        sum_range(
            0,
            leading_columns(alignment, width).core_columns() as int,
            pairs_in_column(leading_columns(alignment, width).core_rows()),
        ) == sum_range(0, width, true_pairs_in_column(alignment)),
    decreases width,
{
    if width > 0 {
        lemma_core_rows_pairs(alignment, width - 1);
        let shorter = leading_columns(alignment, width - 1);
        let longer = leading_columns(alignment, width);
        let kept = shorter.core_columns() as int;
        lemma_count_agree(0, width - 1, shorter.core_at(), longer.core_at());
        assert(longer.core.drop_last() == shorter.core);
        assert forall|s: int| 0 <= s < alignment.rows.len() implies (#[trigger] longer.rows[
            s
        ]).drop_last() == shorter.rows[s] && shorter.core_rows()[s].len() == kept by {
            lemma_select_core_len(shorter.rows[s], shorter.core);
            lemma_count_agree(0, width - 1, |c: int| shorter.core[c], shorter.core_at());
        }
        if alignment.core[width - 1] {
            assert forall|column: int| 0 <= column < kept implies #[trigger] pairs_in_column(
                longer.core_rows(),
            )(column) == pairs_in_column(shorter.core_rows())(column) by {
                assert forall|s: int| 0 <= s < alignment.rows.len() implies #[trigger] residue_at(
                    longer.core_rows(),
                    column,
                )(s) == residue_at(shorter.core_rows(), column)(s) by {
                    assert(longer.core_rows()[s] == shorter.core_rows()[s].push(
                        longer.rows[s].last(),
                    ));
                }
                lemma_count_agree(
                    0,
                    alignment.rows.len() as int,
                    residue_at(longer.core_rows(), column),
                    residue_at(shorter.core_rows(), column),
                );
            }
            lemma_sum_agree(
                0,
                kept,
                pairs_in_column(longer.core_rows()),
                pairs_in_column(shorter.core_rows()),
            );
            assert forall|s: int| 0 <= s < alignment.rows.len() implies #[trigger] residue_at(
                longer.core_rows(),
                kept,
            )(s) == residue_at(alignment.rows, width - 1)(s) by {
                assert(longer.core_rows()[s] == shorter.core_rows()[s].push(
                    longer.rows[s].last(),
                ));
            }
            lemma_count_agree(
                0,
                alignment.rows.len() as int,
                residue_at(longer.core_rows(), kept),
                residue_at(alignment.rows, width - 1),
            );
        } else {
            assert(longer.core_rows() =~= shorter.core_rows());
        }
    }
}

/// The number of residue pairs that an alignment holds truly aligned, or
/// `None` where that number does not fit.
pub fn true_site_pair_count(alignment: &Alignment) -> (count: Option<usize>)
    requires
        alignment@.rectangular(),
        alignment@.rows.len() > 0,
    ensures
        count == if true_site_pairs(alignment@) <= usize::MAX {
            Some(true_site_pairs(alignment@) as usize)
        } else {
            None
        },
{
    let core_block_data = alignment.core_block_data();
    let aligned_seq_len: usize = core_block_data[0].data.len();
    let seq_cnt: usize = core_block_data.len();
    let ghost core_rows = alignment@.core_rows();
    proof {
        let whole = leading_columns(alignment@, alignment@.core.len() as int);
        assert(alignment@.core.take(alignment@.core.len() as int) == alignment@.core);
        assert(whole.rows =~= alignment@.rows) by {
            assert forall|s: int| 0 <= s < alignment@.rows.len() implies whole.rows[s]
                == alignment@.rows[s] by {
                assert(alignment@.rows[s].take(alignment@.core.len() as int)
                    == alignment@.rows[s]);
            }
        }
        assert(whole == alignment@);
        lemma_core_rows_pairs(alignment@, alignment@.core.len() as int);
        assert forall|s: int| 0 <= s < seq_cnt implies (#[trigger] core_rows[s]).len()
            == alignment@.core_columns() by {
            lemma_select_core_len(alignment@.rows[s], alignment@.core);
            lemma_count_agree(
                0,
                alignment@.core.len() as int,
                |c: int| alignment@.core[c],
                alignment@.core_at(),
            );
        }
    }
    let mut total: u128 = 0;
    for pos in 0..aligned_seq_len
        invariant
            seq_cnt == core_block_data@.len(),
            seq_cnt == core_rows.len(),
            forall|s: int|
                0 <= s < seq_cnt ==> (#[trigger] core_block_data@[s]).data@ == core_rows[s],
            forall|s: int| 0 <= s < seq_cnt ==> (#[trigger] core_rows[s]).len() == aligned_seq_len,
            total == sum_range(0, pos as int, pairs_in_column(core_rows)),
            total <= usize::MAX,
            sum_range(0, aligned_seq_len as int, pairs_in_column(core_rows)) == true_site_pairs(
                alignment@,
            ),
    {
        let mut aligned_count: usize = 0;
        for s in 0..seq_cnt
            invariant
                seq_cnt == core_block_data@.len(),
                seq_cnt == core_rows.len(),
                pos < aligned_seq_len,
                forall|t: int|
                    0 <= t < seq_cnt ==> (#[trigger] core_block_data@[t]).data@ == core_rows[t],
                forall|t: int|
                    0 <= t < seq_cnt ==> (#[trigger] core_rows[t]).len() == aligned_seq_len,
                aligned_count == count_range(0, s as int, residue_at(core_rows, pos as int)),
                aligned_count <= s,
        {
            assert(core_block_data@[s as int].data@ == core_rows[s as int]);
            if core_block_data[s].data[pos] != GAP_CHARACTER {
                aligned_count += 1;
            }
        }
        proof {
            lemma_binomial_two(aligned_count as nat);
            assert(aligned_count * (aligned_count - 1) <= 0xffff_ffff_ffff_ffff
                * 0xffff_ffff_ffff_ffff) by (nonlinear_arith)
                requires
                    0 <= aligned_count <= 0xffff_ffff_ffff_ffff,
            ;
            lemma_sum_split(0, pos + 1, aligned_seq_len as int, pairs_in_column(core_rows));
        }
        let pairs: u128 = binomial_u128(aligned_count as u128, 2);
        total = total + pairs;
        if total > usize::MAX as u128 {
            return None;
        }
    }
    Some(total as usize)
}

/// A residue of the test alignment names a site of the reference: the
/// unaligned position of the residue that row `s` holds in `column` is a
/// place among the residues of that row, in the test alignment and so in a
/// comparable reference, and there it stands in a column of the reference.
pub proof fn lemma_site_of_residue(
    reference: AlignmentView,
    test: AlignmentView,
    s: int,
    column: int,
)
    requires
        reference.comparable(test),
        reference.rectangular(),
        0 <= s < test.rows.len(),
        0 <= column < test.rows[s].len(),
        test.rows[s][column] != GAP_CHARACTER,
    ensures
        0 <= unaligned_position(test.rows[s], column) < residues(reference.rows[s]).len(),
        unaligned_position(test.rows[s], column) == column - gaps_before(
            test.rows[s],
            column + 1,
        ),
        0 <= reference.column_at(s, unaligned_position(test.rows[s], column))
            < reference.core.len(),
{
    lemma_unaligned_position(test.rows[s], column);
    lemma_residue_columns(reference.rows[s]);
    assert(reference.rows[s].len() == reference.core.len());
    let position = unaligned_position(test.rows[s], column);
    assert(gaps_before(test.rows[s], column + 1) == gaps_before(test.rows[s], column));
    let column_there = residue_columns(reference.rows[s])[position];
    assert(0 <= column_there < reference.rows[s].len());
}

/// Whether a row and a listed pair go together with the property `p`: the
/// row is a member of the pair at place `k`, and that pair has `p`.
pub open spec fn hit(pairs: Seq<(int, int)>, p: spec_fn(int, int) -> bool, s: int, k: int) -> bool {
    (pairs[k].0 == s || pairs[k].1 == s) && p(pairs[k].0, pairs[k].1)
}

/// Adds the gaps of one column to the running count of gaps of each row.
fn count_gaps(test: &Alignment, column: usize, gaps_per_seq: &mut Vec<usize>)
    requires
        test@.rectangular(),
        column < test@.core.len(),
        old(gaps_per_seq)@.len() == test@.rows.len(),
        forall|s: int|
            0 <= s < test@.rows.len() ==> (#[trigger] old(gaps_per_seq)@[s]) == gaps_before(
                test@.rows[s],
                column as int,
            ),
    ensures
        final(gaps_per_seq)@.len() == test@.rows.len(),
        forall|s: int|
            0 <= s < test@.rows.len() ==> (#[trigger] final(gaps_per_seq)@[s]) == gaps_before(
                test@.rows[s],
                column + 1,
            ),
{
    let seq_cnt: usize = test.aligned_data.len();
    let column_cnt: usize = test.core_blocks.len();
    for seq_id in 0..seq_cnt
        invariant
            test@.rectangular(),
            column < column_cnt == test@.core.len(),
            seq_cnt == test@.rows.len(),
            gaps_per_seq@.len() == seq_cnt,
            forall|s: int|
                0 <= s < seq_id ==> (#[trigger] gaps_per_seq@[s]) == gaps_before(
                    test@.rows[s],
                    column + 1,
                ),
            forall|s: int|
                seq_id <= s < seq_cnt ==> (#[trigger] gaps_per_seq@[s]) == gaps_before(
                    test@.rows[s],
                    column as int,
                ),
    {
        assert(test@.rows[seq_id as int].len() == test@.core.len());
        if test.aligned_data[seq_id].data[column] == GAP_CHARACTER {
            let gaps: usize = gaps_per_seq[seq_id];
            proof {
                lemma_gaps_before_prefix(
                    test@.rows[seq_id as int],
                    column as int,
                    column as int,
                );
                assert(gaps == gaps_before(test@.rows[seq_id as int], column as int));
            }
            gaps_per_seq.set(seq_id, gaps + 1);
        }
    }
}

/// Goes through the pairs of rows in one column of the test alignment:
/// counts the pairs that are aligned correctly, and marks the rows that
/// belong to one.
fn score_column(
    reference: &Alignment,
    test: &Alignment,
    ignore_symbol_case: bool,
    column: usize,
    pairs: &Vec<(usize, usize)>,
    gaps_per_seq: &Vec<usize>,
    correct_in_column: &mut Vec<bool>,
) -> (correct: usize)
    requires
        reference.wf(),
        reference@.rectangular(),
        test@.rectangular(),
        reference@.comparable(test@),
        column < test@.core.len(),
        as_int_pairs(pairs@) == index_pairs(test@.rows.len() as int),
        gaps_per_seq@.len() == test@.rows.len(),
        forall|s: int|
            0 <= s < test@.rows.len() ==> (#[trigger] gaps_per_seq@[s]) == gaps_before(
                test@.rows[s],
                column + 1,
            ),
        old(correct_in_column)@.len() == test@.rows.len(),
        forall|s: int| 0 <= s < test@.rows.len() ==> !(#[trigger] old(correct_in_column)@[s]),
    ensures
        correct == correct_pairs_in_column(reference@, test@, ignore_symbol_case)(column as int),
        final(correct_in_column)@.len() == test@.rows.len(),
        forall|s: int|
            0 <= s < test@.rows.len() ==> (#[trigger] final(correct_in_column)@[s]) == marked(
                reference@,
                test@,
                ignore_symbol_case,
                column as int,
                s,
            ),
{
    let ghost seq_cnt = test@.rows.len() as int;
    let ghost listed = index_pairs(seq_cnt);
    let ghost p = correct_in(reference@, test@, ignore_symbol_case, column as int);
    let pair_cnt: usize = pairs.len();
    let mut correct: usize = 0;
    proof {
        lemma_pairs_from_members(0, seq_cnt);
        assert(listed.len() == pair_cnt) by {
            assert(as_int_pairs(pairs@).len() == pairs@.len());
        }
        assert(listed.take(0) =~= Seq::<(int, int)>::empty());
    }
    for k in 0..pair_cnt
        invariant
            reference.wf(),
            reference@.rectangular(),
            test@.rectangular(),
            reference@.comparable(test@),
            column < test@.core.len(),
            seq_cnt == test@.rows.len(),
            listed == index_pairs(seq_cnt),
            as_int_pairs(pairs@) == listed,
            pair_cnt == pairs@.len(),
            p == correct_in(reference@, test@, ignore_symbol_case, column as int),
            forall|j: int|
                0 <= j < listed.len() ==> {
                    let pair = #[trigger] listed[j];
                    0 <= pair.0 < pair.1 < seq_cnt
                },
            gaps_per_seq@.len() == seq_cnt,
            forall|s: int|
                0 <= s < seq_cnt ==> (#[trigger] gaps_per_seq@[s]) == gaps_before(
                    test@.rows[s],
                    column + 1,
                ),
            correct == count_listed(listed.take(k as int), p),
            correct <= k,
            correct_in_column@.len() == seq_cnt,
            forall|s: int|
                0 <= s < seq_cnt ==> ((#[trigger] correct_in_column@[s]) <==> exists|j: int|
                    0 <= j < k && #[trigger] hit(listed, p, s, j)),
    {
        let (a_idx, b_idx) = pairs[k];
        proof {
            assert(as_int_pairs(pairs@)[k as int] == (a_idx as int, b_idx as int));
            assert(listed[k as int] == (a_idx as int, b_idx as int));
            lemma_count_listed_next(listed, k as int, p);
            assert(test@.rows[a_idx as int].len() == test@.core.len());
            assert(test@.rows[b_idx as int].len() == test@.core.len());
        }
        let a: u8 = test.aligned_data[a_idx].data[column];
        let b: u8 = test.aligned_data[b_idx].data[column];
        let mut aligned: bool = false;
        if a != GAP_CHARACTER && b != GAP_CHARACTER {
            proof {
                lemma_site_of_residue(reference@, test@, a_idx as int, column as int);
                lemma_site_of_residue(reference@, test@, b_idx as int, column as int);
            }
            let site_a = Site { seq: a_idx, pos: column - gaps_per_seq[a_idx] };
            let site_b = Site { seq: b_idx, pos: column - gaps_per_seq[b_idx] };
            assert(site_a.pos == unaligned_position(test@.rows[a_idx as int], column as int));
            assert(site_b.pos == unaligned_position(test@.rows[b_idx as int], column as int));
            let symbols_aligned: bool = ignore_symbol_case || (65 <= a && a <= 90 && 65 <= b
                && b <= 90);
            if symbols_aligned && reference.pos_aligned(site_a, site_b)
                == PositionAlignment::Correct {
                aligned = true;
            }
        }
        assert(aligned == p(a_idx as int, b_idx as int));
        let ghost before = correct_in_column@;
        if aligned {
            correct_in_column.set(a_idx, true);
            correct_in_column.set(b_idx, true);
            correct += 1;
        }
        proof {
            assert forall|s: int| 0 <= s < seq_cnt implies ((#[trigger] correct_in_column@[s])
                <==> exists|j: int| 0 <= j < k + 1 && #[trigger] hit(listed, p, s, j)) by {
                if correct_in_column@[s] {
                    if before[s] {
                        let j = choose|j: int| 0 <= j < k && #[trigger] hit(listed, p, s, j);
                        assert(hit(listed, p, s, j));
                    } else {
                        assert(hit(listed, p, s, k as int));
                    }
                } else {
                    assert forall|j: int| 0 <= j < k + 1 implies !#[trigger] hit(
                        listed,
                        p,
                        s,
                        j,
                    ) by {
                        if j < k {
                            assert(!before[s]);
                        }
                    }
                }
            }
        }
    }
    proof {
        assert(listed.take(pair_cnt as int) == listed);
        lemma_count_listed_pairs(0, seq_cnt, p);
        assert forall|s: int| 0 <= s < seq_cnt implies (#[trigger] correct_in_column@[s])
            == marked(reference@, test@, ignore_symbol_case, column as int, s) by {
            if correct_in_column@[s] {
                let j = choose|j: int| 0 <= j < pair_cnt && #[trigger] hit(listed, p, s, j);
                let pair = listed[j];
                assert(pair_correct(
                    reference@,
                    test@,
                    ignore_symbol_case,
                    column as int,
                    pair.0,
                    pair.1,
                ));
            }
            if marked(reference@, test@, ignore_symbol_case, column as int, s) {
                let (x, y) = choose|x: int, y: int|
                    0 <= x < y < seq_cnt && (x == s || y == s) && #[trigger] pair_correct(
                        reference@,
                        test@,
                        ignore_symbol_case,
                        column as int,
                        x,
                        y,
                    );
                assert(listed.contains((x, y)));
                let j = choose|j: int| 0 <= j < listed.len() && listed[j] == (x, y);
                assert(hit(listed, p, s, j));
            }
        }
    }
    correct
}

/// Scores a test alignment against a reference: goes through the columns
/// of the test alignment, counts the pairs of residues that it aligns as
/// the reference does in a core-block column and the columns in which every
/// sequence belongs to such a pair, and sets both counts against what the
/// reference alone holds: its truly aligned pairs and its core-block
/// columns.
pub fn compute_scores(
    ref_alignment: &Alignment,
    test_alignment: &Alignment,
    ignore_symbol_case: bool,
) -> (scores: Result<AlignmentScores, ScoreError>)
    requires
        ref_alignment.wf(),
        ref_alignment@.scorable(),
        test_alignment@.scorable(),
        ref_alignment@.comparable(test_alignment@),
    ensures
        scores == score(ref_alignment@, test_alignment@, ignore_symbol_case),
{
    let seq_cnt: usize = test_alignment.aligned_data.len();
    let test_column_cnt: usize = test_alignment.aligned_data[0].data.len();
    assert(test_alignment@.rows[0].len() == test_alignment@.core.len());

    let core_columns: usize = ref_alignment.core_block_columns();
    if core_columns == 0 {
        return Err(ScoreError::NoCoreBlocks);
    }
    let true_pairs: usize = match true_site_pair_count(ref_alignment) {
        Some(count) => count,
        None => {
            return Err(ScoreError::Overflow);
        },
    };
    if true_pairs == 0 {
        return Err(ScoreError::NoAlignedPairs);
    }
    let pairs: Vec<(usize, usize)> = tuple_combinations(seq_cnt);
    let mut gaps_per_seq: Vec<usize> = vec![0; seq_cnt];
    let mut correct_in_column: Vec<bool> = vec![false; seq_cnt];
    let mut correctly_aligned: usize = 0;
    let mut correct_column_count: usize = 0;
    let ghost per_column = correct_pairs_in_column(
        ref_alignment@,
        test_alignment@,
        ignore_symbol_case,
    );
    let ghost whole_column = column_correct(ref_alignment@, test_alignment@, ignore_symbol_case);

    for column in 0..test_column_cnt
        invariant
            ref_alignment.wf(),
            ref_alignment@.scorable(),
            test_alignment@.scorable(),
            ref_alignment@.comparable(test_alignment@),
            seq_cnt == test_alignment@.rows.len(),
            test_column_cnt == test_alignment@.core.len(),
            core_columns == ref_alignment@.core_columns(),
            0 < true_pairs == true_site_pairs(ref_alignment@),
            0 < core_columns,
            as_int_pairs(pairs@) == index_pairs(seq_cnt as int),
            per_column == correct_pairs_in_column(
                ref_alignment@,
                test_alignment@,
                ignore_symbol_case,
            ),
            whole_column == column_correct(ref_alignment@, test_alignment@, ignore_symbol_case),
            gaps_per_seq@.len() == seq_cnt,
            forall|s: int|
                0 <= s < seq_cnt ==> (#[trigger] gaps_per_seq@[s]) == gaps_before(
                    test_alignment@.rows[s],
                    column as int,
                ),
            correct_in_column@.len() == seq_cnt,
            correctly_aligned == sum_range(0, column as int, per_column),
            correct_column_count == count_range(0, column as int, whole_column),
            correct_column_count <= column,
    {
        for s in 0..seq_cnt
            invariant
                correct_in_column@.len() == seq_cnt,
                forall|t: int| 0 <= t < s ==> !(#[trigger] correct_in_column@[t]),
        {
            correct_in_column.set(s, false);
        }
        count_gaps(test_alignment, column, &mut gaps_per_seq);
        let in_column: usize = score_column(
            ref_alignment,
            test_alignment,
            ignore_symbol_case,
            column,
            &pairs,
            &gaps_per_seq,
            &mut correct_in_column,
        );
        proof {
            lemma_sum_split(0, column + 1, test_column_cnt as int, per_column);
            lemma_correct_pairs_bounded(ref_alignment@, test_alignment@, ignore_symbol_case);
        }
        correctly_aligned += in_column;
        let mut all_correct: bool = true;
        for s in 0..seq_cnt
            invariant
                correct_in_column@.len() == seq_cnt,
                all_correct <==> forall|t: int| 0 <= t < s ==> #[trigger] correct_in_column@[t],
        {
            if !correct_in_column[s] {
                all_correct = false;
            }
        }
        assert(all_correct == whole_column(column as int)) by {
            if all_correct {
                assert forall|s: int| 0 <= s < seq_cnt implies #[trigger] marked(
                    ref_alignment@,
                    test_alignment@,
                    ignore_symbol_case,
                    column as int,
                    s,
                ) by {
                    assert(correct_in_column@[s]);
                }
            } else {
                let s = choose|s: int| 0 <= s < seq_cnt && !#[trigger] correct_in_column@[s];
                assert(!marked(
                    ref_alignment@,
                    test_alignment@,
                    ignore_symbol_case,
                    column as int,
                    s,
                ));
            }
        }
        if all_correct {
            correct_column_count += 1;
        }
    }
    proof {
        lemma_count_bound(0, test_column_cnt as int, whole_column);
    }
    Ok(
        AlignmentScores {
            sum_of_pairs: Ratio { numerator: correctly_aligned, denominator: true_pairs },
            column_score: Ratio { numerator: correct_column_count, denominator: core_columns },
        },
    )
}

} // verus!
