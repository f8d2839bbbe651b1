//! What holds of every alignment that the engine returns.

use vstd::prelude::*;
use crate::align::{
    all_match, columns_of, first_side, gap_count, is_alignment_of, is_gap, is_matching,
    lemma_matching_pairs_extremes, matching_pairs, second_side, Aligner, AlignKind, Column,
};
use crate::scoring::{
    choice_at, column_score, columns_score, delete_candidate, insert_candidate,
    lemma_gap_run_step, lemma_score_is_best, match_candidate, score_at, traceback,
};

verus! {

/// The columns that pair each symbol of `s` with itself.
pub open spec fn diagonal<T>(s: Seq<T>) -> Seq<Column<T>> {
    Seq::new(s.len(), |k: int| (Some(s[k]), Some(s[k])))
}

/// The columns that set each symbol of `s` against a gap in the other
/// sequence.
pub open spec fn all_deleted<T>(s: Seq<T>) -> Seq<Column<T>> {
    Seq::new(s.len(), |k: int| (Some(s[k]), None))
}

/// The columns that set a gap in the other sequence against each symbol of
/// `s`.
pub open spec fn all_inserted<T>(s: Seq<T>) -> Seq<Column<T>> {
    Seq::new(s.len(), |k: int| (None, Some(s[k])))
}

/// What a further column adds to the two sides, to the matching pairs and to
/// the gaps.
pub proof fn lemma_push_column<T>(cols: Seq<Column<T>>, col: Column<T>)
    ensures
        first_side(cols.push(col)) == match col.0 {
            Some(symbol) => first_side(cols).push(symbol),
            None => first_side(cols),
        },
        second_side(cols.push(col)) == match col.1 {
            Some(symbol) => second_side(cols).push(symbol),
            None => second_side(cols),
        },
        matching_pairs(cols.push(col)) == matching_pairs(cols) + if is_matching(col) {
            1nat
        } else {
            0nat
        },
        gap_count(cols.push(col)) == gap_count(cols) + if is_gap(col) {
            1nat
        } else {
            0nat
        },
{
    assert(cols.push(col).drop_last() == cols);
    assert(cols.push(col).last() == col);
}

/// Reconstruction: the symbols on the first side of the traceback, in order,
/// are the symbols of the first sequence, and those on the second side are
/// the symbols of the second sequence.
pub proof fn lemma_traceback_sides<T>(cfg: Aligner, s0: Seq<T>, s1: Seq<T>, i: nat, j: nat)
    requires
        i <= s0.len(),
        j <= s1.len(),
    ensures
        first_side(traceback(cfg, s0, s1, i, j)) == s0.take(i as int),
        second_side(traceback(cfg, s0, s1, i, j)) == s1.take(j as int),
    decreases i + j,
{
    let up = (i - 1) as nat;
    let left = (j - 1) as nat;
    if i == 0 && j == 0 {
        assert(s0.take(0) == Seq::<T>::empty());
        assert(s1.take(0) == Seq::<T>::empty());
    } else {
        if i > 0 {
            assert(s0.take(up as int).push(s0[i - 1]) == s0.take(i as int));
        }
        if j > 0 {
            assert(s1.take(left as int).push(s1[j - 1]) == s1.take(j as int));
        }
        if j == 0 {
            lemma_traceback_sides(cfg, s0, s1, up, j);
            lemma_push_column(traceback(cfg, s0, s1, up, j), (Some(s0[i - 1]), None));
        } else if i == 0 {
            lemma_traceback_sides(cfg, s0, s1, i, left);
            lemma_push_column(traceback(cfg, s0, s1, i, left), (None, Some(s1[j - 1])));
        } else {
            match choice_at(cfg, s0, s1, i, j) {
                AlignKind::Match => {
                    lemma_traceback_sides(cfg, s0, s1, up, left);
                    lemma_push_column(
                        traceback(cfg, s0, s1, up, left),
                        (Some(s0[i - 1]), Some(s1[j - 1])),
                    );
                },
                AlignKind::Delete => {
                    lemma_traceback_sides(cfg, s0, s1, up, j);
                    lemma_push_column(traceback(cfg, s0, s1, up, j), (Some(s0[i - 1]), None));
                },
                AlignKind::Insert => {
                    lemma_traceback_sides(cfg, s0, s1, i, left);
                    lemma_push_column(traceback(cfg, s0, s1, i, left), (None, Some(s1[j - 1])));
                },
            }
        }
    }
}

/// No column of the traceback holds a gap on both sides, and the traceback
/// is at least as long as the longer prefix and at most as long as both
/// together.
pub proof fn lemma_traceback_columns<T>(cfg: Aligner, s0: Seq<T>, s1: Seq<T>, i: nat, j: nat)
    ensures
        forall|k: int|
            0 <= k < traceback(cfg, s0, s1, i, j).len() ==> {
                let col = #[trigger] traceback(cfg, s0, s1, i, j)[k];
                col.0 is Some || col.1 is Some
            },
        i <= traceback(cfg, s0, s1, i, j).len(),
        j <= traceback(cfg, s0, s1, i, j).len(),
        traceback(cfg, s0, s1, i, j).len() <= i + j,
    decreases i + j,
{
    let up = (i - 1) as nat;
    let left = (j - 1) as nat;
    if i == 0 && j == 0 {
    } else if j == 0 {
        lemma_traceback_columns(cfg, s0, s1, up, j);
    } else if i == 0 {
        lemma_traceback_columns(cfg, s0, s1, i, left);
    } else {
        match choice_at(cfg, s0, s1, i, j) {
            AlignKind::Match => lemma_traceback_columns(cfg, s0, s1, up, left),
            AlignKind::Delete => lemma_traceback_columns(cfg, s0, s1, up, j),
            AlignKind::Insert => lemma_traceback_columns(cfg, s0, s1, i, left),
        }
    }
}

/// With penalties that are not positive, no cell of the score matrix is
/// positive.
pub proof fn lemma_score_not_positive<T>(cfg: Aligner, s0: Seq<T>, s1: Seq<T>, i: nat, j: nat)
    requires
        cfg.mismatch_penalty <= 0,
        cfg.gap_penalty <= 0,
    ensures
        score_at(cfg, s0, s1, i, j) <= 0,
    decreases i + j,
{
    let g = cfg.gap_penalty as int;
    if i == 0 {
        assert(j * g <= 0) by (nonlinear_arith)
            requires
                0 <= j,
                g <= 0,
        ;
    } else if j == 0 {
        assert(i * g <= 0) by (nonlinear_arith)
            requires
                0 <= i,
                g <= 0,
        ;
    } else {
        lemma_score_not_positive(cfg, s0, s1, (i - 1) as nat, (j - 1) as nat);
        lemma_score_not_positive(cfg, s0, s1, (i - 1) as nat, j);
        lemma_score_not_positive(cfg, s0, s1, i, (j - 1) as nat);
    }
}

/// With penalties that are not positive, the diagonal of the score matrix of
/// a sequence against itself is zero, and the traceback from a cell of the
/// diagonal pairs each symbol with itself.
pub proof fn lemma_self_diagonal<T>(cfg: Aligner, s: Seq<T>, i: nat)
    requires
        cfg.mismatch_penalty <= 0,
        cfg.gap_penalty <= 0,
        i <= s.len(),
    ensures
        score_at(cfg, s, s, i, i) == 0,
        traceback(cfg, s, s, i, i) == diagonal(s.take(i as int)),
    decreases i,
{
    if i == 0 {
        assert(traceback(cfg, s, s, 0, 0) == diagonal(s.take(0)));
    } else {
        // The pair keeps the zero of the cell before it on the diagonal, and
        // neither gap can do better: the pair is chosen.
        let up = (i - 1) as nat;
        lemma_self_diagonal(cfg, s, up);
        lemma_score_not_positive(cfg, s, s, up, i);
        lemma_score_not_positive(cfg, s, s, i, up);
        assert(match_candidate(cfg, s, s, i, i) == 0);
        assert(delete_candidate(cfg, s, s, i, i) <= 0);
        assert(insert_candidate(cfg, s, s, i, i) <= 0);
        assert(choice_at(cfg, s, s, i, i) == AlignKind::Match);
        assert(diagonal(s.take(up as int)).push((Some(s[i - 1]), Some(s[i - 1]))) == diagonal(
            s.take(i as int),
        ));
    }
}

/// The columns that pair each symbol with itself hold no gap, and all of
/// them match.
pub proof fn lemma_diagonal_counts<T>(s: Seq<T>)
    ensures
        gap_count(diagonal(s)) == 0,
        matching_pairs(diagonal(s)) == s.len(),
        first_side(diagonal(s)) == s,
        second_side(diagonal(s)) == s,
    decreases s.len(),
{
    if s.len() > 0 {
        lemma_diagonal_counts(s.drop_last());
        assert(diagonal(s).drop_last() == diagonal(s.drop_last()));
    }
    assert(first_side(diagonal(s)) == s);
    assert(second_side(diagonal(s)) == s);
}

/// Aligning a sequence with itself, with penalties that are not positive,
/// pairs each symbol with itself: the score is zero, there are as many
/// columns as symbols, no column holds a gap and every column matches, so
/// that the matching ratio of a sequence that is not empty is one.
pub proof fn lemma_self_alignment<T>(cfg: Aligner, s: Seq<T>)
    requires
        cfg.mismatch_penalty <= 0,
        cfg.gap_penalty <= 0,
    ensures
        score_at(cfg, s, s, s.len(), s.len()) == 0,
        traceback(cfg, s, s, s.len(), s.len()) == diagonal(s),
        traceback(cfg, s, s, s.len(), s.len()).len() == s.len(),
        gap_count(traceback(cfg, s, s, s.len(), s.len())) == 0,
        matching_pairs(traceback(cfg, s, s, s.len(), s.len())) == s.len(),
        all_match(traceback(cfg, s, s, s.len(), s.len())),
{
    lemma_self_diagonal(cfg, s, s.len());
    assert(s.take(s.len() as int) == s);
    lemma_diagonal_counts(s);
    lemma_matching_pairs_extremes(diagonal(s));
}

/// A prefix of a sequence against the empty sequence: each symbol against a
/// gap, on either side.
pub proof fn lemma_against_empty_prefix<T>(cfg: Aligner, s: Seq<T>, i: nat)
    requires
        i <= s.len(),
    ensures
        traceback(cfg, s, Seq::<T>::empty(), i, 0) == all_deleted(s.take(i as int)),
        traceback(cfg, Seq::<T>::empty(), s, 0, i) == all_inserted(s.take(i as int)),
        gap_count(all_deleted(s.take(i as int))) == i,
        gap_count(all_inserted(s.take(i as int))) == i,
        matching_pairs(all_deleted(s.take(i as int))) == 0,
        matching_pairs(all_inserted(s.take(i as int))) == 0,
    decreases i,
{
    let none = Seq::<T>::empty();
    if i == 0 {
        assert(traceback(cfg, s, none, 0, 0) == all_deleted(s.take(0)));
        assert(traceback(cfg, none, s, 0, 0) == all_inserted(s.take(0)));
    } else {
        let up = (i - 1) as nat;
        lemma_against_empty_prefix(cfg, s, up);
        assert(all_deleted(s.take(up as int)).push((Some(s[i - 1]), None)) == all_deleted(
            s.take(i as int),
        ));
        assert(all_inserted(s.take(up as int)).push((None, Some(s[i - 1]))) == all_inserted(
            s.take(i as int),
        ));
        lemma_push_column(all_deleted(s.take(up as int)), (Some(s[i - 1]), None));
        lemma_push_column(all_inserted(s.take(up as int)), (None, Some(s[i - 1])));
    }
}

/// Aligning a sequence against the empty sequence, on either side, sets
/// each of its symbols against a gap: the alignment has as many columns as
/// the sequence has symbols, every one of them holds a gap, and the score is
/// the gap penalty times the length of the sequence.
pub proof fn lemma_against_empty<T>(cfg: Aligner, s: Seq<T>)
    ensures
        traceback(cfg, s, Seq::<T>::empty(), s.len(), 0) == all_deleted(s),
        traceback(cfg, Seq::<T>::empty(), s, 0, s.len()) == all_inserted(s),
        all_deleted(s).len() == s.len(),
        all_inserted(s).len() == s.len(),
        gap_count(all_deleted(s)) == s.len(),
        gap_count(all_inserted(s)) == s.len(),
        matching_pairs(all_deleted(s)) == 0,
        matching_pairs(all_inserted(s)) == 0,
        score_at(cfg, s, Seq::<T>::empty(), s.len(), 0) == s.len() * cfg.gap_penalty,
        score_at(cfg, Seq::<T>::empty(), s, 0, s.len()) == s.len() * cfg.gap_penalty,
{
    lemma_against_empty_prefix(cfg, s, s.len());
    assert(s.take(s.len() as int) == s);
}

/// The traceback from the bottom-right cell is a global alignment of the two
/// sequences.
pub proof fn lemma_traceback_is_alignment<T>(cfg: Aligner, s0: Seq<T>, s1: Seq<T>)
    ensures
        is_alignment_of(traceback(cfg, s0, s1, s0.len(), s1.len()), s0, s1),
{
    lemma_traceback_sides(cfg, s0, s1, s0.len(), s1.len());
    lemma_traceback_columns(cfg, s0, s1, s0.len(), s1.len());
    assert(s0.take(s0.len() as int) == s0);
    assert(s1.take(s1.len() as int) == s1);
}

/// What a further column adds to the score of an alignment.
pub proof fn lemma_push_column_score<T>(cfg: Aligner, cols: Seq<Column<T>>, col: Column<T>)
    ensures
        columns_score(cfg, cols.push(col)) == columns_score(cfg, cols) + column_score(cfg, col),
{
    assert(cols.push(col).drop_last() == cols);
    assert(cols.push(col).last() == col);
}

/// The columns of the traceback from a cell add up to the score in that
/// cell: the score of the record is the score of its alignment.
pub proof fn lemma_traceback_score<T>(cfg: Aligner, s0: Seq<T>, s1: Seq<T>, i: nat, j: nat)
    ensures
        columns_score(cfg, traceback(cfg, s0, s1, i, j)) == score_at(cfg, s0, s1, i, j),
    decreases i + j,
{
    let up = (i - 1) as nat;
    let left = (j - 1) as nat;
    if i == 0 && j == 0 {
    } else if j == 0 {
        lemma_traceback_score(cfg, s0, s1, up, j);
        lemma_gap_run_step(cfg, up);
        lemma_push_column_score(cfg, traceback(cfg, s0, s1, up, j), (Some(s0[i - 1]), None));
    } else if i == 0 {
        lemma_traceback_score(cfg, s0, s1, i, left);
        lemma_gap_run_step(cfg, left);
        lemma_push_column_score(cfg, traceback(cfg, s0, s1, i, left), (None, Some(s1[j - 1])));
    } else {
        match choice_at(cfg, s0, s1, i, j) {
            AlignKind::Match => {
                lemma_traceback_score(cfg, s0, s1, up, left);
                lemma_push_column_score(
                    cfg,
                    traceback(cfg, s0, s1, up, left),
                    (Some(s0[i - 1]), Some(s1[j - 1])),
                );
            },
            AlignKind::Delete => {
                lemma_traceback_score(cfg, s0, s1, up, j);
                lemma_push_column_score(
                    cfg,
                    traceback(cfg, s0, s1, up, j),
                    (Some(s0[i - 1]), None),
                );
            },
            AlignKind::Insert => {
                lemma_traceback_score(cfg, s0, s1, i, left);
                lemma_push_column_score(
                    cfg,
                    traceback(cfg, s0, s1, i, left),
                    (None, Some(s1[j - 1])),
                );
            },
        }
    }
}

/// Optimality: no columns whose sides hold the first `i` symbols of `s0` and
/// the first `j` symbols of `s1` score more than cell `(i, j)` of the score
/// matrix, be there columns among them that hold a gap on both sides or not.
pub proof fn lemma_score_is_optimal<T>(
    cfg: Aligner,
    s0: Seq<T>,
    s1: Seq<T>,
    i: nat,
    j: nat,
    cols: Seq<Column<T>>,
)
    requires
        i <= s0.len(),
        j <= s1.len(),
        first_side(cols) == s0.take(i as int),
        second_side(cols) == s1.take(j as int),
    ensures
        columns_score(cfg, cols) <= score_at(cfg, s0, s1, i, j),
    decreases cols.len(),
{
    if cols.len() == 0 {
        assert(i == 0 && j == 0);
    } else {
        // Without its last column, `cols` holds the prefixes that end where
        // that column begins; the last column is then one of the candidates
        // of cell `(i, j)`, or the next gap along the border, or it holds
        // nothing and adds nothing.
        let rest = cols.drop_last();
        let last = cols.last();
        let side0 = s0.take(i as int);
        let side1 = s1.take(j as int);
        let up: nat = if last.0 is Some {
            (i - 1) as nat
        } else {
            i
        };
        let left: nat = if last.1 is Some {
            (j - 1) as nat
        } else {
            j
        };
        if last.0 is Some {
            assert(first_side(rest).push(last.0->0) == side0);
            assert(first_side(rest).len() + 1 == side0.len());
            assert(side0.last() == last.0->0);
            assert(first_side(rest) == side0.drop_last());
            assert(side0.drop_last() == s0.take(up as int));
        }
        if last.1 is Some {
            assert(second_side(rest).push(last.1->0) == side1);
            assert(second_side(rest).len() + 1 == side1.len());
            assert(side1.last() == last.1->0);
            assert(second_side(rest) == side1.drop_last());
            assert(side1.drop_last() == s1.take(left as int));
        }
        lemma_score_is_optimal(cfg, s0, s1, up, left, rest);
        if last.0 is None && last.1 is None {
        } else if i > 0 && j > 0 {
            lemma_score_is_best(cfg, s0, s1, i, j);
        } else if i > 0 {
            lemma_gap_run_step(cfg, up);
        } else {
            lemma_gap_run_step(cfg, left);
        }
    }
}

/// The engine is optimal: its alignment is a global alignment of the two
/// sequences, its score is the score of that alignment, and no columns
/// whose sides hold the two sequences score more.
pub proof fn lemma_alignment_is_optimal<T>(
    cfg: Aligner,
    s0: Seq<T>,
    s1: Seq<T>,
    other: Seq<Column<T>>,
)
    requires
        first_side(other) == s0,
        second_side(other) == s1,
    ensures
        is_alignment_of(traceback(cfg, s0, s1, s0.len(), s1.len()), s0, s1),
        columns_score(cfg, traceback(cfg, s0, s1, s0.len(), s1.len())) == score_at(
            cfg,
            s0,
            s1,
            s0.len(),
            s1.len(),
        ),
        columns_score(cfg, other) <= score_at(cfg, s0, s1, s0.len(), s1.len()),
{
    lemma_traceback_is_alignment(cfg, s0, s1);
    lemma_traceback_score(cfg, s0, s1, s0.len(), s1.len());
    assert(s0.take(s0.len() as int) == s0);
    assert(s1.take(s1.len() as int) == s1);
    lemma_score_is_optimal(cfg, s0, s1, s0.len(), s1.len(), other);
}

/// Determinism: the inputs fix the alignment. Two records that both hold the
/// traceback and the bottom-right score of the same sequences under the
/// same penalties have the same columns, pair by pair, and the same score,
/// whichever candidates tie on the way.
pub proof fn lemma_alignment_is_unique<T>(
    cfg: Aligner,
    s0: Seq<T>,
    s1: Seq<T>,
    a: Seq<[Option<T>; 2]>,
    a_score: i128,
    b: Seq<[Option<T>; 2]>,
    b_score: i128,
)
    requires
        columns_of(a) == traceback(cfg, s0, s1, s0.len(), s1.len()),
        columns_of(b) == traceback(cfg, s0, s1, s0.len(), s1.len()),
        a_score == score_at(cfg, s0, s1, s0.len(), s1.len()),
        b_score == score_at(cfg, s0, s1, s0.len(), s1.len()),
    ensures
        a == b,
        a_score == b_score,
{
    assert(a.len() == columns_of(a).len() == b.len());
    assert forall|k: int| 0 <= k < a.len() implies a[k] == b[k] by {
        assert(columns_of(a)[k] == columns_of(b)[k]);
        assert(a[k]@ =~= b[k]@);
    }
    assert(a =~= b);
}

} // verus!
