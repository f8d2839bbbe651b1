//! The score matrix and the choice matrix of a global alignment, and the
//! path back through them, as mathematical functions.
//!
//! Cell `(i, j)` of the score matrix holds the best score of aligning the
//! first `i` symbols of one sequence with the first `j` symbols of the other.
//! Indices are those of the matrix: cell `(i, j)` looks at symbols `i - 1`
//! and `j - 1`.

use vstd::prelude::*;
use crate::align::{AlignKind, Aligner, Column};

verus! {

/// A bound on the magnitude of a penalty: two to the power of 31.
#[verifier::inline]
pub open spec fn penalty_limit() -> int {
    0x8000_0000
}

/// Score of pairing symbol `a` with symbol `b`: nothing when they are the
/// same symbol, the mismatch penalty otherwise.
pub open spec fn pair_score<T>(cfg: Aligner, a: T, b: T) -> int {
    if a == b {
        0
    } else {
        cfg.mismatch_penalty as int
    }
}

/// Score of `k` consecutive gaps.
pub open spec fn gap_run(cfg: Aligner, k: nat) -> int {
    k * cfg.gap_penalty
}

/// The move that wins among the three candidate scores of a cell: the
/// greatest one, and on equal scores `Match` before `Delete` before `Insert`.
pub open spec fn best_kind(matched: int, deleted: int, inserted: int) -> AlignKind {
    if matched >= deleted && matched >= inserted {
        AlignKind::Match
    } else if deleted >= inserted {
        AlignKind::Delete
    } else {
        AlignKind::Insert
    }
}

/// The greatest of the three candidate scores of a cell.
pub open spec fn best_score(matched: int, deleted: int, inserted: int) -> int {
    match best_kind(matched, deleted, inserted) {
        AlignKind::Match => matched,
        AlignKind::Delete => deleted,
        AlignKind::Insert => inserted,
    }
}

/// Cell `(i, j)` of the score matrix of `s0` against `s1`.
pub open spec fn score_at<T>(cfg: Aligner, s0: Seq<T>, s1: Seq<T>, i: nat, j: nat) -> int
    decreases i + j,
{
    if i == 0 {
        gap_run(cfg, j)
    } else if j == 0 {
        gap_run(cfg, i)
    } else {
        best_score(
            score_at(cfg, s0, s1, (i - 1) as nat, (j - 1) as nat) + pair_score(
                cfg,
                s0[i - 1],
                s1[j - 1],
            ),
            score_at(cfg, s0, s1, (i - 1) as nat, j) + cfg.gap_penalty,
            score_at(cfg, s0, s1, i, (j - 1) as nat) + cfg.gap_penalty,
        )
    }
}

/// Candidate score of cell `(i, j)` for pairing symbols `i - 1` and `j - 1`.
pub open spec fn match_candidate<T>(cfg: Aligner, s0: Seq<T>, s1: Seq<T>, i: nat, j: nat) -> int {
    score_at(cfg, s0, s1, (i - 1) as nat, (j - 1) as nat) + pair_score(cfg, s0[i - 1], s1[j - 1])
}

/// Candidate score of cell `(i, j)` for symbol `i - 1` of `s0` against a gap.
pub open spec fn delete_candidate<T>(cfg: Aligner, s0: Seq<T>, s1: Seq<T>, i: nat, j: nat) -> int {
    score_at(cfg, s0, s1, (i - 1) as nat, j) + cfg.gap_penalty
}

/// Candidate score of cell `(i, j)` for a gap against symbol `j - 1` of `s1`.
pub open spec fn insert_candidate<T>(cfg: Aligner, s0: Seq<T>, s1: Seq<T>, i: nat, j: nat) -> int {
    score_at(cfg, s0, s1, i, (j - 1) as nat) + cfg.gap_penalty
}

/// Cell `(i, j)` of the choice matrix, for `i > 0` and `j > 0`: the move that
/// produced `score_at` there.
pub open spec fn choice_at<T>(cfg: Aligner, s0: Seq<T>, s1: Seq<T>, i: nat, j: nat) -> AlignKind {
    best_kind(
        match_candidate(cfg, s0, s1, i, j),
        delete_candidate(cfg, s0, s1, i, j),
        insert_candidate(cfg, s0, s1, i, j),
    )
}

/// The alignment that the choice matrix gives for the first `i` symbols of
/// `s0` and the first `j` symbols of `s1`, from the start of the sequences to
/// their end. Its last column is the move chosen at cell `(i, j)`; once one
/// sequence is used up, what is left of the other stands against gaps.
pub open spec fn traceback<T>(cfg: Aligner, s0: Seq<T>, s1: Seq<T>, i: nat, j: nat) -> Seq<
    Column<T>,
>
    decreases i + j,
{
    if i == 0 && j == 0 {
        Seq::empty()
    } else if j == 0 {
        traceback(cfg, s0, s1, (i - 1) as nat, j).push((Some(s0[i - 1]), None))
    } else if i == 0 {
        traceback(cfg, s0, s1, i, (j - 1) as nat).push((None, Some(s1[j - 1])))
    } else {
        match choice_at(cfg, s0, s1, i, j) {
            AlignKind::Match => traceback(cfg, s0, s1, (i - 1) as nat, (j - 1) as nat).push(
                (Some(s0[i - 1]), Some(s1[j - 1])),
            ),
            AlignKind::Delete => traceback(cfg, s0, s1, (i - 1) as nat, j).push(
                (Some(s0[i - 1]), None),
            ),
            AlignKind::Insert => traceback(cfg, s0, s1, i, (j - 1) as nat).push(
                (None, Some(s1[j - 1])),
            ),
        }
    }
}

/// Score of one column: the score of the pair where both sides hold a
/// symbol, the gap penalty where one side holds a gap.
pub open spec fn column_score<T>(cfg: Aligner, col: Column<T>) -> int {
    match col {
        (Some(a), Some(b)) => pair_score(cfg, a, b),
        (None, None) => 0,
        _ => cfg.gap_penalty as int,
    }
}

/// Score of an alignment: the sum of the scores of its columns.
pub open spec fn columns_score<T>(cfg: Aligner, cols: Seq<Column<T>>) -> int
    decreases cols.len(),
{
    if cols.len() == 0 {
        0
    } else {
        columns_score(cfg, cols.drop_last()) + column_score(cfg, cols.last())
    }
}

/// An interior cell of the score matrix holds the candidate score of the
/// move that the choice matrix records there, and no candidate is greater.
pub proof fn lemma_score_is_best<T>(cfg: Aligner, s0: Seq<T>, s1: Seq<T>, i: nat, j: nat)
    requires
        i > 0,
        j > 0,
    ensures
        score_at(cfg, s0, s1, i, j) == best_score(
            match_candidate(cfg, s0, s1, i, j),
            delete_candidate(cfg, s0, s1, i, j),
            insert_candidate(cfg, s0, s1, i, j),
        ),
        score_at(cfg, s0, s1, i, j) == match choice_at(cfg, s0, s1, i, j) {
            AlignKind::Match => match_candidate(cfg, s0, s1, i, j),
            AlignKind::Delete => delete_candidate(cfg, s0, s1, i, j),
            AlignKind::Insert => insert_candidate(cfg, s0, s1, i, j),
        },
        score_at(cfg, s0, s1, i, j) >= match_candidate(cfg, s0, s1, i, j),
        score_at(cfg, s0, s1, i, j) >= delete_candidate(cfg, s0, s1, i, j),
        score_at(cfg, s0, s1, i, j) >= insert_candidate(cfg, s0, s1, i, j),
{
}

/// `k` gaps cost no more than `k` times the largest penalty.
pub proof fn lemma_gap_run_bounded(cfg: Aligner, k: nat)
    ensures
        -k * penalty_limit() <= gap_run(cfg, k) <= k * penalty_limit(),
{
    let g = cfg.gap_penalty as int;
    let limit = penalty_limit();
    assert(-limit <= g <= limit);
    assert(-k * limit <= k * g <= k * limit) by (nonlinear_arith)
        requires
            0 <= k,
            -limit <= g <= limit,
    ;
}

/// One more gap adds the gap penalty once.
pub proof fn lemma_gap_run_step(cfg: Aligner, k: nat)
    ensures
        gap_run(cfg, k + 1) == gap_run(cfg, k) + cfg.gap_penalty,
        gap_run(cfg, 0) == 0,
{
    let g = cfg.gap_penalty as int;
    assert((k + 1) * g == k * g + g) by (nonlinear_arith);
}

/// Every cell of the score matrix is within `i + j` times the largest
/// penalty of zero.
pub proof fn lemma_score_bounded<T>(cfg: Aligner, s0: Seq<T>, s1: Seq<T>, i: nat, j: nat)
    ensures
        -(i + j) * penalty_limit() <= score_at(cfg, s0, s1, i, j) <= (i + j) * penalty_limit(),
    decreases i + j,
{
    if i == 0 {
        lemma_gap_run_bounded(cfg, j);
    } else if j == 0 {
        lemma_gap_run_bounded(cfg, i);
    } else {
        lemma_score_bounded(cfg, s0, s1, (i - 1) as nat, (j - 1) as nat);
        lemma_score_bounded(cfg, s0, s1, (i - 1) as nat, j);
        lemma_score_bounded(cfg, s0, s1, i, (j - 1) as nat);
    }
}

/// Picks the winning move among the three candidate scores of a cell, and
/// its score: the greatest candidate, the earlier-listed one on a tie.
pub fn best_move(matched: i128, deleted: i128, inserted: i128) -> (best: (AlignKind, i128))
    ensures
        best.0 == best_kind(matched as int, deleted as int, inserted as int),
        best.1 == best_score(matched as int, deleted as int, inserted as int),
{
    if matched >= deleted && matched >= inserted {
        (AlignKind::Match, matched)
    } else if deleted >= inserted {
        (AlignKind::Delete, deleted)
    } else {
        (AlignKind::Insert, inserted)
    }
}

} // verus!
