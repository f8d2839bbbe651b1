//! The alignment engine and the record it produces.

use std::collections::VecDeque;
use vstd::prelude::*;
use crate::laws::{lemma_traceback_is_alignment, lemma_traceback_score};
use crate::scoring::{
    best_move, choice_at, columns_score, gap_run, lemma_gap_run_bounded, lemma_gap_run_step,
    lemma_score_bounded, score_at, traceback,
};
use crate::sequence::{Sequence, Symbol};
use crate::text::{fixed_point, join_chars, push_fixed_point, push_text};

verus! {

/// Number of score units in one point: penalties and scores count
/// hundredths.
pub const UNITS_PER_POINT: i32 = 100;

/// One column of an alignment: a symbol of the first sequence or a gap, over
/// a symbol of the second sequence or a gap.
pub type Column<T> = (Option<T>, Option<T>);

/// An alignment of two sequences.
#[derive(Debug)]
pub struct Alignment<T> {
    /// The columns, from the start of the sequences to their end.
    pub alignment: VecDeque<[Option<T>; 2]>,
    /// The score, in hundredths of a point. Note that the score depends
    /// on the aligner parameters.
    pub score: i128,
}

/// The penalties that parameterize scoring, in hundredths of a point.
#[derive(Debug, Copy, Clone)]
pub struct Aligner {
    /// Added to the score where two aligned symbols differ.
    pub mismatch_penalty: i32,
    /// Added to the score once per gap.
    pub gap_penalty: i32,
}

impl Default for Aligner {
    /// The usual penalties: two points for a mismatch, one for a gap.
    fn default() -> (cfg: Self)
        ensures
            cfg.mismatch_penalty == -200,
            cfg.gap_penalty == -100,
    {
        Aligner { mismatch_penalty: -200, gap_penalty: -100 }
    }
}

/// The move by which an alignment reaches a cell of the score matrix.
#[derive(Debug, Copy, Clone, PartialEq, Eq, Structural)]
pub enum AlignKind {
    /// A symbol of each sequence, paired.
    Match,
    /// A symbol of the first sequence against a gap.
    Delete,
    /// A gap against a symbol of the second sequence.
    Insert,
}

/// The alignment of `s0` with `s1` under the penalties `cfg`: the path back
/// through the choice matrix from its bottom-right cell, with the score in
/// the bottom-right cell of the score matrix.
pub open spec fn aligned<T>(cfg: Aligner, s0: Seq<T>, s1: Seq<T>) -> AlignmentView<T> {
    AlignmentView {
        columns: traceback(cfg, s0, s1, s0.len(), s1.len()),
        score: score_at(cfg, s0, s1, s0.len(), s1.len()),
    }
}

/// The columns that a list of symbol pairs stands for.
pub open spec fn columns_of<T>(pairs: Seq<[Option<T>; 2]>) -> Seq<Column<T>> {
    Seq::new(pairs.len(), |k: int| (pairs[k][0], pairs[k][1]))
}

/// An alignment as plain values: its columns, from the start of the
/// sequences to their end, and its score in hundredths of a point.
pub struct AlignmentView<T> {
    pub columns: Seq<Column<T>>,
    pub score: int,
}

impl<T> View for Alignment<T> {
    type V = AlignmentView<T>;

    open spec fn view(&self) -> AlignmentView<T> {
        AlignmentView { columns: columns_of(self.alignment@), score: self.score as int }
    }
}

/// The share of the columns of an alignment that match: `matching` out of
/// `total`. Of no columns none match, and the share counts as zero.
#[derive(Debug, Copy, Clone, PartialEq, Eq, Structural)]
pub struct Ratio {
    /// Number of columns that pair a symbol with the same symbol.
    pub matching: usize,
    /// Number of columns, gaps included.
    pub total: usize,
}

impl Ratio {
    /// Whether the share is the whole: there are columns, and all match.
    pub open spec fn is_one(self) -> bool {
        self.total > 0 && self.matching == self.total
    }

    /// Whether the share is zero: no column matches.
    pub open spec fn is_zero(self) -> bool {
        self.matching == 0
    }
}

/// Whether a column holds a gap on either side.
pub open spec fn is_gap<T>(col: Column<T>) -> bool {
    col.0 is None || col.1 is None
}

/// Whether a column pairs a symbol with the same symbol.
pub open spec fn is_matching<T>(col: Column<T>) -> bool {
    col.0 is Some && col.0 == col.1
}

/// Number of columns that pair a symbol with the same symbol.
pub open spec fn matching_pairs<T>(cols: Seq<Column<T>>) -> nat
    decreases cols.len(),
{
    if cols.len() == 0 {
        0
    } else {
        matching_pairs(cols.drop_last()) + if is_matching(cols.last()) {
            1nat
        } else {
            0nat
        }
    }
}

/// Number of columns that hold a gap.
pub open spec fn gap_count<T>(cols: Seq<Column<T>>) -> nat
    decreases cols.len(),
{
    if cols.len() == 0 {
        0
    } else {
        gap_count(cols.drop_last()) + if is_gap(cols.last()) {
            1nat
        } else {
            0nat
        }
    }
}

/// The symbols of the first sequence that the columns hold, in order.
pub open spec fn first_side<T>(cols: Seq<Column<T>>) -> Seq<T>
    decreases cols.len(),
{
    if cols.len() == 0 {
        Seq::empty()
    } else {
        match cols.last().0 {
            Some(symbol) => first_side(cols.drop_last()).push(symbol),
            None => first_side(cols.drop_last()),
        }
    }
}

/// The symbols of the second sequence that the columns hold, in order.
pub open spec fn second_side<T>(cols: Seq<Column<T>>) -> Seq<T>
    decreases cols.len(),
{
    if cols.len() == 0 {
        Seq::empty()
    } else {
        match cols.last().1 {
            Some(symbol) => second_side(cols.drop_last()).push(symbol),
            None => second_side(cols.drop_last()),
        }
    }
}

/// Whether no column holds a gap on both sides.
pub open spec fn well_formed<T>(cols: Seq<Column<T>>) -> bool {
    forall|k: int| 0 <= k < cols.len() ==> (#[trigger] cols[k]).0 is Some || cols[k].1 is Some
}

/// Whether `cols` is a global alignment of `s0` with `s1`: no column holds a
/// gap on both sides, and the two sides hold the two sequences.
pub open spec fn is_alignment_of<T>(cols: Seq<Column<T>>, s0: Seq<T>, s1: Seq<T>) -> bool {
    &&& well_formed(cols)
    &&& first_side(cols) == s0
    &&& second_side(cols) == s1
}

/// Whether every column pairs a symbol with the same symbol.
pub open spec fn all_match<T>(cols: Seq<Column<T>>) -> bool {
    forall|k: int| 0 <= k < cols.len() ==> is_matching(#[trigger] cols[k])
}

/// Whether no column pairs a symbol with the same symbol.
pub open spec fn none_match<T>(cols: Seq<Column<T>>) -> bool {
    forall|k: int| 0 <= k < cols.len() ==> !is_matching(#[trigger] cols[k])
}

/// The share `matching / total` as a percentage in hundredths, for display
/// with two decimal places: rounded to the nearest hundredth and up from a
/// half; zero where `total` is zero.
pub open spec fn percent_of(matching: nat, total: nat) -> nat {
    if total == 0 {
        0
    } else {
        (20000 * matching + total) / (2 * total)
    }
}

/// Not more columns match than there are columns.
pub proof fn lemma_matching_pairs_bounded<T>(cols: Seq<Column<T>>)
    ensures
        matching_pairs(cols) <= cols.len(),
    decreases cols.len(),
{
    if cols.len() > 0 {
        lemma_matching_pairs_bounded(cols.drop_last());
    }
}

/// All columns match where as many match as there are, and only there; none
/// matches where the number of matching columns is zero, and only there.
pub proof fn lemma_matching_pairs_extremes<T>(cols: Seq<Column<T>>)
    ensures
        matching_pairs(cols) == cols.len() <==> all_match(cols),
        matching_pairs(cols) == 0 <==> none_match(cols),
    decreases cols.len(),
{
    if cols.len() > 0 {
        let rest = cols.drop_last();
        lemma_matching_pairs_extremes(rest);
        lemma_matching_pairs_bounded(rest);
        assert forall|k: int| 0 <= k < rest.len() implies rest[k] == cols[k] by {}
        if all_match(cols) {
            assert(is_matching(cols[cols.len() - 1]));
            assert forall|k: int| 0 <= k < rest.len() implies is_matching(#[trigger] rest[k]) by {
                assert(is_matching(cols[k]));
            }
        }
        if none_match(cols) {
            assert(!is_matching(cols[cols.len() - 1]));
            assert forall|k: int| 0 <= k < rest.len() implies !is_matching(#[trigger] rest[k]) by {
                assert(!is_matching(cols[k]));
            }
        }
        if all_match(rest) && is_matching(cols.last()) {
            assert forall|k: int| 0 <= k < cols.len() implies is_matching(#[trigger] cols[k]) by {
                if k < rest.len() {
                    assert(is_matching(rest[k]));
                }
            }
        }
        if none_match(rest) && !is_matching(cols.last()) {
            assert forall|k: int| 0 <= k < cols.len() implies !is_matching(#[trigger] cols[k]) by {
                if k < rest.len() {
                    assert(!is_matching(rest[k]));
                }
            }
        }
    }
}

/// A percentage is at most a hundred, which is ten thousand hundredths.
pub proof fn lemma_percent_bounded(matching: nat, total: nat)
    requires
        matching <= total,
    ensures
        percent_of(matching, total) <= 10000,
{
    if total > 0 {
        let num = 20000 * matching + total;
        let den = 2 * total;
        assert(num / den <= 10000) by (nonlinear_arith)
            requires
                den > 0,
                num < 10001 * den,
        ;
    }
}

/// The percentage of `matching` out of `total`, in hundredths.
fn percent(matching: usize, total: usize) -> (hundredths: u32)
    requires
        matching <= total,
    ensures
        hundredths == percent_of(matching as nat, total as nat),
{
    proof {
        lemma_percent_bounded(matching as nat, total as nat);
    }
    if total == 0 {
        0
    } else {
        ((20000 * (matching as u128) + total as u128) / (2 * (total as u128))) as u32
    }
}

impl<T> Default for Alignment<T> {
    /// The empty alignment, with a score of zero.
    fn default() -> (empty: Self)
        ensures
            empty@.columns == Seq::<Column<T>>::empty(),
            empty@.score == 0,
            well_formed(empty@.columns),
    {
        Alignment { alignment: VecDeque::new(), score: 0 }
    }
}

impl<T: Symbol> Alignment<T> {
    /// Number of columns that pair a symbol with the same symbol.
    pub fn matching_pairs(&self) -> (count: usize)
        ensures
            count == matching_pairs(self@.columns),
    {
        let total = self.alignment.len();
        let mut count: usize = 0;
        let mut k: usize = 0;
        while k < total
            invariant
                k <= total,
                total == self.alignment@.len(),
                count == matching_pairs(self@.columns.take(k as int)),
                count <= k,
            decreases total - k,
        {
            let pair: &[Option<T>; 2] = &self.alignment[k];
            let same: bool = match (pair[0], pair[1]) {
                (Some(a), Some(b)) => a.same(&b),
                _ => false,
            };
            assert(self@.columns.take(k + 1).drop_last() == self@.columns.take(k as int));
            assert(self@.columns.take(k + 1).last() == (pair[0], pair[1]));
            if same {
                count += 1;
            }
            k += 1;
        }
        assert(self@.columns.take(total as int) == self@.columns);
        count
    }

    /// Ratio of the number of matching pairs divided by the length including
    /// gaps, as the two counts. It is one only where every column matches,
    /// and zero only where none does; for the empty alignment it is zero.
    pub fn matching_ratio(&self) -> (ratio: Ratio)
        ensures
            ratio.matching == matching_pairs(self@.columns),
            ratio.total == self@.columns.len(),
            ratio.matching <= ratio.total,
            ratio.is_one() <==> self@.columns.len() > 0 && all_match(self@.columns),
            ratio.is_zero() <==> none_match(self@.columns),
    {
        proof {
            lemma_matching_pairs_bounded(self@.columns);
            lemma_matching_pairs_extremes(self@.columns);
        }
        Ratio { matching: self.matching_pairs(), total: self.alignment.len() }
    }
}

/// The symbol that a column holds on side 0, the first sequence's, or on
/// the other side, the second sequence's.
pub open spec fn side_of<T>(col: Column<T>, side: int) -> Option<T> {
    if side == 0 {
        col.0
    } else {
        col.1
    }
}

/// One side of an alignment as text: each symbol as it is, each gap as
/// `gap`.
pub open spec fn side_text(cols: Seq<Column<char>>, side: int, gap: char) -> Seq<char> {
    Seq::new(
        cols.len(),
        |k: int|
            match side_of(cols[k], side) {
                Some(symbol) => symbol,
                None => gap,
            },
    )
}

/// An alignment as text: a summary line with the score and the percentage
/// of matching columns, both to two decimal places, then the first side and
/// the second side on a line each.
pub open spec fn rendering(record: AlignmentView<char>, gap: char) -> Seq<char> {
    let cols = record.columns;
    "Alignment with score "@ + fixed_point(record.score) + ", "@ + fixed_point(
        percent_of(matching_pairs(cols), cols.len()) as int,
    ) + "% aligned\n"@ + side_text(cols, 0, gap) + seq!['\n'] + side_text(cols, 1, gap)
}

impl Alignment<char> {
    /// Appends one side of the alignment to `out`, with `gap` for each gap.
    fn push_side(&self, out: &mut Vec<char>, side: usize, gap: char)
        requires
            side < 2,
        ensures
            final(out)@ == old(out)@ + side_text(self@.columns, side as int, gap),
    {
        let ghost before = out@;
        let total = self.alignment.len();
        let mut k: usize = 0;
        while k < total
            invariant
                k <= total,
                side < 2,
                total == self.alignment@.len(),
                out@ == before + side_text(self@.columns, side as int, gap).take(k as int),
            decreases total - k,
        {
            let pair: &[Option<char>; 2] = &self.alignment[k];
            let glyph: char = match pair[side] {
                Some(symbol) => symbol,
                None => gap,
            };
            out.push(glyph);
            assert(side_text(self@.columns, side as int, gap).take(k + 1) == side_text(
                self@.columns,
                side as int,
                gap,
            ).take(k as int).push(glyph));
            k += 1;
        }
        assert(side_text(self@.columns, side as int, gap).take(total as int) == side_text(
            self@.columns,
            side as int,
            gap,
        ));
    }

    /// The alignment as text, with `gap` for each gap: a summary line, then
    /// one line for each sequence. The summary line gives the score and the
    /// percentage of matching columns, each rounded to two decimal places.
    pub fn render(&self, gap: char) -> (text: String)
        ensures
            text@ == rendering(self@, gap),
    {
        let mut out: Vec<char> = Vec::new();
        push_text(&mut out, "Alignment with score ");
        push_fixed_point(&mut out, self.score);
        push_text(&mut out, ", ");
        let ratio = self.matching_ratio();
        push_fixed_point(&mut out, percent(ratio.matching, ratio.total) as i128);
        push_text(&mut out, "% aligned\n");
        self.push_side(&mut out, 0, gap);
        out.push('\n');
        self.push_side(&mut out, 1, gap);
        join_chars(&out)
    }
}

impl Aligner {
    /// Row 0 of the score matrix, columns 1 to `s1.len()`.
    fn border_row<T>(&self, s0: &Vec<T>, s1: &Vec<T>) -> (row: Vec<i128>)
        ensures
            row@.len() == s1@.len(),
            forall|j: int|
                0 <= j < s1@.len() ==> row@[j] == score_at(*self, s0@, s1@, 0, (j + 1) as nat),
    {
        let m = s1.len();
        let mut row: Vec<i128> = Vec::new();
        let mut edge: i128 = 0;
        let mut j: usize = 0;
        proof {
            lemma_gap_run_step(*self, 0);
        }
        while j < m
            invariant
                j <= m,
                m == s1@.len(),
                row@.len() == j,
                edge == gap_run(*self, j as nat),
                forall|k: int|
                    0 <= k < j ==> row@[k] == score_at(*self, s0@, s1@, 0, (k + 1) as nat),
            decreases m - j,
        {
            proof {
                lemma_gap_run_step(*self, j as nat);
                lemma_gap_run_bounded(*self, j as nat);
            }
            edge = edge + self.gap_penalty as i128;
            row.push(edge);
            j += 1;
        }
        row
    }

    /// Turns row `i` of the score matrix into row `i + 1`, columns 1 to
    /// `s1.len()`, and returns row `i + 1` of the choice matrix.
    fn fill_row<T: Symbol>(&self, s0: &Vec<T>, s1: &Vec<T>, i: usize, row: &mut Vec<i128>) -> (kinds:
        Vec<AlignKind>)
        requires
            i < s0@.len(),
            old(row)@.len() == s1@.len(),
            forall|j: int|
                0 <= j < s1@.len() ==> old(row)@[j] == score_at(
                    *self,
                    s0@,
                    s1@,
                    i as nat,
                    (j + 1) as nat,
                ),
        ensures
            final(row)@.len() == s1@.len(),
            forall|j: int|
                0 <= j < s1@.len() ==> final(row)@[j] == score_at(
                    *self,
                    s0@,
                    s1@,
                    (i + 1) as nat,
                    (j + 1) as nat,
                ),
            kinds@.len() == s1@.len(),
            forall|j: int|
                0 <= j < s1@.len() ==> kinds@[j] == choice_at(
                    *self,
                    s0@,
                    s1@,
                    (i + 1) as nat,
                    (j + 1) as nat,
                ),
    {
        let m = s1.len();
        let a: T = s0[i];
        let mut kinds: Vec<AlignKind> = Vec::new();
        proof {
            lemma_gap_run_bounded(*self, i as nat);
            lemma_gap_run_step(*self, i as nat);
        }
        let mut diag: i128 = (i as i128) * (self.gap_penalty as i128);
        let mut left: i128 = diag + self.gap_penalty as i128;
        let mut j: usize = 0;
        while j < m
            invariant
                j <= m,
                m == s1@.len(),
                i < s0@.len(),
                a == s0@[i as int],
                row@.len() == m,
                kinds@.len() == j,
                diag == score_at(*self, s0@, s1@, i as nat, j as nat),
                left == score_at(*self, s0@, s1@, (i + 1) as nat, j as nat),
                forall|k: int|
                    j <= k < m ==> row@[k] == score_at(*self, s0@, s1@, i as nat, (k + 1) as nat),
                forall|k: int|
                    0 <= k < j ==> row@[k] == score_at(
                        *self,
                        s0@,
                        s1@,
                        (i + 1) as nat,
                        (k + 1) as nat,
                    ),
                forall|k: int|
                    0 <= k < j ==> kinds@[k] == choice_at(
                        *self,
                        s0@,
                        s1@,
                        (i + 1) as nat,
                        (k + 1) as nat,
                    ),
            decreases m - j,
        {
            let up: i128 = row[j];
            proof {
                lemma_score_bounded(*self, s0@, s1@, i as nat, j as nat);
                lemma_score_bounded(*self, s0@, s1@, i as nat, (j + 1) as nat);
                lemma_score_bounded(*self, s0@, s1@, (i + 1) as nat, j as nat);
            }
            let matched: i128 = if a.same(&s1[j]) {
                diag
            } else {
                diag + self.mismatch_penalty as i128
            };
            let deleted: i128 = up + self.gap_penalty as i128;
            let inserted: i128 = left + self.gap_penalty as i128;
            let (kind, best) = best_move(matched, deleted, inserted);
            row.set(j, best);
            kinds.push(kind);
            diag = up;
            left = best;
            j += 1;
        }
        kinds
    }

    /// The choice matrix without its row 0 and column 0, and the bottom-right
    /// cell of the score matrix.
    fn fill<T: Symbol>(&self, s0: &Vec<T>, s1: &Vec<T>) -> (filled: (Vec<Vec<AlignKind>>, i128))
        ensures
            filled.0@.len() == s0@.len(),
            forall|i: int| 0 <= i < s0@.len() ==> (#[trigger] filled.0@[i])@.len() == s1@.len(),
            forall|i: int, j: int|
                0 <= i < s0@.len() && 0 <= j < s1@.len() ==> #[trigger] filled.0@[i]@[j]
                    == choice_at(*self, s0@, s1@, (i + 1) as nat, (j + 1) as nat),
            filled.1 == score_at(*self, s0@, s1@, s0@.len(), s1@.len()),
    {
        let n = s0.len();
        let m = s1.len();
        let mut row = self.border_row(s0, s1);
        let mut choices: Vec<Vec<AlignKind>> = Vec::new();
        let mut i: usize = 0;
        while i < n
            invariant
                i <= n,
                n == s0@.len(),
                m == s1@.len(),
                row@.len() == m,
                choices@.len() == i,
                forall|j: int|
                    0 <= j < m ==> row@[j] == score_at(*self, s0@, s1@, i as nat, (j + 1) as nat),
                forall|k: int| 0 <= k < i ==> (#[trigger] choices@[k])@.len() == m,
                forall|k: int, j: int|
                    0 <= k < i && 0 <= j < m ==> #[trigger] choices@[k]@[j] == choice_at(
                        *self,
                        s0@,
                        s1@,
                        (k + 1) as nat,
                        (j + 1) as nat,
                    ),
            decreases n - i,
        {
            let kinds = self.fill_row(s0, s1, i, &mut row);
            choices.push(kinds);
            i += 1;
        }
        let score: i128 = if m == 0 {
            proof {
                lemma_gap_run_bounded(*self, n as nat);
            }
            (n as i128) * (self.gap_penalty as i128)
        } else {
            row[m - 1]
        };
        (choices, score)
    }

    /// Walks the choice matrix back from its bottom-right cell and returns
    /// the alignment met on the way, first column first.
    fn trace<T: Copy>(&self, s0: &Vec<T>, s1: &Vec<T>, choices: &Vec<Vec<AlignKind>>) -> (path:
        VecDeque<[Option<T>; 2]>)
        requires
            choices@.len() == s0@.len(),
            forall|i: int| 0 <= i < s0@.len() ==> (#[trigger] choices@[i])@.len() == s1@.len(),
            forall|i: int, j: int|
                0 <= i < s0@.len() && 0 <= j < s1@.len() ==> #[trigger] choices@[i]@[j]
                    == choice_at(*self, s0@, s1@, (i + 1) as nat, (j + 1) as nat),
        ensures
            columns_of(path@) == traceback(*self, s0@, s1@, s0@.len(), s1@.len()),
    {
        let n = s0.len();
        let m = s1.len();
        let ghost whole = traceback(*self, s0@, s1@, n as nat, m as nat);
        let mut path: VecDeque<[Option<T>; 2]> = VecDeque::new();
        let mut i: usize = n;
        let mut j: usize = m;
        while i > 0 && j > 0
            invariant
                i <= n,
                j <= m,
                n == s0@.len(),
                m == s1@.len(),
                choices@.len() == n,
                forall|k: int| 0 <= k < n ==> (#[trigger] choices@[k])@.len() == m,
                forall|k: int, l: int|
                    0 <= k < n && 0 <= l < m ==> #[trigger] choices@[k]@[l] == choice_at(
                        *self,
                        s0@,
                        s1@,
                        (k + 1) as nat,
                        (l + 1) as nat,
                    ),
                whole == traceback(*self, s0@, s1@, i as nat, j as nat) + columns_of(path@),
            decreases i + j,
        {
            let ghost before = columns_of(path@);
            let kind = choices[i - 1][j - 1];
            match kind {
                AlignKind::Match => {
                    path.push_front([Some(s0[i - 1]), Some(s1[j - 1])]);
                    i -= 1;
                    j -= 1;
                },
                AlignKind::Delete => {
                    path.push_front([Some(s0[i - 1]), None]);
                    i -= 1;
                },
                AlignKind::Insert => {
                    path.push_front([None, Some(s1[j - 1])]);
                    j -= 1;
                },
            }
            assert(columns_of(path@) == seq![columns_of(path@)[0]] + before);
        }
        while i > 0
            invariant
                i <= n,
                j <= m,
                i == 0 || j == 0,
                n == s0@.len(),
                m == s1@.len(),
                whole == traceback(*self, s0@, s1@, i as nat, j as nat) + columns_of(path@),
            decreases i,
        {
            let ghost before = columns_of(path@);
            path.push_front([Some(s0[i - 1]), None]);
            i -= 1;
            assert(columns_of(path@) == seq![columns_of(path@)[0]] + before);
        }
        while j > 0
            invariant
                i == 0,
                j <= m,
                n == s0@.len(),
                m == s1@.len(),
                whole == traceback(*self, s0@, s1@, i as nat, j as nat) + columns_of(path@),
            decreases j,
        {
            let ghost before = columns_of(path@);
            path.push_front([None, Some(s1[j - 1])]);
            j -= 1;
            assert(columns_of(path@) == seq![columns_of(path@)[0]] + before);
        }
        path
    }

    /// Align two sequences and return an alignment.
    ///
    /// The result is the alignment that the traceback through the choice
    /// matrix gives, with the bottom-right cell of the score matrix as its
    /// score. It is a global alignment of the two sequences: its two sides
    /// hold them symbol for symbol, and its columns add up to its score.
    pub fn align<T: Symbol>(&self, seqs: [&Sequence<T>; 2]) -> (result: Alignment<T>)
        ensures
            result@ == aligned(*self, seqs[0]@, seqs[1]@),
            is_alignment_of(result@.columns, seqs[0]@, seqs[1]@),
            columns_score(*self, result@.columns) == result@.score,
    {
        let s0: &Vec<T> = &seqs[0].0;
        let s1: &Vec<T> = &seqs[1].0;
        let (choices, score) = self.fill(s0, s1);
        let path = self.trace(s0, s1, &choices);
        proof {
            lemma_traceback_is_alignment(*self, s0@, s1@);
            lemma_traceback_score(*self, s0@, s1@, s0@.len(), s1@.len());
        }
        Alignment { alignment: path, score }
    }
}

} // verus!
