use seqalign::align::{AlignKind, Aligner, Alignment, Ratio};
use seqalign::scoring::best_move;
use seqalign::sequence::{Sequence, Symbol};

fn run(first: &str, second: &str, mismatch_penalty: i32, gap_penalty: i32) -> Alignment<char> {
    let aligner = Aligner { mismatch_penalty, gap_penalty };
    aligner.align([&Sequence::from(first), &Sequence::from(second)])
}

fn columns(alignment: &Alignment<char>) -> Vec<(Option<char>, Option<char>)> {
    alignment.alignment.iter().map(|pair| (pair[0], pair[1])).collect()
}

fn side(alignment: &Alignment<char>, index: usize) -> String {
    alignment.alignment.iter().filter_map(|pair| pair[index]).collect()
}

fn paired(first: &str, second: &str) -> Vec<(Option<char>, Option<char>)> {
    let gap = |c: char| if c == '-' { None } else { Some(c) };
    first.chars().zip(second.chars()).map(|(a, b)| (gap(a), gap(b))).collect()
}

/// The best score over every global alignment, by trying all three moves at
/// every step.
fn exhaustive(first: &[char], second: &[char], mismatch: i128, gap: i128) -> i128 {
    match (first.split_last(), second.split_last()) {
        (None, None) => 0,
        (Some((_, rest)), None) => exhaustive(rest, second, mismatch, gap) + gap,
        (None, Some((_, rest))) => exhaustive(first, rest, mismatch, gap) + gap,
        (Some((a, rest_a)), Some((b, rest_b))) => {
            let pair = if a == b { 0 } else { mismatch };
            let matched = exhaustive(rest_a, rest_b, mismatch, gap) + pair;
            let deleted = exhaustive(rest_a, second, mismatch, gap) + gap;
            let inserted = exhaustive(first, rest_b, mismatch, gap) + gap;
            matched.max(deleted).max(inserted)
        }
    }
}

#[test]
fn gattaca_with_equal_penalties() {
    let alignment = run("GATTACA", "GCATGCU", -100, -100);
    assert_eq!(alignment.score, -400);
    assert_eq!(columns(&alignment), paired("GATTACA", "GCATGCU"));
    assert_eq!(side(&alignment, 0), "GATTACA");
    assert_eq!(side(&alignment, 1), "GCATGCU");
    assert_eq!(alignment.matching_pairs(), 3);
    assert_eq!(alignment.matching_ratio(), Ratio { matching: 3, total: 7 });
}

#[test]
fn gattaca_with_a_dearer_mismatch() {
    let alignment = run("GATTACA", "GCATGCU", -200, -100);
    assert_eq!(alignment.score, -600);
    assert_eq!(columns(&alignment), paired("G-ATTACA", "GCA-TGCU"));
    assert_eq!(side(&alignment, 0), "GATTACA");
    assert_eq!(side(&alignment, 1), "GCATGCU");
    assert_eq!(alignment.matching_ratio(), Ratio { matching: 4, total: 8 });
}

#[test]
fn kitten_and_sitting() {
    let alignment = run("kitten", "sitting", -100, -100);
    assert_eq!(alignment.score, -300);
    assert_eq!(columns(&alignment), paired("kitten-", "sitting"));
}

#[test]
fn a_sequence_with_itself() {
    let alignment = run("GATTACA", "GATTACA", -200, -100);
    assert_eq!(alignment.score, 0);
    assert_eq!(columns(&alignment), paired("GATTACA", "GATTACA"));
    assert!(alignment.alignment.iter().all(|pair| pair[0].is_some() && pair[1].is_some()));
    assert_eq!(alignment.matching_pairs(), 7);
    let ratio = alignment.matching_ratio();
    assert_eq!(ratio, Ratio { matching: 7, total: 7 });
    assert_eq!(ratio.matching as f64 / ratio.total as f64, 1.0);
}

#[test]
fn a_sequence_with_itself_under_zero_penalties() {
    let alignment = run("ACGT", "ACGT", 0, 0);
    assert_eq!(alignment.score, 0);
    assert_eq!(columns(&alignment), paired("ACGT", "ACGT"));
    assert_eq!(alignment.matching_ratio(), Ratio { matching: 4, total: 4 });
}

#[test]
fn against_the_empty_sequence() {
    let alignment = run("GATTACA", "", -200, -100);
    assert_eq!(alignment.score, -700);
    assert_eq!(alignment.alignment.len(), 7);
    assert_eq!(columns(&alignment), paired("GATTACA", "-------"));
    assert_eq!(alignment.matching_ratio(), Ratio { matching: 0, total: 7 });
}

#[test]
fn the_empty_sequence_against_another() {
    let alignment = run("", "ACGT", -200, -150);
    assert_eq!(alignment.score, -600);
    assert_eq!(alignment.alignment.len(), 4);
    assert_eq!(columns(&alignment), paired("----", "ACGT"));
}

#[test]
fn two_empty_sequences() {
    let alignment = run("", "", -200, -100);
    assert_eq!(alignment.score, 0);
    assert!(alignment.alignment.is_empty());
    assert_eq!(alignment.matching_ratio(), Ratio { matching: 0, total: 0 });
}

#[test]
fn repeated_calls_agree() {
    let first = run("GATTACA", "GCATGCU", -100, -100);
    for _ in 0..20 {
        let again = run("GATTACA", "GCATGCU", -100, -100);
        assert_eq!(again.score, first.score);
        assert_eq!(again.alignment, first.alignment);
        assert_eq!(again.render('-'), first.render('-'));
    }
}

#[test]
fn a_three_way_tie_takes_the_pair() {
    let alignment = run("A", "B", -200, -100);
    assert_eq!(alignment.score, -200);
    assert_eq!(columns(&alignment), paired("A", "B"));
}

#[test]
fn a_tie_of_the_gaps_takes_the_first_sequence_first() {
    let alignment = run("A", "B", -300, -100);
    assert_eq!(alignment.score, -200);
    assert_eq!(columns(&alignment), paired("-A", "B-"));
    let swapped = run("AB", "BA", -300, -100);
    assert_eq!(swapped.score, -200);
    assert_eq!(columns(&swapped), paired("-AB", "BA-"));
}

#[test]
fn best_move_orders_ties() {
    assert_eq!(best_move(5, 5, 5), (AlignKind::Match, 5));
    assert_eq!(best_move(5, 5, 4), (AlignKind::Match, 5));
    assert_eq!(best_move(5, 4, 5), (AlignKind::Match, 5));
    assert_eq!(best_move(4, 5, 5), (AlignKind::Delete, 5));
    assert_eq!(best_move(4, 5, 3), (AlignKind::Delete, 5));
    assert_eq!(best_move(4, 3, 5), (AlignKind::Insert, 5));
    assert_eq!(best_move(-7, -9, -8), (AlignKind::Match, -7));
    assert_eq!(best_move(i128::MIN, i128::MIN, i128::MAX), (AlignKind::Insert, i128::MAX));
}

#[test]
fn rewards_are_maximized_too() {
    let alignment = run("AC", "CA", 50, 25);
    assert_eq!(alignment.score, 100);
    assert_eq!(columns(&alignment), paired("AC", "CA"));
}

#[test]
fn fractions_of_a_point() {
    let alignment = run("ABC", "ABD", -125, -75);
    assert_eq!(alignment.score, -125);
    assert_eq!(columns(&alignment), paired("ABC", "ABD"));
    assert_eq!(alignment.matching_ratio(), Ratio { matching: 2, total: 3 });
    assert_eq!(alignment.score as f64 / 100.0, -1.25);
}

#[test]
fn a_deletion_in_the_middle() {
    let alignment = run("ACGT", "AGT", -200, -100);
    assert_eq!(alignment.score, -100);
    assert_eq!(columns(&alignment), paired("ACGT", "A-GT"));
    assert_eq!(alignment.matching_ratio(), Ratio { matching: 3, total: 4 });
}

#[test]
fn what_is_left_of_the_longer_sequence_stands_against_gaps() {
    let alignment = run("TTTTACGT", "ACGT", -200, -100);
    assert_eq!(alignment.score, -400);
    assert_eq!(side(&alignment, 0), "TTTTACGT");
    assert_eq!(side(&alignment, 1), "ACGT");
    assert_eq!(alignment.alignment.len(), 8);
    let other = run("ACGT", "TTTTACGT", -200, -100);
    assert_eq!(other.score, -400);
    assert_eq!(side(&other, 0), "ACGT");
    assert_eq!(side(&other, 1), "TTTTACGT");
}

#[test]
fn both_sides_are_the_sequences() {
    let words = ["", "A", "GATTACA", "GCATGCU", "AAAA", "TTTTTTTTTT", "ACGTACGTAC", "CATCAT"];
    for (mismatch, gap) in [(-200, -100), (-100, -100), (-100, -300), (0, 0), (150, -50), (-50, 150)] {
        for first in words {
            for second in words {
                let alignment = run(first, second, mismatch, gap);
                assert_eq!(side(&alignment, 0), first);
                assert_eq!(side(&alignment, 1), second);
                assert!(alignment.alignment.iter().all(|pair| pair[0].is_some() || pair[1].is_some()));
            }
        }
    }
}

#[test]
fn the_score_is_the_sum_of_the_columns() {
    let words = ["", "A", "GATTACA", "GCATGCU", "AAAA", "ACGTACGTAC", "CATCAT"];
    for (mismatch, gap) in [(-200, -100), (-100, -100), (-100, -300), (75, -125), (-50, 150)] {
        for first in words {
            for second in words {
                let alignment = run(first, second, mismatch, gap);
                let sum: i128 = alignment
                    .alignment
                    .iter()
                    .map(|pair| match (pair[0], pair[1]) {
                        (Some(a), Some(b)) if a == b => 0,
                        (Some(_), Some(_)) => i128::from(mismatch),
                        _ => i128::from(gap),
                    })
                    .sum();
                assert_eq!(alignment.score, sum);
            }
        }
    }
}

#[test]
fn no_alignment_scores_more() {
    let words = ["", "A", "AB", "BA", "ABC", "CAB", "AAB", "ABAB", "BBBA", "GATTA"];
    for (mismatch, gap) in [(-200, -100), (-100, -100), (-100, -300), (-300, -100), (75, -125), (-50, 150)] {
        for first in words {
            for second in words {
                let a: Vec<char> = first.chars().collect();
                let b: Vec<char> = second.chars().collect();
                let best = exhaustive(&a, &b, i128::from(mismatch), i128::from(gap));
                assert_eq!(run(first, second, mismatch, gap).score, best);
            }
        }
    }
}

#[test]
fn extreme_penalties_do_not_overflow() {
    let long = "A".repeat(300);
    let other = "C".repeat(200);
    let alignment = run(&long, &other, i32::MIN, i32::MIN);
    assert_eq!(alignment.score, 300 * i128::from(i32::MIN));
    let rewarded = run(&long, &other, i32::MAX, i32::MAX);
    assert_eq!(rewarded.score, 500 * i128::from(i32::MAX));
}

#[test]
fn bytes_are_symbols() {
    let aligner = Aligner { mismatch_penalty: -200, gap_penalty: -100 };
    let first = Sequence(b"ACGT".to_vec());
    let second = Sequence(b"AGT".to_vec());
    let alignment = aligner.align([&first, &second]);
    assert_eq!(alignment.score, -100);
    let expected: Vec<[Option<u8>; 2]> =
        vec![[Some(b'A'), Some(b'A')], [Some(b'C'), None], [Some(b'G'), Some(b'G')], [Some(b'T'), Some(b'T')]];
    assert_eq!(alignment.alignment, expected);
}

#[derive(Debug, Clone, Copy, PartialEq)]
enum Base {
    A,
    C,
    G,
}

impl Symbol for Base {
    fn same(&self, other: &Base) -> bool {
        self == other
    }
}

#[test]
fn any_symbol_type_aligns() {
    let aligner = Aligner { mismatch_penalty: -200, gap_penalty: -100 };
    let first = Sequence(vec![Base::A, Base::C, Base::G]);
    let second = Sequence(vec![Base::A, Base::G]);
    let alignment = aligner.align([&first, &second]);
    assert_eq!(alignment.score, -100);
    let expected: Vec<[Option<Base>; 2]> =
        vec![[Some(Base::A), Some(Base::A)], [Some(Base::C), None], [Some(Base::G), Some(Base::G)]];
    assert_eq!(alignment.alignment, expected);
    assert_eq!(alignment.matching_ratio(), Ratio { matching: 2, total: 3 });
}

#[test]
fn symbols_compare_by_value() {
    assert!('a'.same(&'a'));
    assert!(!'a'.same(&'b'));
    assert!(7u8.same(&7u8));
    assert!(!7u8.same(&8u8));
}
