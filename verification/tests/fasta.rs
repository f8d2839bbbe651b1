use seqalign::align::Aligner;
use seqalign::fasta::{split_lines, Fasta, FastaError};

fn lines(text: &str) -> Vec<String> {
    split_lines(text).into_iter().map(|line| line.into_iter().collect()).collect()
}

fn records(text: &str) -> Result<Vec<(String, String)>, FastaError> {
    let fasta = Fasta::parse(text)?;
    Ok(fasta.0.iter().map(|record| (record.meta.clone(), record.sequence.to_text())).collect())
}

fn owned(records: &[(&str, &str)]) -> Vec<(String, String)> {
    records.iter().map(|(meta, symbols)| (meta.to_string(), symbols.to_string())).collect()
}

#[test]
fn lines_of_a_text() {
    assert_eq!(lines(""), Vec::<String>::new());
    assert_eq!(lines("abc"), vec!["abc"]);
    assert_eq!(lines("abc\n"), vec!["abc"]);
    assert_eq!(lines("abc\ndef"), vec!["abc", "def"]);
    assert_eq!(lines("abc\r\ndef\r\n"), vec!["abc", "def"]);
    assert_eq!(lines("\n"), vec![""]);
    assert_eq!(lines("\n\n"), vec!["", ""]);
    assert_eq!(lines("a\n\nb"), vec!["a", "", "b"]);
    assert_eq!(lines("a\r"), vec!["a\r"]);
    assert_eq!(lines("a\rb\n"), vec!["a\rb"]);
    assert_eq!(lines("a\r\r\n"), vec!["a\r"]);
    assert_eq!(lines("\r\n"), vec![""]);
}

#[test]
fn lines_agree_with_the_standard_library() {
    let texts = [
        "", "\n", "\r", "\r\n", "a", "a\n", "a\r", "a\r\n", "\na", "\ra", "\r\na", "a\nb", "a\r\nb\n",
        "a\n\n", "\n\na", "a\r\r\n", "a\n\r", "a\n\r\n", ">x\nAC\nGT\n>y\nTT", "é\nß\r\n",
    ];
    for text in texts {
        let expected: Vec<String> = text.lines().map(str::to_string).collect();
        assert_eq!(lines(text), expected);
    }
}

#[test]
fn two_records() {
    let decoded = records(">first one\nGATT\nACA\n>second\nGCATGCU\n");
    assert_eq!(decoded, Ok(owned(&[("first one", "GATTACA"), ("second", "GCATGCU")])));
}

#[test]
fn records_with_carriage_returns() {
    let decoded = records(">first\r\nGATT\r\nACA\r\n>second\r\nGCATGCU");
    assert_eq!(decoded, Ok(owned(&[("first", "GATTACA"), ("second", "GCATGCU")])));
}

#[test]
fn empty_text_holds_no_record() {
    assert_eq!(records(""), Ok(Vec::new()));
}

#[test]
fn a_record_may_be_empty() {
    assert_eq!(records(">only"), Ok(owned(&[("only", "")])));
    assert_eq!(records(">"), Ok(owned(&[("", "")])));
    assert_eq!(records(">a\n>b\nAC"), Ok(owned(&[("a", ""), ("b", "AC")])));
}

#[test]
fn an_empty_line_adds_nothing() {
    assert_eq!(records(">a\nAC\n\nGT\n\n"), Ok(owned(&[("a", "ACGT")])));
}

#[test]
fn a_marker_inside_a_line_is_a_symbol() {
    assert_eq!(records(">a>b\nAC>GT"), Ok(owned(&[("a>b", "AC>GT")])));
    assert_eq!(records(">a\n >b"), Ok(owned(&[("a", " >b")])));
}

#[test]
fn symbols_before_any_header_are_refused() {
    assert_eq!(records("GATTACA\n>late\nACGT").err(), Some(FastaError::SequenceWithoutMetadata));
    assert_eq!(records("GATTACA").err(), Some(FastaError::SequenceWithoutMetadata));
    assert_eq!(records(" >x\nAC").err(), Some(FastaError::SequenceWithoutMetadata));
}

#[test]
fn an_empty_line_before_any_header_is_refused() {
    assert_eq!(records("\n>a\nAC").err(), Some(FastaError::SequenceWithoutMetadata));
    assert_eq!(records("\n").err(), Some(FastaError::SequenceWithoutMetadata));
    assert_eq!(records("\r\n>a").err(), Some(FastaError::SequenceWithoutMetadata));
}

#[test]
fn exactly_two_records_make_a_pair() {
    let fasta = Fasta::parse(">a\nGATTACA\n>b\nGCATGCU").unwrap();
    let pair = fasta.pair().unwrap();
    assert_eq!(pair[0].to_text(), "GATTACA");
    assert_eq!(pair[1].to_text(), "GCATGCU");
    let aligner = Aligner { mismatch_penalty: -200, gap_penalty: -100 };
    assert_eq!(aligner.align(pair).score, -600);
}

#[test]
fn any_other_number_of_records_is_refused() {
    for text in ["", ">a\nAC", ">a\nAC\n>b\nGT\n>c\nTT"] {
        let fasta = Fasta::parse(text).unwrap();
        assert_eq!(fasta.pair().err(), Some(FastaError::NotTwoSequences));
    }
}

#[test]
fn errors_in_words() {
    assert_eq!(FastaError::SequenceWithoutMetadata.message(), "Sequence without metadata");
    assert_eq!(FastaError::NotTwoSequences.message(), "Expecting exactly two sequences");
}
