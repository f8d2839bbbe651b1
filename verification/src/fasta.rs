//! Decoding of FASTA text: records of a header line and lines of symbols.

use vstd::prelude::*;
use crate::sequence::Sequence;
use crate::text::{chars_of, join_chars};

verus! {

/// A single sequence with metadata
#[derive(Debug)]
pub struct FastaSequence<T> {
    pub meta: String,
    pub sequence: Sequence<T>,
}

/// A decoded FASTA file as a list of sequences
#[derive(Debug)]
pub struct Fasta<T>(pub Vec<FastaSequence<T>>);

/// Why FASTA text, or what was decoded from it, is refused.
#[derive(Debug, Copy, Clone, PartialEq, Eq, Structural)]
pub enum FastaError {
    /// A line of symbols stands before the first header line.
    SequenceWithoutMetadata,
    /// The text does not hold exactly two records.
    NotTwoSequences,
}

/// A record as plain values: the text of its header line after the marker,
/// and its symbols.
pub type Record<T> = (Seq<char>, Seq<T>);

impl<T> View for FastaSequence<T> {
    type V = Record<T>;

    open spec fn view(&self) -> Record<T> {
        (self.meta@, self.sequence@)
    }
}

/// The records that a list of decoded sequences holds.
pub open spec fn records_view<T>(records: Seq<FastaSequence<T>>) -> Seq<Record<T>> {
    Seq::new(records.len(), |k: int| records[k]@)
}

impl<T> View for Fasta<T> {
    type V = Seq<Record<T>>;

    open spec fn view(&self) -> Seq<Record<T>> {
        records_view(self.0@)
    }
}

impl FastaError {
    /// What went wrong, in words.
    pub open spec fn describe(self) -> Seq<char> {
        match self {
            FastaError::SequenceWithoutMetadata => "Sequence without metadata"@,
            FastaError::NotTwoSequences => "Expecting exactly two sequences"@,
        }
    }

    /// What went wrong, in words.
    pub fn message(&self) -> (text: String)
        ensures
            text@ == self.describe(),
    {
        match self {
            FastaError::SequenceWithoutMetadata => String::from_str("Sequence without metadata"),
            FastaError::NotTwoSequences => String::from_str("Expecting exactly two sequences"),
        }
    }
}

/// The character that begins a header line.
pub const HEADER_MARKER: char = '>';

/// Number of characters before the first line feed of `text`, which is the
/// length of `text` where it holds none.
pub open spec fn first_line_len(text: Seq<char>) -> nat
    decreases text.len(),
{
    if text.len() == 0 || text[0] == '\n' {
        0
    } else {
        1 + first_line_len(text.drop_first())
    }
}

/// A line without the carriage return that ends it, if one does.
pub open spec fn without_carriage_return(line: Seq<char>) -> Seq<char> {
    if line.len() > 0 && line.last() == '\r' {
        line.drop_last()
    } else {
        line
    }
}

/// The lines of `text`. A line ends with a line feed, or with a carriage
/// return and a line feed, neither of which belongs to it; the last line
/// need not be ended, and what follows it is no line if it is empty.
pub open spec fn lines_of(text: Seq<char>) -> Seq<Seq<char>>
    decreases text.len(),
{
    let len = first_line_len(text);
    if text.len() == 0 {
        Seq::empty()
    } else if len >= text.len() {
        seq![text]
    } else {
        seq![without_carriage_return(text.take(len as int))] + lines_of(text.skip(len as int + 1))
    }
}

/// Whether a line is a header line.
pub open spec fn is_header(line: Seq<char>) -> bool {
    line.len() > 0 && line[0] == HEADER_MARKER
}

/// The records that the lines hold. A header line begins a record; any
/// other line adds its characters to the symbols of the record begun last.
/// There are none where a line that is no header stands before every
/// header.
pub open spec fn records_of(lines: Seq<Seq<char>>) -> Option<Seq<Record<char>>>
    decreases lines.len(),
{
    if lines.len() == 0 {
        Some(Seq::empty())
    } else {
        match records_of(lines.drop_last()) {
            None => None,
            Some(records) => {
                let line = lines.last();
                if is_header(line) {
                    Some(records.push((line.skip(1), Seq::empty())))
                } else if records.len() == 0 {
                    None
                } else {
                    Some(
                        records.drop_last().push((records.last().0, records.last().1 + line)),
                    )
                }
            },
        }
    }
}

/// The records that FASTA text holds, if it is well formed.
pub open spec fn decoding(text: Seq<char>) -> Option<Seq<Record<char>>> {
    records_of(lines_of(text))
}

/// Whether `line` holds no line feed.
pub open spec fn is_one_line(line: Seq<char>) -> bool {
    forall|k: int| 0 <= k < line.len() ==> line[k] != '\n'
}

/// A text without line feed is its own first line.
pub proof fn lemma_first_line_whole(line: Seq<char>)
    requires
        is_one_line(line),
    ensures
        first_line_len(line) == line.len(),
    decreases line.len(),
{
    if line.len() > 0 {
        assert(line[0] != '\n');
        assert forall|k: int| 0 <= k < line.drop_first().len() implies line.drop_first()[k]
            != '\n' by {
            assert(line.drop_first()[k] == line[k + 1]);
        }
        lemma_first_line_whole(line.drop_first());
    }
}

/// The first line of a text ends where its first line feed stands.
pub proof fn lemma_first_line_ended(line: Seq<char>, rest: Seq<char>)
    requires
        is_one_line(line),
    ensures
        first_line_len(line + seq!['\n'] + rest) == line.len(),
    decreases line.len(),
{
    let text = line + seq!['\n'] + rest;
    if line.len() > 0 {
        assert(text[0] == line[0]);
        assert forall|k: int| 0 <= k < line.drop_first().len() implies line.drop_first()[k]
            != '\n' by {
            assert(line.drop_first()[k] == line[k + 1]);
        }
        assert(text.drop_first() == line.drop_first() + seq!['\n'] + rest);
        lemma_first_line_ended(line.drop_first(), rest);
    } else {
        assert(text[0] == '\n');
    }
}

/// The lines of a text whose first line is ended: that line, then the lines
/// of what follows the line feed.
pub proof fn lemma_lines_of_ended(line: Seq<char>, rest: Seq<char>)
    requires
        is_one_line(line),
    ensures
        lines_of(line + seq!['\n'] + rest) == seq![without_carriage_return(line)] + lines_of(rest),
{
    let text = line + seq!['\n'] + rest;
    lemma_first_line_ended(line, rest);
    assert(text.take(line.len() as int) == line);
    assert(text.skip(line.len() as int + 1) == rest);
}

/// The lines of a text without line feed: the text itself, unless it is
/// empty.
pub proof fn lemma_lines_of_last(line: Seq<char>)
    requires
        is_one_line(line),
    ensures
        lines_of(line) == if line.len() == 0 {
            Seq::<Seq<char>>::empty()
        } else {
            seq![line]
        },
{
    lemma_first_line_whole(line);
}

/// The lines that a list of character vectors holds.
pub open spec fn views_of(lines: Seq<Vec<char>>) -> Seq<Seq<char>> {
    Seq::new(lines.len(), |k: int| lines[k]@)
}

/// Splits text into its lines.
pub fn split_lines(text: &str) -> (lines: Vec<Vec<char>>)
    ensures
        views_of(lines@) == lines_of(text@),
{
    let chars = chars_of(text);
    let total = chars.len();
    let mut lines: Vec<Vec<char>> = Vec::new();
    let mut line: Vec<char> = Vec::new();
    let mut k: usize = 0;
    assert(line@ + chars@.skip(0) == chars@);
    while k < total
        invariant
            k <= total,
            total == chars@.len(),
            chars@ == text@,
            is_one_line(line@),
            lines_of(text@) == views_of(lines@) + lines_of(line@ + chars@.skip(k as int)),
        decreases total - k,
    {
        let c = chars[k];
        let ghost rest = chars@.skip(k + 1);
        assert(chars@.skip(k as int) == seq![c] + rest);
        if c == '\n' {
            proof {
                lemma_lines_of_ended(line@, rest);
                assert(line@ + chars@.skip(k as int) == line@ + seq!['\n'] + rest);
            }
            let ghost ended = line@;
            let ghost done = views_of(lines@);
            if line.len() > 0 && line[line.len() - 1] == '\r' {
                line.pop();
            }
            assert(line@ == without_carriage_return(ended));
            lines.push(line);
            line = Vec::new();
            assert(views_of(lines@) == done + seq![without_carriage_return(ended)]);
            assert(line@ + rest == rest);
        } else {
            let ghost before = line@;
            line.push(c);
            assert(line@ + rest == before + chars@.skip(k as int));
        }
        k += 1;
    }
    assert(line@ + chars@.skip(total as int) == line@);
    proof {
        lemma_lines_of_last(line@);
    }
    if line.len() > 0 {
        let ghost done = views_of(lines@);
        let ghost last = line@;
        lines.push(line);
        assert(views_of(lines@) == done + seq![last]);
    }
    lines
}

/// Once the lines read so far hold no records, no further line mends it.
pub proof fn lemma_records_of_stays_none(lines: Seq<Seq<char>>, k: int)
    requires
        0 <= k <= lines.len(),
        records_of(lines.take(k)) is None,
    ensures
        records_of(lines) is None,
    decreases lines.len(),
{
    if k == lines.len() {
        assert(lines.take(k) == lines);
    } else {
        assert(lines.drop_last().take(k) == lines.take(k));
        lemma_records_of_stays_none(lines.drop_last(), k);
    }
}

/// The characters of `line` from index `from` on.
fn tail_of(line: &Vec<char>, from: usize) -> (tail: Vec<char>)
    requires
        from <= line@.len(),
    ensures
        tail@ == line@.skip(from as int),
{
    let total = line.len();
    let mut tail: Vec<char> = Vec::new();
    let mut k: usize = from;
    while k < total
        invariant
            from <= k <= total,
            total == line@.len(),
            tail@ == line@.subrange(from as int, k as int),
        decreases total - k,
    {
        tail.push(line[k]);
        k += 1;
    }
    assert(line@.subrange(from as int, total as int) == line@.skip(from as int));
    tail
}

/// Appends the characters of `line` to `out`.
fn push_chars(out: &mut Vec<char>, line: &Vec<char>)
    ensures
        final(out)@ == old(out)@ + line@,
{
    let ghost before = out@;
    let total = line.len();
    let mut k: usize = 0;
    while k < total
        invariant
            k <= total,
            total == line@.len(),
            out@ == before + line@.take(k as int),
        decreases total - k,
    {
        out.push(line[k]);
        assert(line@.take(k + 1) == line@.take(k as int).push(line@[k as int]));
        k += 1;
    }
    assert(line@.take(total as int) == line@);
}

impl Fasta<char> {
    /// Decode FASTA text.
    ///
    /// Fails where a line of symbols stands before the first header line,
    /// and on no other text.
    pub fn parse(text: &str) -> (decoded: Result<Self, FastaError>)
        ensures
            match decoded {
                Ok(fasta) => decoding(text@) == Some(fasta@),
                Err(error) => decoding(text@) is None && error
                    == FastaError::SequenceWithoutMetadata,
            },
    {
        let lines = split_lines(text);
        let total = lines.len();
        let ghost all = views_of(lines@);
        let mut records: Vec<FastaSequence<char>> = Vec::new();
        let mut begun: bool = false;
        let mut meta: Vec<char> = Vec::new();
        let mut symbols: Vec<char> = Vec::new();
        let mut k: usize = 0;
        assert(all.take(0) == Seq::<Seq<char>>::empty());
        assert(records_view(records@) == Seq::<Record<char>>::empty());
        while k < total
            invariant
                k <= total,
                total == lines@.len(),
                all == views_of(lines@),
                all == lines_of(text@),
                !begun ==> records@.len() == 0,
                records_of(all.take(k as int)) == Some(
                    if begun {
                        records_view(records@).push((meta@, symbols@))
                    } else {
                        records_view(records@)
                    },
                ),
            decreases total - k,
        {
            let line: &Vec<char> = &lines[k];
            let ghost so_far = records_of(all.take(k as int))->0;
            assert(all.take(k + 1).drop_last() == all.take(k as int));
            assert(all.take(k + 1).last() == line@);
            if line.len() > 0 && line[0] == HEADER_MARKER {
                if begun {
                    let ghost before = records_view(records@);
                    let done = FastaSequence { meta: join_chars(&meta), sequence: Sequence(symbols) };
                    records.push(done);
                    assert(records_view(records@) == before.push((meta@, done.sequence@)));
                }
                meta = tail_of(line, 1);
                symbols = Vec::new();
                begun = true;
            } else {
                if !begun {
                    proof {
                        assert(records_of(all.take(k + 1)) is None);
                        lemma_records_of_stays_none(all, k + 1);
                    }
                    return Err(FastaError::SequenceWithoutMetadata);
                }
                let ghost before = symbols@;
                push_chars(&mut symbols, line);
                assert(so_far.drop_last() == records_view(records@));
                assert(so_far.last() == (meta@, before));
            }
            k += 1;
        }
        assert(all.take(total as int) == all);
        if begun {
            let ghost before = records_view(records@);
            let done = FastaSequence { meta: join_chars(&meta), sequence: Sequence(symbols) };
            records.push(done);
            assert(records_view(records@) == before.push((meta@, done.sequence@)));
        }
        Ok(Fasta(records))
    }
}

impl<T> Fasta<T> {
    /// The two sequences of a file that holds exactly two records, first
    /// record first.
    pub fn pair(&self) -> (pair: Result<[&Sequence<T>; 2], FastaError>)
        ensures
            match pair {
                Ok(seqs) => self@.len() == 2 && seqs[0]@ == self@[0].1 && seqs[1]@ == self@[1].1,
                Err(error) => self@.len() != 2 && error == FastaError::NotTwoSequences,
            },
    {
        if self.0.len() == 2 {
            Ok([&self.0[0].sequence, &self.0[1].sequence])
        } else {
            Err(FastaError::NotTwoSequences)
        }
    }
}

} // verus!
