//! A bank's export format, and the reading of an export into records.

use crate::pattern::{accepts, is_match};
use crate::record::{Field, Record, RecordError, RecordView};
use crate::text::texts;
use regex::Regex;
use vstd::prelude::*;
use vstd::string::*;
use vstd::utf8::encode_utf8;

verus! {

/// The position of the first line feed of `s` at or after `i`, or the
/// length of `s` where there is none.
pub open spec fn line_end(s: Seq<char>, i: int) -> int
    decreases s.len() - i,
{
    if 0 <= i < s.len() && s[i] != '\n' {
        line_end(s, i + 1)
    } else {
        i
    }
}

/// A line without the carriage return that may stand before its line feed.
pub open spec fn without_return(line: Seq<char>) -> Seq<char> {
    if line.len() > 0 && line.last() == '\r' {
        line.drop_last()
    } else {
        line
    }
}

/// The lines of `s` from position `i` on: each ends at a line feed, which
/// is left out together with a carriage return right before it; what
/// follows the last line feed is a line as it stands, unless it is empty.
pub open spec fn lines_from(s: Seq<char>, i: int) -> Seq<Seq<char>>
    decreases s.len() - i,
{
    if i < 0 || i >= s.len() {
        Seq::empty()
    } else {
        let j = line_end(s, i);
        if i <= j < s.len() {
            seq![without_return(s.subrange(i, j))] + lines_from(s, j + 1)
        } else {
            seq![s.subrange(i, s.len() as int)]
        }
    }
}

/// The lines of `text`.
pub open spec fn lines_of(text: Seq<char>) -> Seq<Seq<char>> {
    lines_from(text, 0)
}

/// The rows that the `csv` crate reads from `input` with the field
/// delimiter `delimiter` and no header row, in order: the cells of each
/// row, or `None` for a row that the reader refuses.
pub uninterp spec fn csv_rows(input: Seq<char>, delimiter: u8) -> Seq<Option<Seq<Seq<char>>>>;

/// The content of the rows read from an export.
pub open spec fn rows_view(rows: Seq<Option<Vec<String>>>) -> Seq<Option<Seq<Seq<char>>>> {
    Seq::new(
        rows.len(),
        |i: int|
            match rows[i] {
                Some(cells) => Some(texts(cells@)),
                None => None,
            },
    )
}

/// Splits `text` with `str::lines` and copies each line. The contract
/// states what that function documents: lines end at `\n` or `\r\n`, the
/// ending is not part of the line, a carriage return without a line feed
/// stays, and a final line ending adds no empty line.
#[verifier::external_body]
fn split_lines(text: &str) -> (lines: Vec<String>)
    ensures
        texts(lines@) == lines_of(text@),
{
    text.lines().map(|line| line.to_owned()).collect()
}

/// Reads `input` with a `csv::Reader` built by `csv::ReaderBuilder` with
/// the given delimiter and without a header row, and copies out the cells
/// of every row that `records` yields, `None` standing for a row that it
/// yields as an error. The contract names the rows.
#[verifier::external_body]
fn parse_rows(input: &str, delimiter: u8) -> (rows: Vec<Option<Vec<String>>>)
    ensures
        rows_view(rows@) == csv_rows(input@, delimiter),
{
    let mut reader = csv::ReaderBuilder::new().delimiter(delimiter).has_headers(false).from_reader(
        input.as_bytes(),
    );
    reader.records().map(
        |row| row.ok().map(|cells| cells.iter().map(|cell| cell.to_owned()).collect()),
    ).collect()
}

/// Why an export could not be read.
#[derive(Debug, Clone, Copy, PartialEq, Eq, Structural)]
pub enum ReadError {
    /// The format declares no delimiter.
    Delimiter,
    /// A row is not well-formed CSV, or differs in length from the first.
    Csv,
    /// A row could not be turned into a record.
    Row(RecordError),
}

/// A bank's export format.
#[derive(Debug)]
pub struct Parser {
    pub name: String,
    /// Selects this format for files whose name matches.
    pub file_pattern: Option<Regex>,
    /// A line that matches one of these is dropped before the CSV is read.
    pub ignore_patterns: Vec<Regex>,
    /// The number of leading lines that are dropped.
    pub ignore_header_rows: usize,
    /// The field delimiter; its first byte is used.
    pub delimiter: String,
    /// How each column is read, in order.
    pub columns: Vec<Field>,
}

/// Whether one of the patterns matches the line.
pub open spec fn is_ignored(patterns: Seq<Regex>, line: Seq<char>) -> bool {
    exists|i: int| 0 <= i < patterns.len() && accepts(#[trigger] patterns[i], line)
}

/// The text that is left of the first `n` lines: the first `skip` lines
/// and every line that an ignore pattern matches are dropped, and each
/// remaining line is followed by a line feed.
pub open spec fn kept_text(lines: Seq<Seq<char>>, skip: nat, patterns: Seq<Regex>, n: nat) -> Seq<
    char,
>
    decreases n,
{
    if n == 0 {
        Seq::empty()
    } else {
        let before = kept_text(lines, skip, patterns, (n - 1) as nat);
        if n - 1 < skip || is_ignored(patterns, lines[n - 1]) {
            before
        } else {
            before + lines[n - 1] + seq!['\n']
        }
    }
}

/// What one row gives: its record, or why it gives none.
pub open spec fn row_record(row: Option<Seq<Seq<char>>>, columns: Seq<Field>) -> Result<
    RecordView,
    ReadError,
> {
    match row {
        None => Err(ReadError::Csv),
        Some(cells) => if cells.len() < columns.len() {
            Err(ReadError::Row(RecordError::MappingError))
        } else {
            match RecordView::mapped(cells, columns, columns.len()) {
                Some(r) => Ok(r),
                None => Err(ReadError::Row(RecordError::DateParseError)),
            }
        },
    }
}

/// The records of the first `n` rows, in order, or the failure of the
/// first row that gives none.
pub open spec fn records_of(rows: Seq<Option<Seq<Seq<char>>>>, columns: Seq<Field>, n: nat) -> Result<
    Seq<RecordView>,
    ReadError,
>
    decreases n,
{
    if n == 0 {
        Ok(Seq::empty())
    } else {
        match records_of(rows, columns, (n - 1) as nat) {
            Ok(before) => match row_record(rows[n - 1], columns) {
                Ok(r) => Ok(before.push(r)),
                Err(e) => Err(e),
            },
            Err(e) => Err(e),
        }
    }
}

/// Once a row has failed, every longer prefix of the rows fails the same
/// way.
pub proof fn lemma_records_fail(
    rows: Seq<Option<Seq<Seq<char>>>>,
    columns: Seq<Field>,
    n: nat,
    m: nat,
)
    requires
        n <= m,
        records_of(rows, columns, n) is Err,
    ensures
        records_of(rows, columns, m) == records_of(rows, columns, n),
    decreases m,
{
    if n < m {
        lemma_records_fail(rows, columns, n, (m - 1) as nat);
    }
}

/// The content of a list of records.
pub open spec fn record_views(records: Seq<Record>) -> Seq<RecordView> {
    Seq::new(records.len(), |i: int| records[i]@)
}

/// Turns the rows read from an export into records, one per row, in order.
/// The first row that the reader refused, that is shorter than the mapping
/// or that holds a date which does not follow its pattern fails the batch.
pub fn records(rows: &Vec<Option<Vec<String>>>, columns: &Vec<Field>) -> (made: Result<
    Vec<Record>,
    ReadError,
>)
    ensures
        match records_of(rows_view(rows@), columns@, rows@.len()) {
            Ok(views) => made is Ok && record_views(made->Ok_0@) == views && forall|i: int|
                0 <= i < made->Ok_0@.len() ==> (#[trigger] made->Ok_0@[i]).wf(),
            Err(e) => made == Err::<Vec<Record>, ReadError>(e),
        },
{
    let mut out: Vec<Record> = Vec::new();
    let mut i: usize = 0;
    assert(record_views(out@) =~= Seq::<RecordView>::empty());
    while i < rows.len()
        invariant
            i <= rows@.len(),
            records_of(rows_view(rows@), columns@, i as nat) == Ok::<Seq<RecordView>, ReadError>(
                record_views(out@),
            ),
            forall|j: int| 0 <= j < out@.len() ==> (#[trigger] out@[j]).wf(),
        decreases rows@.len() - i,
    {
        proof {
            reveal_with_fuel(records_of, 2);
            assert(((i + 1) as nat - 1) as nat == i as nat);
        }
        let made = match &rows[i] {
            None => Err(ReadError::Csv),
            Some(cells) => match Record::from(cells, columns) {
                Ok(r) => Ok(r),
                Err(e) => Err(ReadError::Row(e)),
            },
        };
        match made {
            Ok(r) => {
                let ghost before = record_views(out@);
                out.push(r);
                assert(record_views(out@) =~= before.push(r@));
            },
            Err(e) => {
                proof {
                    assert(row_record(rows_view(rows@)[i as int], columns@) == Err::<
                        RecordView,
                        ReadError,
                    >(e));
                    lemma_records_fail(rows_view(rows@), columns@, (i + 1) as nat, rows@.len());
                }
                return Err(e);
            },
        }
        i += 1;
    }
    Ok(out)
}

impl Parser {
    /// Whether one of the ignore patterns matches `line`.
    pub fn ignores(&self, line: &str) -> (yes: bool)
        ensures
            yes == is_ignored(self.ignore_patterns@, line@),
    {
        let mut i: usize = 0;
        while i < self.ignore_patterns.len()
            invariant
                i <= self.ignore_patterns@.len(),
                forall|j: int| 0 <= j < i ==> !accepts(#[trigger] self.ignore_patterns@[j], line@),
            decreases self.ignore_patterns@.len() - i,
        {
            if is_match(&self.ignore_patterns[i], line) {
                return true;
            }
            i += 1;
        }
        false
    }

    /// Drops the header lines and the ignored lines of an export and joins
    /// the rest, each followed by a line feed.
    pub fn preprocess(&self, s: &str) -> (input: String)
        ensures
            input@ == kept_text(
                lines_of(s@),
                self.ignore_header_rows as nat,
                self.ignore_patterns@,
                lines_of(s@).len(),
            ),
    {
        let lines = split_lines(s);
        let mut input = String::new();
        let mut i: usize = 0;
        while i < lines.len()
            invariant
                i <= lines@.len(),
                texts(lines@) == lines_of(s@),
                input@ == kept_text(
                    lines_of(s@),
                    self.ignore_header_rows as nat,
                    self.ignore_patterns@,
                    i as nat,
                ),
            decreases lines@.len() - i,
        {
            assert(texts(lines@)[i as int] == lines@[i as int]@);
            if i >= self.ignore_header_rows && !self.ignores(lines[i].as_str()) {
                proof {
                    reveal_strlit("\n");
                    assert("\n"@ =~= seq!['\n']);
                }
                input.append(lines[i].as_str());
                input.append("\n");
            }
            i += 1;
        }
        input
    }

    /// Reads an export: drops the header and ignored lines, reads the rest
    /// as CSV delimited by the first byte of the declared delimiter, and
    /// turns every row into a record.
    pub fn read_from_string(&self, s: String) -> (made: Result<Vec<Record>, ReadError>)
        ensures
            encode_utf8(self.delimiter@).len() == 0 ==> made == Err::<Vec<Record>, ReadError>(
                ReadError::Delimiter,
            ),
            encode_utf8(self.delimiter@).len() > 0 ==> ({
                let input = kept_text(
                    lines_of(s@),
                    self.ignore_header_rows as nat,
                    self.ignore_patterns@,
                    lines_of(s@).len(),
                );
                let rows = csv_rows(input, encode_utf8(self.delimiter@)[0]);
                match records_of(rows, self.columns@, rows.len()) {
                    Ok(views) => made is Ok && record_views(made->Ok_0@) == views && forall|i: int|
                        0 <= i < made->Ok_0@.len() ==> (#[trigger] made->Ok_0@[i]).wf(),
                    Err(e) => made == Err::<Vec<Record>, ReadError>(e),
                }
            }),
    {
        let bytes = self.delimiter.as_str().as_bytes();
        if bytes.len() == 0 {
            return Err(ReadError::Delimiter);
        }
        let input = self.preprocess(s.as_str());
        let rows = parse_rows(input.as_str(), bytes[0]);
        assert(rows_view(rows@).len() == rows@.len());
        records(&rows, &self.columns)
    }
}

} // verus!
