//! Reading and writing delimited text: the delimiter is chosen from the first
//! line, and the `csv` crate splits and quotes the fields.
use crate::models::{CsvError, Record};
use vstd::prelude::*;
use vstd::utf8::valid_utf8;

verus! {

/// The error type of the `csv` crate, carried through opaquely.
#[verifier::external_type_specification]
#[verifier::external_body]
pub struct ExCsvError(csv::Error);

/// Relies on `csv::Error::is_io_error`: whether the failure came from reading or
/// writing rather than from the data; nothing is assumed of its answer.
pub assume_specification[ csv::Error::is_io_error ](e: &csv::Error) -> bool;

/// The table that the `csv` reader makes of `contents` with `delimiter`: the
/// header row and the data rows, or `None` where it reports an error.
pub uninterp spec fn csv_table(contents: Seq<u8>, delimiter: u8) -> Option<(Seq<Seq<char>>, Seq<Seq<Seq<char>>>)>;

/// The text that the `csv` writer makes of `rows`, comma-separated with standard
/// quoting, or `None` where it reports an error.
pub uninterp spec fn csv_text(rows: Seq<Seq<Seq<char>>>) -> Option<Seq<u8>>;

/// The bytes of `contents` before its first line feed.
pub open spec fn first_line(contents: Seq<u8>) -> Seq<u8>
    decreases contents.len(),
{
    if contents.len() == 0 || contents[0] == 10u8 {
        Seq::empty()
    } else {
        seq![contents[0]] + first_line(contents.drop_first())
    }
}

/// How many times `c` occurs in `s`.
pub open spec fn count_byte(s: Seq<u8>, c: u8) -> nat
    decreases s.len(),
{
    if s.len() == 0 {
        0
    } else {
        count_byte(s.drop_last(), c) + if s.last() == c {
            1nat
        } else {
            0nat
        }
    }
}

/// Of comma (44), semicolon (59), tab (9) and vertical bar (124), the first
/// that occurs most often in the first line of `contents`; a comma when none occurs.
pub open spec fn detected_delimiter(contents: Seq<u8>) -> u8 {
    let line = first_line(contents);
    let c0 = count_byte(line, 44u8);
    let c1 = count_byte(line, 59u8);
    let c2 = count_byte(line, 9u8);
    let c3 = count_byte(line, 124u8);
    if c0 >= c1 && c0 >= c2 && c0 >= c3 {
        44u8
    } else if c1 >= c2 && c1 >= c3 {
        59u8
    } else if c2 >= c3 {
        9u8
    } else {
        124u8
    }
}

/// The delimiter chosen for `contents`: as `detected_delimiter` says when its first
/// line is valid UTF-8, and a comma when that line cannot be read as text.
pub open spec fn chosen_delimiter(contents: Seq<u8>) -> u8 {
    if valid_utf8(first_line(contents)) {
        detected_delimiter(contents)
    } else {
        44u8
    }
}

/// Relies on `std::str::from_utf8`, which accepts exactly the valid UTF-8
/// encodings: whether the first `end` bytes are one.
#[verifier::external_body]
fn prefix_is_utf8(contents: &[u8], end: usize) -> (r: bool)
    requires
        end <= contents@.len(),
    ensures
        r == valid_utf8(contents@.subrange(0, end as int)),
{
    std::str::from_utf8(&contents[..end]).is_ok()
}

/// Relies on `csv::ReaderBuilder` with the given delimiter, reading from the
/// bytes: the header row, then every data row, each field as a `String`.
#[verifier::external_body]
fn read_table(contents: &[u8], delimiter: u8) -> (r: Result<(Vec<String>, Vec<Vec<String>>), csv::Error>)
    ensures
        r is Ok <==> csv_table(contents@, delimiter) is Some,
        r matches Ok((h, rows)) ==> csv_table(contents@, delimiter) == Some((h.deep_view(), rows.deep_view())),
{
    let mut reader = csv::ReaderBuilder::new().delimiter(delimiter).from_reader(contents);
    let headers: Vec<String> = reader.headers()?.iter().map(|s| s.to_string()).collect();
    let rows = reader.records().map(|row| row.map(|row| row.iter().map(|s| s.to_string()).collect())).collect::<
        Result<Vec<Vec<String>>, csv::Error>,
    >()?;
    Ok((headers, rows))
}

/// Relies on `csv::Writer` writing into a byte buffer: each row as one line,
/// fields comma-separated and quoted where needed.
#[verifier::external_body]
pub(crate) fn write_table(rows: &Vec<Vec<String>>) -> (r: Result<Vec<u8>, csv::Error>)
    ensures
        r is Ok <==> csv_text(rows.deep_view()) is Some,
        r matches Ok(bytes) ==> csv_text(rows.deep_view()) == Some(bytes@),
{
    let mut writer = csv::Writer::from_writer(Vec::new());
    for row in rows {
        writer.write_record(row)?;
    }
    writer.into_inner().map_err(|e| csv::Error::from(e.into_error()))
}

/// Relies on the `Display` of `csv::Error`: its message.
#[verifier::external_body]
fn csv_error_text(e: &csv::Error) -> String {
    e.to_string()
}

/// The library's error for a failure that the `csv` crate reports.
pub(crate) fn to_csv_error(e: csv::Error) -> (r: CsvError)
    ensures
        r is IoError || r is ParseError,
{
    let message = csv_error_text(&e);
    if e.is_io_error() {
        CsvError::IoError(message)
    } else {
        CsvError::ParseError(message)
    }
}

/// Chooses the delimiter of delimited text: the one of comma, semicolon, tab
/// and vertical bar that occurs most often in the first line, the earliest of
/// them on a tie; a comma when none occurs or the first line is not valid UTF-8.
pub fn detect_delimiter(contents: &[u8]) -> (d: u8)
    ensures
        d == chosen_delimiter(contents@),
{
    let ghost s = contents@;
    let mut end: usize = 0;
    assert(s.skip(0) =~= s);
    assert(s.subrange(0, 0) + first_line(s) =~= first_line(s));
    while end < contents.len() && contents[end] != 10u8
        invariant
            s == contents@,
            end <= contents.len(),
            first_line(s) == s.subrange(0, end as int) + first_line(s.skip(end as int)),
        decreases contents.len() - end,
    {
        assert(s.skip(end as int).drop_first() =~= s.skip(end + 1));
        assert(s.subrange(0, end + 1) =~= s.subrange(0, end as int) + seq![s[end as int]]);
        end += 1;
    }
    assert(first_line(s.skip(end as int)) =~= Seq::<u8>::empty());
    assert(first_line(s) =~= s.subrange(0, end as int));
    if !prefix_is_utf8(contents, end) {
        return 44u8;
    }
    let candidates: [u8; 4] = [44u8, 59u8, 9u8, 124u8];
    let c0: usize = count_in(contents, end, candidates[0]);
    let c1: usize = count_in(contents, end, candidates[1]);
    let c2: usize = count_in(contents, end, candidates[2]);
    let c3: usize = count_in(contents, end, candidates[3]);
    if c0 >= c1 && c0 >= c2 && c0 >= c3 {
        candidates[0]
    } else if c1 >= c2 && c1 >= c3 {
        candidates[1]
    } else if c2 >= c3 {
        candidates[2]
    } else {
        candidates[3]
    }
}

/// How many times `c` occurs among the first `end` bytes.
fn count_in(contents: &[u8], end: usize, c: u8) -> (n: usize)
    requires
        end <= contents@.len(),
    ensures
        n == count_byte(contents@.subrange(0, end as int), c),
{
    let mut n: usize = 0;
    let mut i: usize = 0;
    while i < end
        invariant
            i <= end <= contents@.len(),
            n == count_byte(contents@.subrange(0, i as int), c),
            n <= i,
        decreases end - i,
    {
        assert(contents@.subrange(0, i + 1).drop_last() =~= contents@.subrange(0, i as int));
        if contents[i] == c {
            n += 1;
        }
        i += 1;
    }
    n
}

/// Reads delimited text: the delimiter is detected as `detect_delimiter` does,
/// and the `csv` crate splits the text into a header row and data rows.
pub fn load_csv(contents: &[u8]) -> (r: Result<(Vec<String>, Vec<Vec<String>>), CsvError>)
    ensures
        r is Ok <==> csv_table(contents@, chosen_delimiter(contents@)) is Some,
        r matches Ok((h, rows)) ==> csv_table(contents@, chosen_delimiter(contents@)) == Some(
            (h.deep_view(), rows.deep_view()),
        ),
        r matches Err(e) ==> e is IoError || e is ParseError,
{
    let delimiter: u8 = detect_delimiter(contents);
    match read_table(contents, delimiter) {
        Ok(table) => Ok(table),
        Err(e) => Err(to_csv_error(e)),
    }
}

/// The texts of a record's fields.
pub fn record_texts(r: &Record) -> (t: Vec<String>)
    ensures
        t@.len() == r@.len(),
        forall|k: int| 0 <= k < r@.len() ==> (#[trigger] t@[k])@ == r@[k].text@,
{
    let mut t: Vec<String> = Vec::new();
    let mut i: usize = 0;
    while i < r.len()
        invariant
            i <= r.len(),
            t@.len() == i,
            forall|k: int| 0 <= k < i ==> (#[trigger] t@[k])@ == r@[k].text@,
        decreases r.len() - i,
    {
        t.push(r[i].text.clone());
        i += 1;
    }
    t
}

/// The rows written for a table: the header row, then the field texts of each record.
pub open spec fn table_rows(headers: Seq<Seq<char>>, records: Seq<Record>) -> Seq<Seq<Seq<char>>> {
    seq![headers] + records.map_values(|r: Record| r@.map_values(|f: crate::models::Field| f.text@))
}

/// Writes a table as comma-separated text with the headers as the first row.
pub fn save_csv(headers: &Vec<String>, records: &Vec<Record>) -> (r: Result<Vec<u8>, CsvError>)
    ensures
        r is Ok <==> csv_text(table_rows(headers.deep_view(), records@)) is Some,
        r matches Ok(bytes) ==> csv_text(table_rows(headers.deep_view(), records@)) == Some(bytes@),
        r matches Err(e) ==> e is IoError || e is ParseError,
{
    let mut rows: Vec<Vec<String>> = Vec::new();
    rows.push(copy_texts(headers));
    let mut i: usize = 0;
    assert(rows.deep_view() =~= table_rows(headers.deep_view(), records@.subrange(0, 0)));
    while i < records.len()
        invariant
            i <= records.len(),
            rows.deep_view() =~= table_rows(headers.deep_view(), records@.subrange(0, i as int)),
        decreases records.len() - i,
    {
        let texts = record_texts(&records[i]);
        let ghost prev = rows;
        assert(texts.deep_view() =~= records@[i as int]@.map_values(|f: crate::models::Field| f.text@));
        rows.push(texts);
        assert(rows.deep_view() =~= prev.deep_view().push(texts.deep_view()));
        assert(records@.subrange(0, i + 1) =~= records@.subrange(0, i as int).push(records@[i as int]));
        i += 1;
    }
    assert(records@.subrange(0, i as int) =~= records@);
    match write_table(&rows) {
        Ok(bytes) => Ok(bytes),
        Err(e) => Err(to_csv_error(e)),
    }
}

fn copy_texts(v: &Vec<String>) -> (c: Vec<String>)
    ensures
        c.deep_view() == v.deep_view(),
{
    let mut c: Vec<String> = Vec::new();
    let mut i: usize = 0;
    while i < v.len()
        invariant
            i <= v.len(),
            c.deep_view() =~= v.deep_view().subrange(0, i as int),
        decreases v.len() - i,
    {
        let ghost prev = c;
        c.push(v[i].clone());
        assert(c.deep_view() =~= prev.deep_view().push(v[i as int]@));
        i += 1;
    }
    assert(v.deep_view().subrange(0, i as int) =~= v.deep_view());
    c
}

} // verus!
