//! Synthetic student records, and their table form for export.
use crate::io::{csv_text, to_csv_error, write_table};
use crate::models::{CsvError, Student};
use fake::faker::name::en::{FirstName, LastName};
use fake::Fake;
use rand::Rng;
use vstd::prelude::*;
use vstd::string::StringExecFns;

verus! {

/// Ages are drawn from `MIN_AGE..MAX_AGE`, ACT scores from `MIN_ACT..MAX_ACT`,
/// SAT scores from `MIN_SAT..MAX_SAT`.
pub const MIN_AGE: u32 = 17;
pub const MAX_AGE: u32 = 25;
pub const MIN_ACT: u32 = 1;
pub const MAX_ACT: u32 = 37;
pub const MIN_SAT: u32 = 400;
pub const MAX_SAT: u32 = 1601;

/// Relies on rand's `Rng::gen_range` on the thread-local generator: a value in
/// `low..high`; it panics on an empty range.
#[verifier::external_body]
fn random_between(low: u32, high: u32) -> (r: u32)
    requires
        low < high,
    ensures
        low <= r < high,
{
    rand::thread_rng().gen_range(low..high)
}

/// Relies on fake's English `FirstName` faker: a first name drawn at random.
#[verifier::external_body]
fn random_first_name() -> String {
    FirstName().fake()
}

/// Relies on fake's English `LastName` faker: a last name drawn at random.
#[verifier::external_body]
fn random_last_name() -> String {
    LastName().fake()
}

/// `count` students with random names, an age in 17..25, an ACT score in 1..37
/// and an SAT score in 400..1601.
pub fn generate_students(count: usize) -> (students: Vec<Student>)
    ensures
        students@.len() == count,
        forall|i: int|
            0 <= i < count ==> {
                let s = #[trigger] students@[i];
                &&& MIN_AGE <= s.age < MAX_AGE
                &&& MIN_ACT <= s.act_score < MAX_ACT
                &&& MIN_SAT <= s.sat_score < MAX_SAT
            },
{
    let mut students: Vec<Student> = Vec::new();
    let mut i: usize = 0;
    while i < count
        invariant
            i <= count,
            students@.len() == i,
            forall|k: int|
                0 <= k < i ==> {
                    let s = #[trigger] students@[k];
                    &&& MIN_AGE <= s.age < MAX_AGE
                    &&& MIN_ACT <= s.act_score < MAX_ACT
                    &&& MIN_SAT <= s.sat_score < MAX_SAT
                },
        decreases count - i,
    {
        students.push(
            Student {
                first_name: random_first_name(),
                last_name: random_last_name(),
                age: random_between(MIN_AGE, MAX_AGE),
                act_score: random_between(MIN_ACT, MAX_ACT),
                sat_score: random_between(MIN_SAT, MAX_SAT),
            },
        );
        i += 1;
    }
    students
}

/// The character of a decimal digit.
pub open spec fn digit_char(d: nat) -> char {
    if d == 0 {
        '0'
    } else if d == 1 {
        '1'
    } else if d == 2 {
        '2'
    } else if d == 3 {
        '3'
    } else if d == 4 {
        '4'
    } else if d == 5 {
        '5'
    } else if d == 6 {
        '6'
    } else if d == 7 {
        '7'
    } else if d == 8 {
        '8'
    } else {
        '9'
    }
}

/// The decimal digits of `n`, without leading zeros.
pub open spec fn decimal_text(n: nat) -> Seq<char>
    decreases n,
{
    if n < 10 {
        seq![digit_char(n)]
    } else {
        decimal_text(n / 10).push(digit_char(n % 10))
    }
}

/// Relies on `u32`'s `Display` through `ToString`: its decimal digits.
#[verifier::external_body]
fn decimal(n: u32) -> (s: String)
    ensures
        s@ == decimal_text(n as nat),
{
    n.to_string()
}

/// The header row of a student table: the field names.
pub open spec fn student_header() -> Seq<Seq<char>> {
    seq!["first_name"@, "last_name"@, "age"@, "act_score"@, "sat_score"@]
}

/// One student as a row of texts.
pub open spec fn student_row(s: Student) -> Seq<Seq<char>> {
    seq![
        s.first_name@,
        s.last_name@,
        decimal_text(s.age as nat),
        decimal_text(s.act_score as nat),
        decimal_text(s.sat_score as nat),
    ]
}

/// A student table: the header row, then one row per student; no rows at all
/// when there are no students.
pub open spec fn student_table(students: Seq<Student>) -> Seq<Seq<Seq<char>>> {
    if students.len() == 0 {
        Seq::empty()
    } else {
        seq![student_header()] + students.map_values(|s: Student| student_row(s))
    }
}

/// The header row followed by one row per student.
pub open spec fn headed_rows(students: Seq<Student>) -> Seq<Seq<Seq<char>>> {
    seq![student_header()] + students.map_values(|s: Student| student_row(s))
}

/// The rows of a student table.
pub fn student_rows(students: &Vec<Student>) -> (rows: Vec<Vec<String>>)
    ensures
        rows.deep_view() == student_table(students@),
{
    let mut rows: Vec<Vec<String>> = Vec::new();
    if students.len() == 0 {
        assert(rows.deep_view() =~= student_table(students@));
        return rows;
    }
    let header: Vec<String> = vec![
        String::from_str("first_name"),
        String::from_str("last_name"),
        String::from_str("age"),
        String::from_str("act_score"),
        String::from_str("sat_score"),
    ];
    assert(header.deep_view() =~= student_header());
    rows.push(header);
    let mut i: usize = 0;
    assert(rows.deep_view() =~= headed_rows(students@.subrange(0, 0)));
    while i < students.len()
        invariant
            i <= students.len(),
            rows.deep_view() =~= headed_rows(students@.subrange(0, i as int)),
        decreases students.len() - i,
    {
        let s = &students[i];
        let row: Vec<String> = vec![
            s.first_name.clone(),
            s.last_name.clone(),
            decimal(s.age),
            decimal(s.act_score),
            decimal(s.sat_score),
        ];
        assert(row.deep_view() =~= student_row(students@[i as int]));
        let ghost prev = rows;
        rows.push(row);
        assert(rows.deep_view() =~= prev.deep_view().push(row.deep_view()));
        assert(students@.subrange(0, i + 1) =~= students@.subrange(0, i as int).push(students@[i as int]));
        i += 1;
    }
    assert(students@.subrange(0, i as int) =~= students@);
    rows
}

/// Writes students as comma-separated text, the field names as the first row.
pub fn save_to_csv(students: &Vec<Student>) -> (r: Result<Vec<u8>, CsvError>)
    ensures
        r is Ok <==> csv_text(student_table(students@)) is Some,
        r matches Ok(bytes) ==> csv_text(student_table(students@)) == Some(bytes@),
        r matches Err(e) ==> e is IoError || e is ParseError,
{
    let rows = student_rows(students);
    match write_table(&rows) {
        Ok(bytes) => Ok(bytes),
        Err(e) => Err(to_csv_error(e)),
    }
}

} // verus!
