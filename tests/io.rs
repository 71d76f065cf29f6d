use csv_sort_bench::io::{detect_delimiter, load_csv, save_csv};
use csv_sort_bench::models::{CsvError, Field};

fn strings(v: &[&str]) -> Vec<String> {
    v.iter().map(|s| s.to_string()).collect()
}

#[test]
fn load_csv_reads_basic_comma_delimited() {
    let (headers, records) = load_csv(b"name,age,salary\nAlice,30,50000\nBob,25,45000\n").unwrap();
    assert_eq!(headers, vec!["name", "age", "salary"]);
    assert_eq!(records.len(), 2);
    assert_eq!(records[0], vec!["Alice", "30", "50000"]);
    assert_eq!(records[1], vec!["Bob", "25", "45000"]);
}

#[test]
fn load_csv_reads_semicolon_delimited() {
    let (headers, records) = load_csv(b"name;age;salary\nAlice;30;50000\nBob;25;45000\n").unwrap();
    assert_eq!(headers, vec!["name", "age", "salary"]);
    assert_eq!(records.len(), 2);
    assert_eq!(records[0], vec!["Alice", "30", "50000"]);
    assert_eq!(records[1], vec!["Bob", "25", "45000"]);
}

#[test]
fn load_csv_reads_tab_delimited() {
    let (headers, records) = load_csv(b"name\tage\tsalary\nAlice\t30\t50000\nBob\t25\t45000\n").unwrap();
    assert_eq!(headers, vec!["name", "age", "salary"]);
    assert_eq!(records.len(), 2);
    assert_eq!(records[0], vec!["Alice", "30", "50000"]);
    assert_eq!(records[1], vec!["Bob", "25", "45000"]);
}

#[test]
fn load_csv_handles_empty_file() {
    let _result = load_csv(b"");
}

#[test]
fn load_csv_handles_file_with_only_headers() {
    let (headers, records) = load_csv(b"name,age,salary\n").unwrap();
    assert_eq!(headers, vec!["name", "age", "salary"]);
    assert!(records.is_empty());
}

#[test]
fn load_csv_reports_rows_of_unequal_length() {
    match load_csv(b"a,b\n1,2,3\n") {
        Err(CsvError::ParseError(message)) => assert!(!message.is_empty()),
        _ => panic!("expected a parse error"),
    }
}

#[test]
fn detect_delimiter_identifies_comma() {
    assert_eq!(detect_delimiter(b"header1,header2,header3\nval1,val2,val3\n"), b',');
}

#[test]
fn detect_delimiter_identifies_semicolon() {
    assert_eq!(detect_delimiter(b"header1;header2;header3\nval1;val2;val3\n"), b';');
}

#[test]
fn detect_delimiter_reads_only_the_first_line() {
    assert_eq!(detect_delimiter(b"a;b;c\n|||||||||\n"), b';');
    assert_eq!(detect_delimiter(b"a,b,c"), b',');
    assert_eq!(detect_delimiter(b"a\tb|c|d\n"), b'|');
    assert_eq!(detect_delimiter(b"a\tb\tc\r\n"), b'\t');
}

#[test]
fn detect_delimiter_prefers_earlier_candidates_on_ties() {
    assert_eq!(detect_delimiter(b"a;b,c\n"), b',');
    assert_eq!(detect_delimiter(b"a|b\tc\n"), b'\t');
    assert_eq!(detect_delimiter(b"plain\n"), b',');
    assert_eq!(detect_delimiter(b""), b',');
}

#[test]
fn save_csv_writes_well_formed_file() {
    let headers = strings(&["col1", "col2"]);
    let records = vec![
        vec![Field::new("a".to_string(), None), Field::new("1".to_string(), Some(1.0f64.to_bits()))],
        vec![Field::new("b".to_string(), None), Field::new("2".to_string(), Some(2.0f64.to_bits()))],
    ];
    let result = save_csv(&headers, &records);
    assert!(result.is_ok());
    let content = String::from_utf8(result.unwrap()).unwrap();
    let lines: Vec<&str> = content.lines().collect();
    assert_eq!(lines[0], "col1,col2");
    assert_eq!(lines[1], "a,1");
    assert_eq!(lines[2], "b,2");
}

#[test]
fn save_csv_quotes_embedded_delimiters() {
    let headers = strings(&["name"]);
    let records = vec![vec![Field::new("Doe, Jane".to_string(), None)]];
    let content = String::from_utf8(save_csv(&headers, &records).unwrap()).unwrap();
    assert_eq!(content, "name\n\"Doe, Jane\"\n");
}

#[test]
fn csv_error_messages() {
    assert_eq!(CsvError::FileNotFound("x.csv".to_string()).message(), "File not found: x.csv");
    assert_eq!(CsvError::ParseError("bad".to_string()).message(), "Parse error: bad");
    assert_eq!(CsvError::IoError("disk".to_string()).message(), "IO error: disk");
}

#[test]
fn detect_delimiter_falls_back_to_comma_on_invalid_utf8() {
    assert_eq!(detect_delimiter(&[0xFF, b';', b';', b'\n']), b',');
    assert_eq!(detect_delimiter(&[b'a', b';', 0xC3, 0xA9, b';', b'\n']), b';');
    assert_eq!(detect_delimiter(&[b'a', b';', b'\n', 0xFF]), b';');
}
