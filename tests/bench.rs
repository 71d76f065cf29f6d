use csv_sort_bench::algorithms::column_is_uniform;
use csv_sort_bench::bench::{copy_records, run_benchmarks, Algorithm, DEFAULT_ROW_LIMIT};
use csv_sort_bench::models::{Field, Record};

fn field(text: &str) -> Field {
    Field::new(text.to_string(), text.parse::<f64>().ok().map(f64::to_bits))
}

fn rows(n: usize) -> Vec<Record> {
    (0..n).map(|i| vec![field(&format!("name{}", i)), field(&((n - i) * 7 % 1013).to_string())]).collect()
}

fn names(records: &[Record]) -> Vec<String> {
    records.iter().map(|r| r[0].text.clone()).collect()
}

#[test]
fn large_dataset_skips_quadratic_algorithms() {
    let data = rows(1500);
    let before = names(&data);
    let results = run_benchmarks(&data, 1, DEFAULT_ROW_LIMIT);
    let got: Vec<(&str, bool)> = results.iter().map(|r| (r.name.as_str(), r.skipped)).collect();
    assert_eq!(
        got,
        vec![
            ("Std Sort", false),
            ("Merge Sort", false),
            ("Quick Sort", false),
            ("Bubble Sort", true),
            ("Insertion Sort", true),
        ]
    );
    assert_eq!(results[3].nanos, 0);
    assert_eq!(results[4].nanos, 0);
    assert_eq!(names(&data), before);
}

#[test]
fn small_dataset_runs_every_algorithm() {
    let data = rows(50);
    let results = run_benchmarks(&data, 1, DEFAULT_ROW_LIMIT);
    assert_eq!(results.len(), 5);
    assert!(results.iter().all(|r| !r.skipped));
    let got: Vec<&str> = results.iter().map(|r| r.name.as_str()).collect();
    assert_eq!(got, vec!["Std Sort", "Merge Sort", "Quick Sort", "Bubble Sort", "Insertion Sort"]);
}

#[test]
fn row_limit_is_exclusive() {
    let data = rows(10);
    assert!(run_benchmarks(&data, 1, 10).iter().all(|r| !r.skipped));
    assert_eq!(run_benchmarks(&data, 1, 9).iter().filter(|r| r.skipped).count(), 2);
}

#[test]
fn algorithm_run_sorts_a_copy() {
    let data = rows(30);
    let mut copy = copy_records(&data);
    assert_eq!(names(&copy), names(&data));
    assert!(Algorithm::Quick.run(&mut copy, 1).is_some());
    let keys: Vec<u32> = copy.iter().map(|r| r[1].text.parse().unwrap()).collect();
    assert!(keys.windows(2).all(|w| w[0] <= w[1]));
    assert_ne!(names(&copy), names(&data));
}

#[test]
fn algorithm_names() {
    assert_eq!(Algorithm::Standard.name(), "Std Sort");
    assert_eq!(Algorithm::Insertion.name(), "Insertion Sort");
}

#[test]
fn uniform_columns_are_recognised() {
    let numbers = vec![vec![field("3")], vec![field("-1.5")]];
    let words = vec![vec![field("a")], vec![field("b")]];
    let mixed = vec![vec![field("3")], vec![field("b")]];
    let with_nan = vec![vec![field("3")], vec![field("NaN")]];
    assert!(column_is_uniform(&numbers, 0));
    assert!(column_is_uniform(&words, 0));
    assert!(!column_is_uniform(&mixed, 0));
    assert!(!column_is_uniform(&with_nan, 0));
    assert!(column_is_uniform(&numbers, 1));
    assert!(column_is_uniform(&Vec::new(), 0));
}

#[test]
fn library_sort_is_skipped_on_a_mixed_column() {
    let data = vec![vec![field("10")], vec![field("a")], vec![field("9")]];
    let results = run_benchmarks(&data, 0, DEFAULT_ROW_LIMIT);
    let skipped: Vec<bool> = results.iter().map(|r| r.skipped).collect();
    assert_eq!(skipped, vec![true, false, false, false, false]);
    assert_eq!(results[0].nanos, 0);
    let mut copy = copy_records(&data);
    assert!(Algorithm::Standard.run(&mut copy, 0).is_none());
    assert_eq!(names(&copy), names(&data));
    assert!(Algorithm::Merge.run(&mut copy, 0).is_some());
}
