use csv_sort_bench::algorithms::{
    bubblesort, get_comparator, insertionsort, mergesort, quicksort, standardsort,
};
use csv_sort_bench::models::{Field, Record};
use std::cmp::Ordering;

fn field(text: &str) -> Field {
    Field::new(text.to_string(), text.parse::<f64>().ok().map(f64::to_bits))
}

fn record(texts: &[&str]) -> Record {
    texts.iter().map(|t| field(t)).collect()
}

fn table(rows: &[&[&str]]) -> Vec<Record> {
    rows.iter().map(|r| record(r)).collect()
}

fn column(records: &[Record], c: usize) -> Vec<String> {
    records.iter().filter_map(|r| r.get(c)).map(|f| f.text.clone()).collect()
}

fn texts(records: &[Record]) -> Vec<Vec<String>> {
    records.iter().map(|r| r.iter().map(|f| f.text.clone()).collect()).collect()
}

fn as_ms(nanos: u128) -> f64 {
    nanos as f64 / 1_000_000.0
}

type SortFn = fn(&mut Vec<Record>, usize) -> u128;

fn all_sorts() -> Vec<(&'static str, SortFn)> {
    vec![
        ("standard", standardsort::sort as SortFn),
        ("merge", mergesort::sort),
        ("quick", quicksort::sort),
        ("bubble", bubblesort::sort),
        ("insertion", insertionsort::sort),
    ]
}

#[test]
fn sorts_by_given_column() {
    let mut data = table(&[&["John", "Doe", "25"], &["Alice", "Smith", "22"], &["Bob", "Brown", "23"]]);
    bubblesort::sort(&mut data, 2);
    assert_eq!(data[0].get(2).unwrap().text, "22");
}

#[test]
fn does_nothing_on_empty_slice() {
    let mut empty: Vec<Record> = Vec::new();
    let duration = bubblesort::sort(&mut empty, 0);
    assert!((0.0..=1.0).contains(&as_ms(duration)));
}

#[test]
fn sorts_small_vec_correctly() {
    let mut data = table(&[&["c", "1"], &["a", "3"], &["b", "2"]]);
    insertionsort::sort(&mut data, 1);
    assert_eq!(column(&data, 1), vec!["1", "2", "3"]);
}

#[test]
fn insertionsort_leaves_empty_slice_unchanged() {
    let mut empty: Vec<Record> = Vec::new();
    let duration = insertionsort::sort(&mut empty, 0);
    assert!((0.0..=1.0).contains(&as_ms(duration)));
}

#[test]
fn sorts_records_correctly() {
    let mut data = table(&[&["Banana", "3"], &["Apple", "1"], &["Cherry", "2"]]);
    mergesort::sort(&mut data, 1);
    assert_eq!(column(&data, 1), vec!["1", "2", "3"]);
}

#[test]
fn handles_single_element() {
    let mut data = table(&[&["Single", "0"]]);
    mergesort::sort(&mut data, 0);
    assert_eq!(data.len(), 1);
    assert_eq!(data[0][0].text, "Single");
}

#[test]
fn handles_empty_slice() {
    let mut data: Vec<Record> = vec![];
    mergesort::sort(&mut data, 0);
    assert!(data.is_empty());
}

#[test]
fn quicksort_sorts_records_by_numeric_column() {
    let mut data = table(&[&["Delta", "40"], &["Alpha", "10"], &["Charlie", "30"], &["Beta", "20"]]);
    quicksort::sort(&mut data, 1);
    assert_eq!(column(&data, 1), vec!["10", "20", "30", "40"]);
}

#[test]
fn quicksort_handles_single_record() {
    let mut data = table(&[&["Only", "999"]]);
    quicksort::sort(&mut data, 0);
    assert_eq!(data[0][0].text, "Only");
    assert_eq!(data[0][1].text, "999");
}

#[test]
fn quicksort_leaves_empty_slice_unchanged() {
    let mut empty: Vec<Record> = Vec::new();
    let duration = quicksort::sort(&mut empty, 0);
    assert!((0.0..=1.0).contains(&as_ms(duration)));
}

#[test]
fn sorts_records_by_string_column() {
    let mut data = table(&[&["zebra", "9"], &["apple", "2"], &["banana", "5"]]);
    standardsort::sort(&mut data, 0);
    assert_eq!(column(&data, 0), vec!["apple", "banana", "zebra"]);
}

#[test]
fn standardsort_sorts_records_by_numeric_column() {
    let mut data = table(&[&["ItemA", "100"], &["ItemB", "20"], &["ItemC", "3"]]);
    standardsort::sort(&mut data, 1);
    assert_eq!(column(&data, 1), vec!["3", "20", "100"]);
}

#[test]
fn standardsort_handles_single_record() {
    let mut data = table(&[&["Only", "999"]]);
    standardsort::sort(&mut data, 0);
    assert_eq!(data[0][0].text, "Only");
    assert_eq!(data[0][1].text, "999");
}

#[test]
fn standardsort_leaves_empty_slice_unchanged() {
    let mut empty: Vec<Record> = Vec::new();
    let duration = standardsort::sort(&mut empty, 0);
    assert!((0.0..=1.0).contains(&as_ms(duration)));
}

#[test]
fn every_algorithm_sorts_numbers_numerically() {
    for (name, sort) in all_sorts() {
        let mut data = table(&[&["10"], &["9"], &["2"]]);
        sort(&mut data, 0);
        assert_eq!(column(&data, 0), vec!["2", "9", "10"], "{}", name);
    }
}

#[test]
fn every_algorithm_sorts_text_lexicographically() {
    for (name, sort) in all_sorts() {
        let mut data = table(&[&["b"], &["a"], &["c"]]);
        sort(&mut data, 0);
        assert_eq!(column(&data, 0), vec!["a", "b", "c"], "{}", name);
    }
}

#[test]
fn mixed_column_falls_back_to_text_order() {
    for (name, sort) in all_sorts() {
        let mut data = table(&[&["a"], &["10"]]);
        sort(&mut data, 0);
        assert_eq!(column(&data, 0), vec!["10", "a"], "{}", name);
    }
}

#[test]
fn every_algorithm_returns_at_once_on_empty_input() {
    for (name, sort) in all_sorts() {
        let mut empty: Vec<Record> = Vec::new();
        let duration = sort(&mut empty, 3);
        assert!(empty.is_empty(), "{}", name);
        assert!(as_ms(duration) >= 0.0, "{}", name);
    }
}

#[test]
fn every_algorithm_gives_a_sorted_permutation() {
    let rows: &[&[&str]] = &[
        &["e", "3.5"], &["a", "-2"], &["d", "10"], &["b", "3.5"], &["c", "0"], &["f", "-0"], &["g", "1e3"],
        &["h", "7"],
    ];
    for (name, sort) in all_sorts() {
        let mut data = table(rows);
        sort(&mut data, 1);
        let keys: Vec<f64> = column(&data, 1).iter().map(|t| t.parse::<f64>().unwrap()).collect();
        assert!(keys.windows(2).all(|w| w[0] <= w[1]), "{}: {:?}", name, keys);
        let mut got = texts(&data);
        let mut want = texts(&table(rows));
        got.sort();
        want.sort();
        assert_eq!(got, want, "{}", name);
    }
}

#[test]
fn resorting_sorted_input_changes_nothing() {
    let rows: &[&[&str]] = &[&["x", "1"], &["y", "1"], &["z", "2"], &["w", "3"]];
    for (name, sort) in all_sorts().into_iter().filter(|(n, _)| *n != "quick") {
        let mut data = table(rows);
        sort(&mut data, 1);
        let once = texts(&data);
        sort(&mut data, 1);
        assert_eq!(texts(&data), once, "{}", name);
    }
    let distinct: &[&[&str]] = &[&["x", "1"], &["y", "2"], &["z", "3"], &["w", "4"], &["v", "5"]];
    let mut data = table(distinct);
    quicksort::sort(&mut data, 1);
    let once = texts(&data);
    quicksort::sort(&mut data, 1);
    assert_eq!(texts(&data), once);
}

#[test]
fn all_algorithms_agree_on_the_order_of_keys() {
    let rows: &[&[&str]] = &[
        &["k", "pear"], &["l", "apple"], &["m", "fig"], &["n", "apple"], &["o", "kiwi"], &["p", "fig"],
    ];
    let mut results = Vec::new();
    for (_, sort) in all_sorts() {
        let mut data = table(rows);
        sort(&mut data, 1);
        results.push(column(&data, 1));
    }
    for r in &results {
        assert_eq!(r, &results[0]);
    }
    assert_eq!(results[0], vec!["apple", "apple", "fig", "fig", "kiwi", "pear"]);
}

#[test]
fn missing_fields_compare_as_empty_text() {
    let mut data = vec![record(&["b", "x"]), record(&["a"]), record(&["c", "y"])];
    mergesort::sort(&mut data, 1);
    assert_eq!(data[0][0].text, "a");
    assert_eq!(column(&data, 1), vec!["x", "y"]);
}

#[test]
fn comparator_orders_numbers_by_value() {
    let compare = get_comparator(0);
    assert_eq!(compare.compare(&record(&["-5"]), &record(&["3"])), Ordering::Less);
    assert_eq!(compare.compare(&record(&["2.5"]), &record(&["2.50"])), Ordering::Equal);
    assert_eq!(compare.compare(&record(&["-0"]), &record(&["0"])), Ordering::Equal);
    assert_eq!(compare.compare(&record(&["100"]), &record(&["20"])), Ordering::Greater);
    assert_eq!(compare.compare(&record(&["-1"]), &record(&["-2"])), Ordering::Greater);
    assert_eq!(compare.compare(&record(&["inf"]), &record(&["1e308"])), Ordering::Greater);
}

#[test]
fn comparator_treats_nan_as_equal_to_numbers() {
    let compare = get_comparator(0);
    assert_eq!(compare.compare(&record(&["NaN"]), &record(&["3"])), Ordering::Equal);
    assert_eq!(compare.compare(&record(&["3"]), &record(&["NaN"])), Ordering::Equal);
}

#[test]
fn comparator_orders_text_by_bytes() {
    let compare = get_comparator(1);
    assert_eq!(compare.compare(&record(&["1", "B"]), &record(&["0", "a"])), Ordering::Less);
    assert_eq!(compare.compare(&record(&["1", "ab"]), &record(&["0", "a"])), Ordering::Greater);
    assert_eq!(compare.compare(&record(&["1", "10"]), &record(&["0", "a"])), Ordering::Less);
    assert_eq!(compare.compare(&record(&["1"]), &record(&["0", "a"])), Ordering::Less);
    assert_eq!(compare.compare(&record(&["1"]), &record(&["0"])), Ordering::Equal);
}

#[test]
fn greater_matches_compare() {
    let compare = get_comparator(0);
    assert!(compare.greater(&record(&["b"]), &record(&["a"])));
    assert!(!compare.greater(&record(&["a"]), &record(&["a"])));
    assert!(!compare.greater(&record(&["1"]), &record(&["2"])));
}

#[test]
fn partition_places_the_middle_record() {
    let compare = get_comparator(0);
    let mut data = table(&[&["5"], &["1"], &["4"], &["2"], &["3"]]);
    let p = quicksort::partition(&mut data, 0, 5, &compare);
    assert_eq!(p, 3);
    assert_eq!(data[3][0].text, "4");
    assert!(column(&data, 0)[..3].iter().all(|t| t.parse::<f64>().unwrap() < 4.0));
    assert_eq!(data[4][0].text, "5");
}

#[test]
fn quick_sort_touches_only_its_range() {
    let compare = get_comparator(0);
    let mut data = table(&[&["9"], &["3"], &["1"], &["2"], &["0"]]);
    quicksort::quick_sort(&mut data, 1, 4, &compare);
    assert_eq!(column(&data, 0), vec!["9", "1", "2", "3", "0"]);
}

#[test]
fn quicksort_may_reorder_equal_keys() {
    let mut data = table(&[&["1", "a"], &["1", "b"]]);
    quicksort::sort(&mut data, 0);
    assert_eq!(column(&data, 1), vec!["b", "a"]);
    let mut data = table(&[&["1", "a"], &["1", "b"]]);
    mergesort::sort(&mut data, 0);
    assert_eq!(column(&data, 1), vec!["a", "b"]);
}

#[test]
fn partition_example_puts_the_middle_record_in_place() {
    let compare = get_comparator(1);
    let mut data = table(&[&["Delta", "40"], &["Alpha", "10"], &["Charlie", "30"], &["Beta", "20"]]);
    let p = quicksort::partition(&mut data, 0, 4, &compare);
    assert_eq!(p, 2);
    assert_eq!(column(&data, 0), vec!["Alpha", "Beta", "Charlie", "Delta"]);
}

#[test]
fn export_sort_handles_any_column() {
    let mut data = table(&[&["10"], &["a"], &["9"], &["b"]]);
    standardsort::sort_any_column(&mut data, 0);
    let mut keys = column(&data, 0);
    keys.sort();
    assert_eq!(keys, vec!["10", "9", "a", "b"]);
    let mut numbers = table(&[&["10"], &["9"], &["2"]]);
    standardsort::sort_any_column(&mut numbers, 0);
    assert_eq!(column(&numbers, 0), vec!["2", "9", "10"]);
}

#[test]
fn merge_sort_keeps_equal_keys_in_order() {
    let mut data = table(&[&["z", "2"], &["x", "1"], &["y", "1"], &["w", "2"], &["v", "1"]]);
    mergesort::sort(&mut data, 1);
    assert_eq!(column(&data, 0), vec!["x", "y", "v", "z", "w"]);
}
