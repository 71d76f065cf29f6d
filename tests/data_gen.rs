use csv_sort_bench::algorithms::compare_students;
use csv_sort_bench::data_gen::{generate_students, save_to_csv, student_rows};
use csv_sort_bench::models::{Student, StudentField};
use std::cmp::Ordering;

fn student(first: &str, last: &str, age: u32, act: u32, sat: u32) -> Student {
    Student { first_name: first.to_string(), last_name: last.to_string(), age, act_score: act, sat_score: sat }
}

#[test]
fn generated_students_stay_in_range() {
    let students = generate_students(200);
    assert_eq!(students.len(), 200);
    for s in &students {
        assert!((17..25).contains(&s.age));
        assert!((1..37).contains(&s.act_score));
        assert!((400..1601).contains(&s.sat_score));
        assert!(!s.first_name.is_empty() && !s.last_name.is_empty());
    }
}

#[test]
fn no_students_for_zero_count() {
    assert!(generate_students(0).is_empty());
}

#[test]
fn students_compare_by_the_chosen_field() {
    let a = student("Zoe", "Adams", 20, 30, 1200);
    let b = student("Amy", "Baker", 19, 30, 1500);
    assert_eq!(compare_students(&a, &b, StudentField::FirstName), Ordering::Greater);
    assert_eq!(compare_students(&a, &b, StudentField::LastName), Ordering::Less);
    assert_eq!(compare_students(&a, &b, StudentField::Age), Ordering::Greater);
    assert_eq!(compare_students(&a, &b, StudentField::ActScore), Ordering::Equal);
    assert_eq!(compare_students(&a, &b, StudentField::SatScore), Ordering::Less);
}

#[test]
fn student_table_writes_numbers_in_decimal() {
    let students = vec![student("Ann", "Lee", 18, 7, 1010)];
    let rows = student_rows(&students);
    assert_eq!(rows[0], vec!["first_name", "last_name", "age", "act_score", "sat_score"]);
    assert_eq!(rows[1], vec!["Ann", "Lee", "18", "7", "1010"]);
    let text = String::from_utf8(save_to_csv(&students).unwrap()).unwrap();
    assert_eq!(text, "first_name,last_name,age,act_score,sat_score\nAnn,Lee,18,7,1010\n");
}

#[test]
fn no_students_write_no_rows() {
    assert!(student_rows(&Vec::new()).is_empty());
    assert!(save_to_csv(&Vec::new()).unwrap().is_empty());
}
