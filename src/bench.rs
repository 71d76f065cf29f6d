//! Timing each algorithm on its own copy of a dataset.
use crate::algorithms::{
    bubblesort, column_is_uniform, column_uniform, field_number, insertionsort, mergesort, quicksort,
    sorted_permutation, standardsort,
};
use crate::models::{Field, Record};
use crate::order::is_nan;
use std::time::Instant;
use vstd::prelude::*;
use vstd::string::StringExecFns;

verus! {

/// Above this many rows the quadratic algorithms are skipped by default.
pub const DEFAULT_ROW_LIMIT: usize = 1000;

/// The five algorithms, in the order in which a benchmark reports them.
#[derive(Clone, Copy, PartialEq, Eq, Structural)]
pub enum Algorithm {
    Standard,
    Merge,
    Quick,
    Bubble,
    Insertion,
}

/// The algorithm reported at place `i` of a benchmark.
pub open spec fn benchmark_algorithm(i: int) -> Algorithm {
    if i == 0 {
        Algorithm::Standard
    } else if i == 1 {
        Algorithm::Merge
    } else if i == 2 {
        Algorithm::Quick
    } else if i == 3 {
        Algorithm::Bubble
    } else {
        Algorithm::Insertion
    }
}

impl Algorithm {
    /// The name under which the algorithm is reported.
    pub open spec fn spec_name(self) -> Seq<char> {
        match self {
            Algorithm::Standard => "Std Sort"@,
            Algorithm::Merge => "Merge Sort"@,
            Algorithm::Quick => "Quick Sort"@,
            Algorithm::Bubble => "Bubble Sort"@,
            Algorithm::Insertion => "Insertion Sort"@,
        }
    }

    /// Takes time quadratic in the number of rows.
    pub open spec fn is_quadratic(self) -> bool {
        self == Algorithm::Bubble || self == Algorithm::Insertion
    }

    /// The name shown for the algorithm.
    pub fn name(&self) -> (r: String)
        ensures
            r@ == self.spec_name(),
    {
        match self {
            Algorithm::Standard => String::from_str("Std Sort"),
            Algorithm::Merge => String::from_str("Merge Sort"),
            Algorithm::Quick => String::from_str("Quick Sort"),
            Algorithm::Bubble => String::from_str("Bubble Sort"),
            Algorithm::Insertion => String::from_str("Insertion Sort"),
        }
    }

    /// The library sort is run only on a column whose order it can be sure of.
    pub open spec fn can_run(self, records: Seq<Record>, column: int) -> bool {
        self != Algorithm::Standard || column_uniform(records, column)
    }

    /// Sorts `records` by the field at `column_index` with this algorithm, and
    /// returns the nanoseconds the sort took. The library sort, which may panic
    /// on an inconsistent order, is not run on a column that is not uniform:
    /// then `records` stays as it is and the result is `None`.
    pub fn run(&self, records: &mut Vec<Record>, column_index: usize) -> (elapsed: Option<u128>)
        ensures
            elapsed is Some <==> self.can_run(old(records)@, column_index as int),
            elapsed is Some ==> sorted_permutation(old(records)@, final(records)@, column_index as int),
            elapsed is None ==> final(records)@ == old(records)@,
    {
        match self {
            Algorithm::Standard => {
                if column_is_uniform(records, column_index) {
                    Some(standardsort::sort(records, column_index))
                } else {
                    None
                }
            },
            Algorithm::Merge => Some(mergesort::sort(records, column_index)),
            Algorithm::Quick => Some(quicksort::sort(records, column_index)),
            Algorithm::Bubble => Some(bubblesort::sort(records, column_index)),
            Algorithm::Insertion => Some(insertionsort::sort(records, column_index)),
        }
    }
}

/// The time one algorithm took, or a zero placeholder when it was skipped.
pub struct BenchResult {
    pub name: String,
    pub nanos: u128,
    pub skipped: bool,
}

/// A field-by-field copy of a record.
pub fn copy_record(r: &Record) -> (c: Record)
    ensures
        c@ == r@,
{
    let mut c: Record = Vec::new();
    let mut i: usize = 0;
    while i < r.len()
        invariant
            i <= r.len(),
            c@ == r@.subrange(0, i as int),
        decreases r.len() - i,
    {
        c.push(Field { text: r[i].text.clone(), number: r[i].number });
        assert(r@.subrange(0, i + 1) =~= r@.subrange(0, i as int).push(r@[i as int]));
        i += 1;
    }
    assert(r@.subrange(0, i as int) =~= r@);
    c
}

/// A copy of a dataset, each record holding the same fields.
pub fn copy_records(records: &Vec<Record>) -> (c: Vec<Record>)
    ensures
        c@.len() == records@.len(),
        forall|k: int| 0 <= k < records@.len() ==> (#[trigger] c@[k])@ == records@[k]@,
{
    let mut c: Vec<Record> = Vec::new();
    let mut i: usize = 0;
    while i < records.len()
        invariant
            i <= records.len(),
            c@.len() == i,
            forall|k: int| 0 <= k < i ==> (#[trigger] c@[k])@ == records@[k]@,
        decreases records.len() - i,
    {
        c.push(copy_record(&records[i]));
        i += 1;
    }
    c
}

/// Runs all five algorithms on separate copies of `records`, ordering by the
/// field at `column_index`, and reports them in the order Standard, Merge,
/// Quick, Bubble, Insertion. With more than `row_limit` rows, Bubble and
/// Insertion are not run and report a zero-time placeholder marked skipped;
/// so is the library sort on a column that is not uniform.
/// `records` itself is left untouched.
pub fn run_benchmarks(records: &Vec<Record>, column_index: usize, row_limit: usize) -> (results: Vec<BenchResult>)
    ensures
        results@.len() == 5,
        forall|i: int| 0 <= i < 5 ==> (#[trigger] results@[i]).name@ == benchmark_algorithm(i).spec_name(),
        forall|i: int|
            0 <= i < 5 ==> (#[trigger] results@[i]).skipped == ((benchmark_algorithm(i).is_quadratic()
                && records@.len() > row_limit) || !benchmark_algorithm(i).can_run(records@, column_index as int)),
        forall|i: int| 0 <= i < 5 ==> (#[trigger] results@[i]).skipped ==> results@[i].nanos == 0,
{
    let plan: Vec<Algorithm> = vec![
        Algorithm::Standard,
        Algorithm::Merge,
        Algorithm::Quick,
        Algorithm::Bubble,
        Algorithm::Insertion,
    ];
    let skip_slow = records.len() > row_limit;
    let mut results: Vec<BenchResult> = Vec::new();
    let mut i: usize = 0;
    while i < plan.len()
        invariant
            i <= plan.len(),
            plan@.len() == 5,
            forall|k: int| 0 <= k < 5 ==> plan@[k] == benchmark_algorithm(k),
            skip_slow == (records@.len() > row_limit),
            results@.len() == i,
            forall|k: int| 0 <= k < i ==> (#[trigger] results@[k]).name@ == benchmark_algorithm(k).spec_name(),
            forall|k: int|
                0 <= k < i ==> (#[trigger] results@[k]).skipped == ((benchmark_algorithm(k).is_quadratic()
                    && skip_slow) || !benchmark_algorithm(k).can_run(records@, column_index as int)),
            forall|k: int| 0 <= k < i ==> (#[trigger] results@[k]).skipped ==> results@[k].nanos == 0,
        decreases plan.len() - i,
    {
        let algorithm = plan[i];
        let slow = match algorithm {
            Algorithm::Bubble | Algorithm::Insertion => true,
            _ => false,
        };
        if slow && skip_slow {
            results.push(BenchResult { name: algorithm.name(), nanos: 0, skipped: true });
        } else {
            let mut data = copy_records(records);
            proof {
                let col = column_index as int;
                assert forall|k: int| 0 <= k < data@.len() implies #[trigger] field_number(data@[k], col)
                    == field_number(records@[k], col) by {
                    assert(data@[k]@ == records@[k]@);
                }
                assert(data@.len() == records@.len());
                if column_uniform(records@, col) {
                    assert(column_uniform(data@, col));
                }
                if column_uniform(data@, col) {
                    if forall|k: int| 0 <= k < data@.len() ==> #[trigger] field_number(data@[k], col) is None {
                        assert forall|k: int| 0 <= k < records@.len() implies #[trigger] field_number(
                            records@[k],
                            col,
                        ) is None by {
                            assert(field_number(data@[k], col) == field_number(records@[k], col));
                        }
                    } else {
                        assert forall|k: int| 0 <= k < records@.len() implies {
                            let n = #[trigger] field_number(records@[k], col);
                            n is Some && !is_nan(n->0)
                        } by {
                            assert(field_number(data@[k], col) == field_number(records@[k], col));
                        }
                    }
                }
            }
            match algorithm.run(&mut data, column_index) {
                Some(nanos) => results.push(BenchResult { name: algorithm.name(), nanos, skipped: false }),
                None => results.push(BenchResult { name: algorithm.name(), nanos: 0, skipped: true }),
            }
        }
        i += 1;
    }
    results
}

/// A reading of the monotonic clock, carried through opaquely.
#[verifier::external_type_specification]
#[verifier::external_body]
pub struct ExInstant(Instant);

/// Relies on `std::time::Instant::now`: a reading of the monotonic clock.
#[verifier::external_body]
pub(crate) fn start_clock() -> Instant {
    Instant::now()
}

/// Relies on `Instant::elapsed`, read out in whole nanoseconds: the time since `start`.
#[verifier::external_body]
pub(crate) fn nanos_since(start: &Instant) -> u128 {
    start.elapsed().as_nanos()
}

} // verus!
