use computerhardwaredb::collectsorted::on;
use computerhardwaredb::collectsorted::unsafe_cmp;
use computerhardwaredb::collectsorted::CollectSorted;
use computerhardwaredb::collectsorted::PartialOrdCmp;
use computerhardwaredb::collectsorted::RatioKey;
use std::cmp::Ordering;

#[test]
fn second_failure_propagates_and_nothing_is_sorted() {
    let entries: Vec<Result<f32, String>> =
        vec![Ok(3.0), Err("boom".to_string()), Ok(2.0)];
    assert_eq!(
        entries.try_collect_sorted_by(&PartialOrdCmp),
        Err("boom".to_string())
    );
}

#[test]
fn first_of_several_failures_wins() {
    let entries: Vec<Result<f32, String>> = vec![
        Ok(3.0),
        Err("first".to_string()),
        Err("second".to_string()),
    ];
    assert_eq!(
        entries.try_collect_sorted_by(&PartialOrdCmp),
        Err("first".to_string())
    );
}

#[test]
fn scores_sort_ascending() {
    let entries: Vec<Result<f32, String>> = vec![Ok(3.0), Ok(1.0), Ok(2.0)];
    assert_eq!(
        entries.try_collect_sorted_by(&PartialOrdCmp),
        Ok(vec![1.0, 2.0, 3.0])
    );
}

#[test]
fn integers_sort_ascending() {
    let entries: Vec<Result<u64, String>> = vec![Ok(5), Ok(1), Ok(4), Ok(1), Ok(3)];
    assert_eq!(
        entries.try_collect_sorted_by(&PartialOrdCmp),
        Ok(vec![1, 1, 3, 4, 5])
    );
}

#[test]
fn empty_input_collects_empty() {
    let entries: Vec<Result<f32, String>> = vec![];
    assert_eq!(entries.try_collect_sorted_by(&PartialOrdCmp), Ok(vec![]));
}

#[test]
fn scored_entries_rank_by_ratio() {
    let entries: Vec<Result<(String, u32, f32), String>> = vec![
        Ok(("pricey".to_string(), 10, 3.0)),
        Ok(("bargain".to_string(), 20, 1.0)),
        Ok(("middle".to_string(), 30, 2.0)),
    ];
    let cmp = on(RatioKey, PartialOrdCmp);
    let ranked = entries.try_collect_sorted_by(&cmp).unwrap();
    let names: Vec<&str> = ranked.iter().map(|t| t.0.as_str()).collect();
    assert_eq!(names, vec!["bargain", "middle", "pricey"]);
}

#[test]
fn unsafe_cmp_orders_comparable_values() {
    assert_eq!(unsafe_cmp(&1.0f32, &2.0f32), Ordering::Less);
    assert_eq!(unsafe_cmp(&2.0f32, &2.0f32), Ordering::Equal);
    assert_eq!(unsafe_cmp(&3.0f32, &2.0f32), Ordering::Greater);
}
