use computerhardwaredb::name::ArticleName;
use computerhardwaredb::tagset::TagSet;
use computerhardwaredb::types::CPUSocket;
use computerhardwaredb::unsure::Unsure;
use computerhardwaredb::value::ReadPolicy;
use computerhardwaredb::value::Value;
use computerhardwaredb::value::ValueError;

#[test]
fn missing_value_fails_with_missing_error() {
    let v: Value<i32> = Value::Missing;
    assert_eq!(
        v.value(ReadPolicy::Recover),
        Err(ValueError::MissingValueError)
    );
}

#[test]
fn not_applicable_fails_with_its_own_error() {
    let v: Value<i32> = Value::NotApplicable;
    assert_eq!(
        v.value(ReadPolicy::Recover),
        Err(ValueError::NotApplicableError)
    );
}

#[test]
fn present_value_is_returned() {
    let v = Value::Present(5);
    assert_eq!(v.value(ReadPolicy::Recover), Ok(&5));
    assert_eq!(v.value(ReadPolicy::Abort), Ok(&5));
}

#[test]
fn doubted_value_is_returned_on_every_read() {
    let v = Value::PresentWithDoubt(5, "note".to_string());
    // each read returns the value and emits the diagnostic naming "note"
    assert_eq!(v.value(ReadPolicy::Recover), Ok(&5));
    assert_eq!(v.value(ReadPolicy::Recover), Ok(&5));
}

#[test]
fn lifting_makes_a_present_value() {
    assert_eq!(Value::present(7).value(ReadPolicy::Recover), Ok(&7));
}

#[test]
fn error_messages() {
    assert_eq!(ValueError::MissingValueError.message(), "value missing");
    assert_eq!(
        ValueError::NotApplicableError.message(),
        "value not applicable"
    );
}

#[test]
fn unsure_keeps_its_fields() {
    let u = Unsure::new(Some(3), "guessed".to_string());
    assert_eq!(u.value, Some(3));
    assert_eq!(u.comment, "guessed");
    let n: Unsure<i32> = Unsure::none();
    assert_eq!(n.value, None);
    assert_eq!(n.comment, "");
}

#[test]
fn article_name_strips_trademark_signs() {
    let n = ArticleName::new("AMD Ryzen\u{2122} 9 5950X");
    assert_eq!(n.as_str(), "AMD Ryzen 9 5950X");
    assert_eq!(n, ArticleName::new("AMD Ryzen 9 5950X"));
    let plain = ArticleName::new("AMD EPYC 7502P");
    assert_eq!(plain.as_str(), "AMD EPYC 7502P");
}

#[test]
fn tagset_of_distinct_tags_builds() {
    let s = TagSet::new(vec![CPUSocket::SP3, CPUSocket::SP5]).unwrap();
    assert_eq!(s.len(), 2);
    assert!(s.contains(&CPUSocket::SP3));
    assert!(!s.contains(&CPUSocket::AM4));
}

#[test]
fn tagset_rejects_a_repeated_tag() {
    let e = TagSet::new(vec![1u64, 2, 1]).unwrap_err();
    assert_eq!(e.first, 0);
    assert_eq!(e.second, 2);
}
