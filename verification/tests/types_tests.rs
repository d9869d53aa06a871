use computerhardwaredb::types::Architecture;
use computerhardwaredb::types::Brand;
use computerhardwaredb::types::CPUSocket;
use computerhardwaredb::types::Price;
use computerhardwaredb::types::ProductLine;
use computerhardwaredb::types::ProductLineError;
use computerhardwaredb::types::Usage;
use computerhardwaredb::value::ReadPolicy;
use computerhardwaredb::value::Value;

#[test]
fn socket_names() {
    assert_eq!(CPUSocket::from_str("AM4"), Some(CPUSocket::AM4));
    assert_eq!(CPUSocket::from_str("sWRX8"), Some(CPUSocket::SWRX8));
    assert_eq!(CPUSocket::from_str("sTR5"), Some(CPUSocket::STR5));
    assert_eq!(CPUSocket::from_str("LGA1700"), None);
}

#[test]
fn architecture_names() {
    assert_eq!(Architecture::from_str("Zen 4c"), Some(Architecture::Zen4c));
    assert_eq!(
        Architecture::from_str("AMD \"Zen 3\" Core Architecture"),
        Some(Architecture::Zen3)
    );
    assert_eq!(Architecture::from_str("Zen"), None);
}

#[test]
fn usage_names() {
    assert_eq!(Usage::from_str("Desktop"), Some(Usage::Desktop));
    assert_eq!(Usage::from_str("desktop"), None);
}

#[test]
fn brand_parts() {
    assert_eq!(Brand::from_parts("Ryzen", 9), Some(Brand::Ryzen9));
    assert_eq!(Brand::from_parts("Ryzen", 7), None);
}

#[test]
fn product_line_known_names() {
    let line = ProductLine::from_str("AMD EPYC\u{2122} 7003 Series").unwrap();
    assert_eq!(line.0, Brand::EPYC7003);
    assert_eq!(line.1.value(ReadPolicy::Recover), Ok(&Usage::Server));
    let bare = ProductLine::from_str("AMD Ryzen\u{2122} 9 Processors").unwrap();
    assert_eq!(bare.0, Brand::Ryzen9);
    assert!(matches!(bare.1, Value::Missing));
}

#[test]
fn product_line_general_shape() {
    let line = ProductLine::from_str("AMD Ryzen\u{2122} 9 Desktop Processors").unwrap();
    assert_eq!(line.0, Brand::Ryzen9);
    assert_eq!(line.1.value(ReadPolicy::Recover), Ok(&Usage::Desktop));
}

#[test]
fn product_line_errors() {
    assert_eq!(
        ProductLine::from_str("AMD Ryzen 9").unwrap_err(),
        ProductLineError::BadShape
    );
    assert_eq!(
        ProductLine::from_str("Intel Core 9 Desktop Processors").unwrap_err(),
        ProductLineError::NotAmd
    );
    assert_eq!(
        ProductLine::from_str("AMD Ryzen 9 Desktop Chips").unwrap_err(),
        ProductLineError::NotProcessors
    );
    assert_eq!(
        ProductLine::from_str("AMD Ryzen nine Desktop Processors").unwrap_err(),
        ProductLineError::BadGeneration
    );
    assert_eq!(
        ProductLine::from_str("AMD Core 9 Desktop Processors").unwrap_err(),
        ProductLineError::UnknownBrand
    );
    assert_eq!(
        ProductLine::from_str("AMD Ryzen 9 Gaming Processors").unwrap_err(),
        ProductLineError::UnknownUsage
    );
}

#[test]
fn price_in_chf() {
    assert_eq!(Price::CHF(997).chf(), 997);
}
