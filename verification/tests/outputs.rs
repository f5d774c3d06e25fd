use tree_shake::output::{OutputContent, RawVc, SharedError};
use tree_shake::text::decimal_string;

#[test]
fn link_is_written_with_its_address() {
    assert_eq!(OutputContent::Link(RawVc::TaskOutput(7)).to_string(), "link TaskOutput(7)");
    assert_eq!(OutputContent::Link(RawVc::TaskCell(12, 0)).to_string(), "link TaskCell(12, 0)");
}

#[test]
fn error_is_written_with_its_message() {
    let content = OutputContent::Error(SharedError { message: "disk full".to_string() });
    assert_eq!(content.to_string(), "error disk full");
    assert_eq!(content.clone(), content);
}

#[test]
fn panic_is_written_with_its_message_if_any() {
    assert_eq!(OutputContent::Panic(Some("index out of bounds".to_string())).to_string(), "panic index out of bounds");
    assert_eq!(OutputContent::Panic(None).to_string(), "panic");
    assert_eq!(OutputContent::Panic(Some(String::new())).to_string(), "panic ");
}

#[test]
fn addresses_as_text() {
    assert_eq!(RawVc::TaskOutput(0).describe(), "TaskOutput(0)");
    assert_eq!(RawVc::TaskCell(4294967295, 10).describe(), "TaskCell(4294967295, 10)");
}

#[test]
fn decimal_text() {
    assert_eq!(decimal_string(0), "0");
    assert_eq!(decimal_string(9), "9");
    assert_eq!(decimal_string(10), "10");
    assert_eq!(decimal_string(1234567890), "1234567890");
    assert_eq!(decimal_string(u32::MAX), "4294967295");
}
