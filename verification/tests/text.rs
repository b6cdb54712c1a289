use voice_gender::text::{around_number, decimal_text};

#[test]
fn numbers_are_written_in_decimal() {
    assert_eq!(decimal_text(0), "0");
    assert_eq!(decimal_text(9), "9");
    assert_eq!(decimal_text(10), "10");
    assert_eq!(decimal_text(16_000), "16000");
    assert_eq!(decimal_text(usize::MAX), usize::MAX.to_string());
}

#[test]
fn numbers_stand_between_texts() {
    assert_eq!(around_number("layers.", 11, ".attention"), "layers.11.attention");
    assert_eq!(around_number("", 0, ""), "0");
}
