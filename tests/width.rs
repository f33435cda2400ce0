use bitparse::width::{adjust_width, choose_width, default_width, literal_width, width_from_letter};

#[test]
fn bit_counts_round_up_to_widths() {
    assert_eq!(adjust_width(0), 64);
    assert_eq!(adjust_width(1), 8);
    assert_eq!(adjust_width(8), 8);
    assert_eq!(adjust_width(9), 16);
    assert_eq!(adjust_width(24), 32);
    assert_eq!(adjust_width(33), 64);
    assert_eq!(adjust_width(1000), 64);
}

#[test]
fn value_picks_narrowest_width() {
    assert_eq!(default_width(0), 8);
    assert_eq!(default_width(255), 8);
    assert_eq!(default_width(256), 16);
    assert_eq!(default_width(65536), 32);
    assert_eq!(default_width(u32::MAX as u64 + 1), 64);
}

#[test]
fn letters_name_widths() {
    assert_eq!(width_from_letter("b"), Some(8));
    assert_eq!(width_from_letter("w"), Some(16));
    assert_eq!(width_from_letter("d"), Some(32));
    assert_eq!(width_from_letter("q"), Some(64));
    assert_eq!(width_from_letter("x"), None);
    assert_eq!(width_from_letter("bb"), None);
}

#[test]
fn digits_pick_width() {
    assert_eq!(literal_width("0xFF"), Some(8));
    assert_eq!(literal_width("0x1FF"), Some(16));
    assert_eq!(literal_width("0x12345"), Some(32));
    assert_eq!(literal_width("0x123456789"), Some(64));
    assert_eq!(literal_width("0b101"), Some(8));
    assert_eq!(literal_width("0b101010101"), Some(16));
    assert_eq!(literal_width("255"), None);
    assert_eq!(literal_width("0o17"), None);
}

#[test]
fn forced_width_wins() {
    assert_eq!(choose_width(Some(32), "0xFF", 255), 32);
    assert_eq!(choose_width(None, "0x00FF", 255), 16);
    assert_eq!(choose_width(None, "300", 300), 16);
}
