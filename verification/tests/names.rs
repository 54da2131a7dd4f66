use drm::control::connector::Interface;
use nuonuo::text::{
    contains, decimal_text, is_vendor_driver, join_name, names_vendor, output_name,
};

#[test]
fn decimal_digits() {
    assert_eq!(decimal_text(0), "0");
    assert_eq!(decimal_text(9), "9");
    assert_eq!(decimal_text(10), "10");
    assert_eq!(decimal_text(1234567890), "1234567890");
    assert_eq!(decimal_text(u32::MAX), "4294967295");
}

#[test]
fn outputs_are_named_by_interface_and_number() {
    assert_eq!(output_name(11, 1), "HDMI-A-1");
    assert_eq!(output_name(14, 2), "eDP-2");
    assert_eq!(output_name(10, 10), "DP-10");
    assert_eq!(output_name(999, 1), "Unknown-1");
    assert_eq!(join_name("VGA", 3), "VGA-3");
}

#[test]
fn names_agree_with_the_interface_table() {
    for raw in 0..30u32 {
        let interface = Interface::from(raw);
        assert_eq!(output_name(raw, 7), format!("{}-7", interface.as_str()));
    }
}

#[test]
fn connectors_of_one_interface_have_different_names() {
    assert_ne!(output_name(10, 1), output_name(10, 11));
    assert_ne!(output_name(10, 1), output_name(10, 2));
}

#[test]
fn vendor_is_found_in_any_case() {
    assert!(is_vendor_driver("nvidia-drm", "something"));
    assert!(is_vendor_driver("drm", "NVIDIA DRM driver"));
    assert!(is_vendor_driver("NviDia", ""));
    assert!(!is_vendor_driver("i915", "Intel Graphics"));
    assert!(!is_vendor_driver("nvidi", "a"));
    assert!(!is_vendor_driver("", ""));
}

#[test]
fn vendor_is_looked_for_in_lower_case() {
    assert!(names_vendor("xnvidiax"));
    assert!(!names_vendor("NVIDIA"));
}

#[test]
fn parts_of_text() {
    assert!(contains("abc", ""));
    assert!(contains("", ""));
    assert!(contains("aab", "ab"));
    assert!(!contains("ab", "abc"));
    assert!(contains("\u{e4}\u{f6}\u{fc}", "\u{f6}"));
    assert!(!contains("abab", "ba "));
}
