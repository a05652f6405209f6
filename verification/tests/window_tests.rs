use recipe_stats::record::CustomPostcodeDeliveryTime;
use recipe_stats::window::{parse_hour, parse_hours, DeliveryPattern};

#[test]
fn parse_hour_reads_one_or_two_digits() {
    assert_eq!(parse_hour("0"), Some(0));
    assert_eq!(parse_hour("9"), Some(9));
    assert_eq!(parse_hour("10"), Some(10));
    assert_eq!(parse_hour("07"), Some(7));
    assert_eq!(parse_hour("99"), Some(99));
}

#[test]
fn parse_hour_refuses_anything_else() {
    assert_eq!(parse_hour(""), None);
    assert_eq!(parse_hour("123"), None);
    assert_eq!(parse_hour("1a"), None);
    assert_eq!(parse_hour("a1"), None);
    assert_eq!(parse_hour("-1"), None);
    assert_eq!(parse_hour("٣"), None);
}

#[test]
fn parse_hours_needs_both() {
    assert_eq!(parse_hours("10", "3"), Some((10, 3)));
    assert_eq!(parse_hours("", "3"), None);
    assert_eq!(parse_hours("10", "x"), None);
}

#[test]
fn pattern_compiles() {
    assert!(DeliveryPattern::new().is_some());
}

#[test]
fn find_hours_reads_the_window() {
    let pattern = DeliveryPattern::new().unwrap();
    assert_eq!(pattern.find_hours("10AM - 3PM"), Some((10, 3)));
    assert_eq!(pattern.find_hours("9AM - 2PM"), Some((9, 2)));
    assert_eq!(pattern.find_hours("Wednesday 1AM - 7PM"), Some((1, 7)));
    assert_eq!(pattern.find_hours("Friday 11AM - 12PM, leave at the door"), Some((11, 12)));
}

#[test]
fn find_hours_takes_the_first_match() {
    let pattern = DeliveryPattern::new().unwrap();
    assert_eq!(pattern.find_hours("8AM - 1PM or 10AM - 3PM"), Some((8, 1)));
    assert_eq!(pattern.find_hours("110AM - 3PM"), Some((10, 3)));
    assert_eq!(pattern.find_hours("AM - PM 10AM - 3PM"), Some((10, 3)));
}

#[test]
fn find_hours_without_a_window() {
    let pattern = DeliveryPattern::new().unwrap();
    assert_eq!(pattern.find_hours(""), None);
    assert_eq!(pattern.find_hours("tomorrow"), None);
    assert_eq!(pattern.find_hours("10AM-3PM"), None);
    assert_eq!(pattern.find_hours("10AM\t-\t3PM"), None);
    assert_eq!(pattern.find_hours("AM - PM"), None);
    assert_eq!(pattern.find_hours("10am - 3pm"), None);
    assert_eq!(pattern.find_hours("10AM - PM"), None);
}

#[test]
fn admits_compares_both_bounds() {
    let window = CustomPostcodeDeliveryTime { postcode: "10120".to_string(), from: 10, to: 3 };
    assert!(window.admits(Some((10, 3))));
    assert!(window.admits(Some((11, 2))));
    assert!(!window.admits(Some((9, 2))));
    assert!(!window.admits(Some((10, 4))));
    assert!(!window.admits(None));
}
