use tool_router::decimal::{parse_i32, NumberFault};
use tool_router::samples::{
    analyze_status, apply_operation, data_label, factorial, find_in_list, increment_all, longest,
    max, parse_number, process_strings, Color, Container, SimpleVec, Status, Vec2D,
};

#[test]
fn test_status_matching() {
    let status = Status::Warning { code: 404, message: "Not found".to_string() };
    assert!(status.get_message().is_some());
}

#[test]
fn test_generic_container() {
    let mut container = SimpleVec::new();
    container.add(42);
    container.add(24);

    assert_eq!(container.len(), 2);
    assert_eq!(container.get(0), Some(&42));
}

#[test]
fn status_messages() {
    assert_eq!(Status::Error("boom".to_string()).get_message(), Some("boom"));
    assert_eq!(
        Status::Warning { code: 1, message: "careful".to_string() }.get_message(),
        Some("careful")
    );
    assert_eq!(Status::Success.get_message(), None);
    assert_eq!(Status::Pending(3).get_message(), None);
    assert!(Status::Error(String::new()).is_error());
    assert!(!Status::Success.is_error());
    assert!(!Status::Pending(1).is_error());
    assert!(!Status::Warning { code: 1, message: String::new() }.is_error());
}

#[test]
fn container_edges() {
    let mut container: SimpleVec<u8> = SimpleVec::with_capacity(4);
    assert!(container.is_empty());
    assert_eq!(container.len(), 0);
    assert_eq!(container.get(0), None);
    container.add(7);
    assert!(!container.is_empty());
    assert_eq!(container.get(0), Some(&7));
    assert_eq!(container.get(1), None);
}

#[test]
fn pair_sum() {
    let a = Vec2D::new(1, 2);
    let b = Vec2D::new(10, 20);
    let c = a.add(&b);
    assert_eq!(c.x(), 11);
    assert_eq!(c.y(), 22);
}

#[test]
fn colour_mix() {
    assert_eq!(Color::red().mix(&Color::blue()), Color(127, 0, 127));
    assert_eq!(Color::green(), Color(0, 255, 0));
    assert_eq!(Color(10, 20, 31).mix(&Color(20, 40, 0)), Color(15, 30, 15));
}

#[test]
fn greater_and_longer() {
    assert_eq!(max(10, 20), 20);
    assert_eq!(max(20, 10), 20);
    assert_eq!(max(5, 5), 5);
    assert_eq!(longest("abc", "de"), "abc");
    assert_eq!(longest("ab", "de"), "de");
    assert_eq!(longest("", "x"), "x");
}

#[test]
fn closure_applied() {
    assert_eq!(apply_operation(21, |x| x * 2), 42);
}

#[test]
fn factorial_values() {
    assert_eq!(factorial(0), 1);
    assert_eq!(factorial(1), 1);
    assert_eq!(factorial(5), 120);
    assert_eq!(factorial(20), 2432902008176640000);
}

#[test]
fn find_first_match() {
    assert_eq!(find_in_list(&[3, 1, 4, 1, 5], &1), Some(1));
    assert_eq!(find_in_list(&[3, 1, 4], &9), None);
    let empty: [i32; 0] = [];
    assert_eq!(find_in_list(&empty, &9), None);
}

#[test]
fn parse_number_agrees_with_std() {
    let cases = [
        "", "+", "-", "0", "-0", "+0", "42", "-42", "+42", "007", "2147483647", "2147483648",
        "-2147483648", "-2147483649", "99999999999x", "214748364x", "2147483650x", "12a", "a12",
        " 1", "1 ", "--1", "+-1", "00000000000000000005", "-00000000002147483648", "١٢", "1_000",
        "4294967296", "-99999999999999999999",
    ];
    for case in cases {
        let expected: Result<i32, String> =
            case.parse::<i32>().map_err(|e| format!("Parse error: {}", e));
        assert_eq!(parse_number(case), expected);
    }
}

#[test]
fn parse_faults() {
    assert_eq!(parse_i32(b""), Err(NumberFault::Empty));
    assert_eq!(parse_i32(b"-"), Err(NumberFault::InvalidDigit));
    assert_eq!(parse_i32(b"1x"), Err(NumberFault::InvalidDigit));
    assert_eq!(parse_i32(b"2147483648"), Err(NumberFault::TooLarge));
    assert_eq!(parse_i32(b"-2147483649"), Err(NumberFault::TooSmall));
    assert_eq!(parse_i32(b"-2147483648"), Ok(i32::MIN));
    assert_eq!(parse_i32(b"2147483647"), Ok(i32::MAX));
}

#[test]
fn status_sentences() {
    assert_eq!(analyze_status(&Status::Success), "Operation completed successfully");
    assert_eq!(
        analyze_status(&Status::Error("Something went wrong".to_string())),
        "Error occurred: Something went wrong"
    );
    assert_eq!(
        analyze_status(&Status::Warning { code: 101, message: "Be careful".to_string() }),
        "Warning (code 101): Be careful"
    );
    assert_eq!(
        analyze_status(&Status::Warning { code: i32::MIN, message: String::new() }),
        "Warning (code -2147483648): "
    );
    assert_eq!(analyze_status(&Status::Pending(5)), "Operation pending with priority: 5");
    assert_eq!(analyze_status(&Status::Pending(0)), "Operation pending with priority: 0");
    assert_eq!(analyze_status(&Status::Pending(-17)), "Operation pending with priority: -17");
}

#[test]
fn data_labels() {
    assert_eq!(data_label(0), "Data for ID: 0");
    assert_eq!(data_label(42), "Data for ID: 42");
    assert_eq!(data_label(u32::MAX), "Data for ID: 4294967295");
}

#[test]
fn strings_upper_cased() {
    let (upper, count) =
        process_strings(vec!["hello".to_string(), "world".to_string(), "rust".to_string()]);
    assert_eq!(count, 3);
    assert_eq!(upper, vec!["HELLO".to_string(), "WORLD".to_string(), "RUST".to_string()]);
    let (none, zero) = process_strings(Vec::new());
    assert!(none.is_empty());
    assert_eq!(zero, 0);
}

#[test]
fn all_incremented() {
    let mut numbers = [1, 2, 3, 4, 5];
    increment_all(&mut numbers);
    assert_eq!(numbers, [2, 3, 4, 5, 6]);
    let mut none: [i32; 0] = [];
    increment_all(&mut none);
    assert_eq!(none, []);
}
