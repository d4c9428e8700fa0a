use room_finder::text::{decimal_string, join_strings, pad_left_string, str_less};

#[test]
fn decimal_strings() {
    assert_eq!(decimal_string(0), "0");
    assert_eq!(decimal_string(7), "7");
    assert_eq!(decimal_string(10), "10");
    assert_eq!(decimal_string(1500), "1500");
    assert_eq!(decimal_string(u32::MAX), "4294967295");
}

#[test]
fn padding_right_aligns() {
    assert_eq!(pad_left_string("85", 4), "  85");
    assert_eq!(pad_left_string("1500", 4), "1500");
    assert_eq!(pad_left_string("12345", 4), "12345");
    assert_eq!(pad_left_string("", 2), "  ");
}

#[test]
fn joining() {
    let list = vec!["a".to_string(), "bc".to_string(), "".to_string(), "d".to_string()];
    assert_eq!(join_strings(&list, ";"), "a;bc;;d");
    assert_eq!(join_strings(&Vec::new(), ";"), "");
    assert_eq!(join_strings(&vec!["x".to_string()], "\n"), "x");
}

#[test]
fn string_order_agrees_with_str() {
    let words = ["", "a", "ab", "b", "B", "Zürich", "Zurich", "zürich", "é", "e", "aa"];
    for x in words.iter() {
        for y in words.iter() {
            assert_eq!(str_less(x, y), x < y, "{:?} < {:?}", x, y);
        }
    }
}
