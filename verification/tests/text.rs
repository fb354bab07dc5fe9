use engine_core::text::{order_text, same_text, Text};
use engine_core::Order;

fn samples() -> Vec<&'static str> {
    vec![
        "",
        "a",
        "A",
        "aa",
        "ab",
        "abc",
        "abd",
        "b",
        "position",
        "position.x",
        "é",
        "e\u{301}",
        "ß",
        "日本",
        "日本語",
        "\u{7F}",
        "\u{80}",
        "\u{7FF}",
        "\u{800}",
        "\u{FFFF}",
        "\u{10000}",
        "\u{10FFFF}",
    ]
}

#[test]
fn same_text_is_equality_of_strings() {
    for a in samples() {
        for b in samples() {
            assert_eq!(same_text(a, b), a == b, "{:?} against {:?}", a, b);
        }
    }
}

#[test]
fn order_text_is_the_order_of_strings() {
    for a in samples() {
        for b in samples() {
            let want = if a < b {
                Order::Less
            } else if a == b {
                Order::Equal
            } else {
                Order::Greater
            };
            assert_eq!(order_text(a, b), want, "{:?} against {:?}", a, b);
        }
    }
}

#[test]
fn order_text_is_the_order_of_code_points() {
    for a in samples() {
        for b in samples() {
            let x: Vec<char> = a.chars().collect();
            let y: Vec<char> = b.chars().collect();
            let want = if x < y {
                Order::Less
            } else if x == y {
                Order::Equal
            } else {
                Order::Greater
            };
            assert_eq!(order_text(a, b), want, "{:?} against {:?}", a, b);
        }
    }
}

#[test]
fn a_proper_prefix_is_less() {
    assert_eq!(order_text("abc", "abcd"), Order::Less);
    assert_eq!(order_text("abcd", "abc"), Order::Greater);
    assert_eq!(order_text("", "a"), Order::Less);
    assert_eq!(order_text("", ""), Order::Equal);
}

#[test]
fn to_text_copies_slices_and_strings() {
    assert_eq!("slice".to_text(), String::from("slice"));
    assert_eq!(String::from("owned").to_text(), String::from("owned"));
    assert_eq!("".to_text(), String::new());
}
