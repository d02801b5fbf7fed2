use scheduler::text::{
    append_decimal, char_count, concat_with, decimal_text, join, role_mention_text, same_text,
    sorted_ids, user_mention_text,
};

#[test]
fn numbers_in_decimal() {
    assert_eq!(decimal_text(0), "0");
    assert_eq!(decimal_text(7), "7");
    assert_eq!(decimal_text(10), "10");
    assert_eq!(decimal_text(1234567890), "1234567890");
    assert_eq!(decimal_text(u64::MAX), "18446744073709551615");
    let mut text = String::from("n=");
    append_decimal(&mut text, 405);
    assert_eq!(text, "n=405");
}

#[test]
fn decimal_agrees_with_the_standard_library() {
    let mut n: u64 = 0;
    while n < 5000 {
        assert_eq!(decimal_text(n), n.to_string());
        n += 1;
    }
    let mut m: u64 = 1;
    for _ in 0..19 {
        m *= 10;
        assert_eq!(decimal_text(m), m.to_string());
        assert_eq!(decimal_text(m - 1), (m - 1).to_string());
    }
}

#[test]
fn mentions() {
    assert_eq!(user_mention_text(42), "<@42>");
    assert_eq!(role_mention_text(42), "<@&42>");
    assert_eq!(user_mention_text(0), "<@0>");
}

#[test]
fn joining() {
    let none: Vec<String> = vec![];
    let one = vec!["a".to_string()];
    let three = vec!["a".to_string(), "".to_string(), "c".to_string()];
    assert_eq!(join(&none, ", "), "");
    assert_eq!(join(&one, ", "), "a");
    assert_eq!(join(&three, ", "), "a, , c");
    assert_eq!(concat_with(&none, ", "), "");
    assert_eq!(concat_with(&one, ", "), "a");
    assert_eq!(concat_with(&three, ", "), "a, , c");
    assert_eq!(join(&three, "\n"), "a\n\nc");
}

#[test]
fn sorting_ids() {
    assert_eq!(sorted_ids(vec![5, 1, 4, 2, 3]), vec![1, 2, 3, 4, 5]);
    assert_eq!(sorted_ids(vec![]), Vec::<u64>::new());
    assert_eq!(sorted_ids(vec![u64::MAX, 0]), vec![0, u64::MAX]);
    assert_eq!(sorted_ids(vec![3, 1, 3, 2, 1]), vec![1, 1, 2, 3, 3]);
}

#[test]
fn counting_characters() {
    assert_eq!(char_count(""), 0);
    assert_eq!(char_count("abc"), 3);
    assert_eq!(char_count("h\u{e9}llo"), 5);
    assert!(same_text("abc", "abc"));
    assert!(!same_text("abc", "abd"));
}
