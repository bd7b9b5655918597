use commit_stats::str_map::StrMap;
use commit_stats::text::{
    compare, contains, copy_strings, decimal_string, join, leading, parse_number, parse_u16, push_decimal, same, Order,
};

#[test]
fn compare_orders_like_str() {
    assert_eq!(compare("", ""), Order::Equal);
    assert_eq!(compare("", "a"), Order::Less);
    assert_eq!(compare("a", ""), Order::Greater);
    assert_eq!(compare("2020-12-11", "2020-12-12"), Order::Less);
    assert_eq!(compare("2021-01-01", "2020-12-31"), Order::Greater);
    assert_eq!(compare("abc", "abc"), Order::Equal);
    assert_eq!(compare("abc", "abcd"), Order::Less);
    assert_eq!(compare("Z", "a"), Order::Less);
    assert_eq!(compare("é", "z"), Order::Greater);
    assert_eq!(compare("张三", "张四"), Order::Less);
}

#[test]
fn compare_agrees_with_the_standard_order() {
    let words = ["", "a", "ab", "b", "B", "张", "zs", "10", "9", "é", "e\u{301}"];
    for a in words {
        for b in words {
            let expected = match a.cmp(b) {
                std::cmp::Ordering::Less => Order::Less,
                std::cmp::Ordering::Equal => Order::Equal,
                std::cmp::Ordering::Greater => Order::Greater,
            };
            assert_eq!(compare(a, b), expected);
            assert_eq!(same(a, b), a == b);
        }
    }
}

#[test]
fn decimal_notation() {
    assert_eq!(decimal_string(0), "0");
    assert_eq!(decimal_string(7), "7");
    assert_eq!(decimal_string(10), "10");
    assert_eq!(decimal_string(705), "705");
    assert_eq!(decimal_string(4294967295), "4294967295");
    assert_eq!(decimal_string(u64::MAX), "18446744073709551615");
    let mut s = "page=".to_string();
    push_decimal(&mut s, 12);
    assert_eq!(s, "page=12");
}

#[test]
fn parse_u16_reads_numbers() {
    assert_eq!(parse_u16("0"), Some(0));
    assert_eq!(parse_u16("1"), Some(1));
    assert_eq!(parse_u16("42"), Some(42));
    assert_eq!(parse_u16("+42"), Some(42));
    assert_eq!(parse_u16("0042"), Some(42));
    assert_eq!(parse_u16("65535"), Some(65535));
    assert_eq!(parse_u16("000000000000000065535"), Some(65535));
}

#[test]
fn parse_u16_refuses_everything_else() {
    assert_eq!(parse_u16(""), None);
    assert_eq!(parse_u16("+"), None);
    assert_eq!(parse_u16("-1"), None);
    assert_eq!(parse_u16("++1"), None);
    assert_eq!(parse_u16("1+"), None);
    assert_eq!(parse_u16("65536"), None);
    assert_eq!(parse_u16("99999999999999999999999"), None);
    assert_eq!(parse_u16(" 1"), None);
    assert_eq!(parse_u16("1 "), None);
    assert_eq!(parse_u16("1a"), None);
    assert_eq!(parse_u16("0x10"), None);
    assert_eq!(parse_u16("１２"), None);
    assert_eq!(parse_u16("1é"), None);
}

#[test]
fn parse_u16_agrees_with_the_standard_parser() {
    let inputs = ["", "+", "-", "0", "+0", "-0", "007", "65535", "65536", "+65535", "12x", "x12", "1 2", "٣"];
    for input in inputs {
        assert_eq!(parse_u16(input), input.parse::<u16>().ok());
    }
}

#[test]
fn parse_number_keeps_to_its_bound() {
    assert_eq!(parse_number("705", u32::MAX), Some(705));
    assert_eq!(parse_number("4294967295", u32::MAX), Some(4294967295));
    assert_eq!(parse_number("4294967296", u32::MAX), None);
    assert_eq!(parse_number("+0", 0), Some(0));
    assert_eq!(parse_number("1", 0), None);
    assert_eq!(parse_number("100", 100), Some(100));
    assert_eq!(parse_number("101", 100), None);
    assert_eq!(parse_number("", 100), None);
    for input in ["0", "12", "4294967295", "4294967296", "99999999999", "+7", "-7", "7 ", "a"] {
        assert_eq!(parse_number(input, u32::MAX), input.parse::<u32>().ok());
    }
}

#[test]
fn leading_takes_characters() {
    assert_eq!(leading("2020-12-11T12:12:12.000+08:00", 10), "2020-12-11");
    assert_eq!(leading("2020-12-11", 10), "2020-12-11");
    assert_eq!(leading("2020-12", 10), "2020-12");
    assert_eq!(leading("", 10), "");
    assert_eq!(leading("abc", 0), "");
    assert_eq!(leading("二〇二〇年十二月十一日十二时", 10), "二〇二〇年十二月十一");
}

#[test]
fn join_puts_the_separator_between() {
    assert_eq!(join(&vec![], ","), "");
    assert_eq!(join(&vec!["a".to_string()], ","), "a");
    assert_eq!(join(&vec!["a".to_string(), "b".to_string(), "".to_string()], ","), "a,b,");
    assert_eq!(join(&vec!["x".to_string(), "y".to_string()], "\n"), "x\ny");
}

#[test]
fn contains_and_copy() {
    let parts = vec!["a".to_string(), "bc".to_string()];
    assert!(contains(&parts, "bc"));
    assert!(!contains(&parts, "b"));
    assert!(!contains(&vec![], ""));
    assert_eq!(copy_strings(&parts), parts);
}

#[test]
fn str_map_keeps_keys_in_order() {
    let mut m: StrMap<u32> = StrMap::new();
    assert!(m.is_empty());
    m.insert("pear".to_string(), 3);
    m.insert("apple".to_string(), 1);
    m.insert("zebra".to_string(), 9);
    m.insert("fig".to_string(), 2);
    assert_eq!(m.len(), 4);
    let keys: Vec<&str> = (0..m.len()).map(|i| m.key_at(i).as_str()).collect();
    assert_eq!(keys, vec!["apple", "fig", "pear", "zebra"]);
    assert_eq!(m.get("fig"), Some(&2));
    assert_eq!(m.get("grape"), None);
    assert_eq!(m.find("fig"), (1, true));
    assert_eq!(m.find("grape"), (2, false));
    assert_eq!(m.find("a"), (0, false));
    assert_eq!(m.find("zz"), (4, false));
    assert!(m.contains_key("zebra"));
}

#[test]
fn str_map_insert_replaces() {
    let mut m: StrMap<u32> = StrMap::new();
    m.insert("k".to_string(), 1);
    m.insert("k".to_string(), 2);
    assert_eq!(m.len(), 1);
    assert_eq!(m.get("k"), Some(&2));
    *m.value_mut(0) += 5;
    assert_eq!(*m.value_at(0), 7);
    m.set_value_at(0, 1);
    assert_eq!(m.get("k"), Some(&1));
}
