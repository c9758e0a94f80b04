use sidemantic::sql::admits;
use sidemantic::text::{
    find_word, has_unnamed_third, is_named_from, is_word_at, skip_blanks_at, skip_word_at,
    concat2, concat3, concat4, contains_char, contains_name, decimal_string, decimal_string_wide,
    find_sub, fresh_alias_for, from_chars, initial_of, join_strings, lower_initial_of, replace_str,
    skip_spaces, slice_chars, starts_at, str_contains, str_eq, to_ascii_lower, to_ascii_upper,
    to_chars, trim_chars, trim_end_str, upper_chars,
};

fn chars(s: &str) -> Vec<char> {
    s.chars().collect()
}

#[test]
fn texts_and_characters() {
    assert_eq!(to_chars("héllo"), chars("héllo"));
    assert_eq!(from_chars(&chars("héllo")), "héllo");
    assert_eq!(to_chars(""), Vec::<char>::new());
    assert_eq!(concat2("a", "bc"), "abc");
    assert_eq!(concat3("a", "", "c"), "ac");
    assert_eq!(concat4("a", "b", "c", "d"), "abcd");
    assert!(str_eq("abc", "abc"));
    assert!(!str_eq("abc", "abd"));
    assert_eq!(slice_chars(&chars("abcdef"), 2, 4), chars("cd"));
    assert!(contains_char(&chars("a.b"), '.'));
    assert!(!contains_char(&chars("ab"), '.'));
}

#[test]
fn finding_and_replacing() {
    assert!(starts_at(&chars("hello"), &chars("ll"), 2));
    assert!(!starts_at(&chars("hello"), &chars("ll"), 3));
    assert!(!starts_at(&chars("hello"), &chars("lo!"), 3));
    assert_eq!(find_sub(&chars("a__b__c"), &chars("__"), 0), Some(1));
    assert_eq!(find_sub(&chars("a__b__c"), &chars("__"), 2), Some(4));
    assert_eq!(find_sub(&chars("a__b__c"), &chars("x"), 0), None);
    assert_eq!(find_sub(&chars("abc"), &chars(""), 3), Some(3));
    assert!(str_contains("hello world", "o w"));
    assert!(!str_contains("hello", "world"));
    assert!(str_contains("hello", ""));

    assert_eq!(replace_str("a.b a.c", "a.", "x."), "x.b x.c");
    assert_eq!(replace_str("aaa", "aa", "b"), "ba");
    assert_eq!(replace_str("abc", "", "x"), "abc");
    assert_eq!(replace_str("abc", "abc", ""), "");
    assert_eq!(replace_str("{model}.x = {model}.y", "{model}", "o"), "o.x = o.y");
}

#[test]
fn joining_and_numbers() {
    let parts = vec!["a".to_string(), "b".to_string(), "c".to_string()];
    assert_eq!(join_strings(&parts, ", "), "a, b, c");
    assert_eq!(join_strings(&parts[..1].to_vec(), ", "), "a");
    assert_eq!(join_strings(&Vec::new(), ", "), "");

    assert_eq!(decimal_string(0), "0");
    assert_eq!(decimal_string(7), "7");
    assert_eq!(decimal_string(10), "10");
    assert_eq!(decimal_string(120345), "120345");
    assert_eq!(decimal_string_wide(340282366920938463463374607431768211455), "340282366920938463463374607431768211455");
}

#[test]
fn case_and_white_space() {
    assert_eq!(to_ascii_lower('A'), 'a');
    assert_eq!(to_ascii_lower('Z'), 'z');
    assert_eq!(to_ascii_lower('a'), 'a');
    assert_eq!(to_ascii_lower('É'), 'É');
    assert_eq!(to_ascii_upper('z'), 'Z');
    assert_eq!(to_ascii_upper('1'), '1');
    assert_eq!(upper_chars(&chars("Sum_x1")), chars("SUM_X1"));

    assert_eq!(trim_end_str("abc \n\t"), "abc");
    assert_eq!(trim_end_str("  abc"), "  abc");
    assert_eq!(trim_end_str(" \n"), "");
    assert_eq!(trim_chars(&chars("  a b \r\n")), chars("a b"));
    assert_eq!(skip_spaces(&chars("  a"), 0), 2);
    assert_eq!(skip_spaces(&chars("  a"), 2), 2);
}

#[test]
fn aliases() {
    assert_eq!(initial_of("orders"), "o");
    assert_eq!(initial_of("Orders"), "O");
    assert_eq!(initial_of(""), "t");
    assert_eq!(lower_initial_of("Orders"), "o");
    assert_eq!(lower_initial_of(""), "t");

    let none: Vec<String> = Vec::new();
    assert_eq!(fresh_alias_for(&none, "orders"), "o");
    let taken = vec!["o".to_string(), "x".to_string(), "o2".to_string()];
    assert_eq!(fresh_alias_for(&taken, "orders"), "o3");
    assert_eq!(fresh_alias_for(&taken, "customers"), "c");
    assert!(contains_name(&taken, "x"));
    assert!(!contains_name(&taken, "y"));
}

#[test]
fn one_word_after_another() {
    assert!(is_word_at(&chars("a BY"), &chars("BY"), 2));
    assert!(is_word_at(&chars("BY b"), &chars("BY"), 0));
    assert!(!is_word_at(&chars("BYE"), &chars("BY"), 0));
    assert!(!is_word_at(&chars("BY_"), &chars("BY"), 0));
    assert!(is_word_at(&chars("xBY."), &chars("BY"), 1));
    assert_eq!(find_word(&chars("BYE BY1 BY"), &chars("BY"), 0), Some(8));
    assert_eq!(find_word(&chars("BYE BY1"), &chars("BY"), 0), None);
    assert_eq!(find_word(&chars("BY"), &chars("BY"), 1), None);

    assert_eq!(skip_blanks_at(&chars("a \t\r\n b"), 1), 6);
    assert_eq!(skip_blanks_at(&chars("ab"), 1), 1);
    assert_eq!(skip_blanks_at(&chars("a  "), 1), 3);
    assert_eq!(skip_word_at(&chars("ab_1$ c"), 0), 5);
    assert_eq!(skip_word_at(&chars("a-b"), 1), 1);

    assert!(is_named_from(&chars("BY admin"), 2, false));
    assert!(is_named_from(&chars("BY\n _x, y"), 2, false));
    assert!(is_named_from(&chars("BYx"), 2, false));
    assert!(!is_named_from(&chars("BY"), 2, false));
    assert!(!is_named_from(&chars("BY  "), 2, false));
    assert!(!is_named_from(&chars("BY 1"), 2, false));
    assert!(!is_named_from(&chars("BY 'a'"), 2, false));
    assert!(!is_named_from(&chars("BY N'a'"), 2, false));
    assert!(!is_named_from(&chars("BY u&'a'"), 2, false));
    assert!(!is_named_from(&chars("BY b\"a\""), 2, false));
    assert!(!is_named_from(&chars("BY /* c */ a"), 2, false));
    assert!(is_named_from(&chars("CHANNEL a"), 7, true));
    assert!(is_named_from(&chars("CHANNEL a1 ; SELECT 1"), 7, true));
    assert!(!is_named_from(&chars("CHANNEL a.b"), 7, true));
    assert!(!is_named_from(&chars("CHANNEL a ."), 7, true));
    assert!(!is_named_from(&chars("CHANNEL a /* c */ ."), 7, true));
    assert!(!is_named_from(&chars("CHANNEL a b"), 7, true));

    let grant = chars("GRANT");
    let granted = chars("GRANTED");
    let by = chars("BY");
    assert!(has_unnamed_third(&chars("GRANT x GRANTED BY"), &grant, &granted, &by, false));
    assert!(has_unnamed_third(&chars("GRANT GRANTED BY a BY 1"), &grant, &granted, &by, false));
    assert!(!has_unnamed_third(&chars("GRANT x GRANTED BY a"), &grant, &granted, &by, false));
    assert!(!has_unnamed_third(&chars("GRANTED BY GRANT"), &grant, &granted, &by, false));
    assert!(!has_unnamed_third(&chars("x GRANTED y BY"), &grant, &granted, &by, false));
    assert!(!has_unnamed_third(&chars("GRANT BY GRANTED"), &grant, &granted, &by, false));

    assert!(admits("SELECT a FROM t ORDER BY a"));
    assert!(admits("SELECT channel FROM t FOR UPDATE"));
    assert!(admits(""));
    assert!(admits("x granted y by"));
    assert!(admits("SELECT is_granted FROM t ORDER BY 1"));
    assert!(admits("FOR\tchannel"));
    assert!(admits("grant select on t to u granted by admin"));
    assert!(!admits("grant select on t to u granted by"));
    assert!(!admits("revoke select on t from u granted by 1"));
    assert!(!admits("Revoke x Granted By e'a'"));
    assert!(admits("flush relay logs for channel main"));
    assert!(admits("FLUSH RELAY LOGS FOR CHANNEL main ;"));
    assert!(!admits("flush relay logs for channel"));
    assert!(!admits("flush relay logs for channel a."));
    assert!(!admits("1RELAY FOR CHANNEL;"));
}
