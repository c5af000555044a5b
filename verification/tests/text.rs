//! Texts and JSON values.

use holocubic::json::{dump, from_value, read, to_value, Json};
use holocubic::text::{
    ascii_label, byte_len, chars_of, first_word, glue, has_char, has_line_break, is_ascii_text,
    is_short_sum, is_white, join, parse_integer, replace_char, space_words, split_words,
    text_of_chars, trim, write_decimal, write_hex, write_padded, write_two,
};

#[test]
fn white_space_is_that_of_the_standard() {
    for c in '\0'..=char::MAX {
        assert_eq!(is_white(c), c.is_whitespace());
    }
}

#[test]
fn texts_are_trimmed_and_split() {
    for text in ["", "  ", " a b ", "\u{3000}中\t文\n", "x"] {
        assert_eq!(trim(text), text.trim());
        let words: Vec<String> = text.split_whitespace().map(|w| w.to_owned()).collect();
        assert_eq!(split_words(text), words);
        assert_eq!(space_words(text), words.join(" "));
        assert_eq!(first_word(text), text.split_whitespace().next().unwrap_or(""));
        assert_eq!(text_of_chars(&chars_of(text)), text);
        assert_eq!(byte_len(text), text.len());
        assert_eq!(has_line_break(text), text.contains('\n') || text.contains('\r'));
        assert_eq!(has_char(text, 'b'), text.contains('b'));
        assert_eq!(is_ascii_text(text), text.is_ascii());
        assert_eq!(replace_char(text, 'b', "++"), text.replace('b', "++"));
    }
    assert_eq!(join(&vec!["a".into(), "".into(), "b".into()], ", "), "a, , b");
    assert_eq!(join(&Vec::new(), ", "), "");
    assert_eq!(glue("a", "中"), "a中");
    assert_eq!(ascii_label("模a型b", 3), "?a?");
}

#[test]
fn numbers_are_written() {
    for n in [0, 7, 10, 99, 100, 12345, u64::MAX] {
        assert_eq!(write_decimal(n), n.to_string());
        assert_eq!(write_two(n), format!("{n:02}"));
        assert_eq!(write_padded(n, 4), format!("{n:04}"));
        assert_eq!(write_hex(n, 8), format!("{n:08x}"));
    }
}

#[test]
fn integers_are_read() {
    for text in
        ["0", "-1", "+5", "9223372036854775807", "9223372036854775808", "", "-", "1x", "٣"]
    {
        assert_eq!(parse_integer(text), text.parse::<i64>().ok());
    }
    for n in [0, 9, 10, 90061, i64::MAX as u64] {
        assert_eq!(parse_integer(&write_decimal(n)), Some(n as i64));
    }
    assert!(is_short_sum("0123abcd") && !is_short_sum("0123abcg") && !is_short_sum("0123abc"));
}

#[test]
fn values_survive_both_ways() {
    let text = r#"{"b":[1,-2,null,true,"x\n中"],"a":{"n":18446744073709551615,"f":1.5},"c":{}}"#;
    let value = read(text.as_bytes()).unwrap();
    let again = from_value(to_value(&value));
    assert!(again.same(&value));
    assert!(read(dump(&value).as_bytes()).unwrap().same(&value));
    let tree: serde_json::Value = serde_json::from_str(text).unwrap();
    assert_eq!(to_value(&value), tree);
    assert_eq!(dump(&value), serde_json::to_string(&tree).unwrap());
    assert!(read(b"{").is_err());
    assert!(read(b"[1] x").is_err());
}

#[test]
fn members_are_found_put_and_removed() {
    let mut v = read(br#"{"a":1,"b":{"c":"x"}}"#).unwrap();
    assert_eq!(v.get_u64("a"), Some(1));
    assert_eq!(v.get_i64("a"), Some(1));
    assert_eq!(v.get_str("a"), None);
    assert_eq!(v.get_in("b", "c").unwrap().as_str(), Some("x"));
    v.insert("a", Json::Int(-1));
    assert_eq!(v.get_i64("a"), Some(-1));
    assert_eq!(v.get_u64("a"), None);
    v.insert_in("b", "d", Json::Bool(true));
    assert_eq!(v.get("b").unwrap().get_bool("d"), Some(true));
    v.remove("a");
    assert!(v.get("a").is_none());
    assert_eq!(v.keys(), ["b"]);
    assert!(Json::Null.is_null() && Json::object().is_object());
    assert!(Json::Uint(5).same(&Json::Int(5)));
    assert!(!Json::Uint(5).same(&Json::text("5")));
    let half = read(b"0.5").unwrap();
    assert!(half.same(&read(b"5e-1").unwrap()));
    assert!(!half.same(&read(b"1.5").unwrap()));
    assert!(!read(b"1.0").unwrap().same(&Json::Uint(1)));
    assert_eq!(half.as_u64(), None);
}
