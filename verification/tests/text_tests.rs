use gftools::html::parse_html;
use gftools::strmap::StrMap;
use gftools::text::{
    decimal_string, is_white_space_char, join_strings, replace_str, skip_chars, split_str,
    trim_str,
};

#[test]
fn trim_removes_unicode_white_space_at_both_ends() {
    assert_eq!(trim_str("  \t hello world \n"), "hello world");
    assert_eq!(trim_str("\u{3000}\u{a0}x\u{2029}"), "x");
    assert_eq!(trim_str("   "), "");
    assert_eq!(trim_str(""), "");
    assert_eq!(trim_str("a b"), "a b");
}

#[test]
fn white_space_matches_std() {
    for c in ['\t', '\n', '\u{b}', '\u{c}', '\r', ' ', '\u{85}', '\u{a0}', '\u{1680}', '\u{2000}', '\u{200a}', '\u{2028}', '\u{2029}', '\u{202f}', '\u{205f}', '\u{3000}', 'a', '\u{200b}', '_', '\u{feff}'] {
        assert_eq!(is_white_space_char(c), c.is_whitespace());
    }
}

#[test]
fn replace_matches_std() {
    for (s, p, t) in [("a_,b_,c", "_,", " "), ("aaa", "aa", "x"), ("", "x", "y"), ("x)]}'y)]}'", ")]}'", ""), ("Noto Sans JP", " ", "%20")] {
        assert_eq!(replace_str(s, p, t), s.replace(p, t));
    }
}

#[test]
fn split_matches_std() {
    for (s, p) in [("Alice, Bob, Carol", ", "), ("", ", "), (", ", ", "), ("a,,b", ","), ("no separator", ", ")] {
        let expected: Vec<String> = s.split(p).map(|x| x.to_string()).collect();
        assert_eq!(split_str(s, p), expected);
    }
}

#[test]
fn split_then_join_gives_back_the_text() {
    let s = "Alice, Bob, , Carol";
    let parts = split_str(s, ", ");
    assert_eq!(join_strings(&parts, ", "), s);
}

#[test]
fn join_puts_the_separator_between_pieces() {
    let parts = vec!["a".to_string(), "b".to_string(), "c".to_string()];
    assert_eq!(join_strings(&parts, " "), "a b c");
    assert_eq!(join_strings(&Vec::new(), " "), "");
}

#[test]
fn skip_chars_drops_the_guard() {
    assert_eq!(skip_chars(")]}'\n{\"a\":1}", 5), "{\"a\":1}");
    assert_eq!(skip_chars("abc", 5), "");
    assert_eq!(skip_chars("héllo wörld", 2), "llo wörld");
}

#[test]
fn decimal_string_matches_display() {
    for n in [0i64, 7, 10, 1431648000, -1, -42, i64::MAX, i64::MIN] {
        assert_eq!(decimal_string(n), n.to_string());
    }
}

#[test]
fn html_text_joins_trimmed_text_nodes() {
    assert_eq!(parse_html("<p> Hello <b>world</b></p>\n<p>   </p>"), "Hello world");
    assert_eq!(parse_html(""), "");
    assert_eq!(parse_html("  plain   text  "), "plain   text");
}

#[test]
fn html_text_is_trimmed() {
    let t = parse_html("<div>\n  <span>  a  </span>\n</div>");
    assert_eq!(t.trim(), t);
    assert_eq!(t, "a");
}

#[test]
fn strmap_insert_then_get() {
    let mut m: StrMap<u32> = StrMap::new();
    m.insert("a".to_string(), 1);
    m.insert("b".to_string(), 2);
    m.insert("a".to_string(), 3);
    assert_eq!(m.get("a"), Some(&3));
    assert_eq!(m.get("b"), Some(&2));
    assert_eq!(m.get("c"), None);
    assert_eq!(m.len(), 2);
    let keys: Vec<String> = m.entries().iter().map(|e| e.0.clone()).collect();
    assert_eq!(keys, vec!["a".to_string(), "b".to_string()]);
}
