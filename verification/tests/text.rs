use daidori_manager::text::{is_white_space_char, push_decimal, trim_white_space};

#[test]
fn white_space_is_what_the_standard_library_calls_so() {
    for code in 0..=0x10ffffu32 {
        if let Some(c) = char::from_u32(code) {
            assert_eq!(is_white_space_char(c), c.is_whitespace(), "U+{:04X}", code);
        }
    }
}

#[test]
fn trimming_takes_white_space_off_both_ends() {
    assert_eq!(trim_white_space("  a b  "), "a b");
    assert_eq!(trim_white_space("\t\r\n{\"results\": []}\n"), "{\"results\": []}");
    assert_eq!(trim_white_space("3/10"), "3/10");
    assert_eq!(trim_white_space("x"), "x");
    assert_eq!(trim_white_space(" x"), "x");
    assert_eq!(trim_white_space("x "), "x");
    assert_eq!(trim_white_space(""), "");
    assert_eq!(trim_white_space(" \n\t "), "");
    assert_eq!(trim_white_space("\u{3000}ページ\u{a0}1\u{2003}"), "ページ\u{a0}1");
    assert_eq!(trim_white_space("\u{85}\u{1680}é\u{2028}\u{205f}"), "é");
    assert_eq!(trim_white_space("\u{200b}a\u{feff}"), "\u{200b}a\u{feff}");
}

#[test]
fn trimming_agrees_with_the_standard_library() {
    let pieces = ["", " ", "\n", "\u{3000}", "\u{a0}", "a", "é", "ペ", "{", "\u{200b}", "\u{2009}"];
    for a in pieces {
        for b in pieces {
            for c in pieces {
                for d in pieces {
                    let text = format!("{}{}{}{}", a, b, c, d);
                    assert_eq!(trim_white_space(&text), text.trim(), "for {:?}", text);
                }
            }
        }
    }
}

#[test]
fn numerals_are_written_in_decimal() {
    for n in [0u64, 1, 9, 10, 99, 100, 12345, 1_700_000_000_000, u64::MAX] {
        let mut text = String::from("n=");
        push_decimal(&mut text, n);
        assert_eq!(text, format!("n={}", n));
    }
}
