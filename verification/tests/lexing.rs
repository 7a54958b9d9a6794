use obj_mesh::text::{chars_of, is_whitespace, split_lines, string_of, tokenize};

fn chars(text: &str) -> Vec<char> {
    text.chars().collect()
}

fn strings(parts: Vec<&[char]>) -> Vec<String> {
    parts.into_iter().map(|part| part.iter().collect()).collect()
}

#[test]
fn whitespace_is_what_unicode_says() {
    for code in 0..=0x10ffffu32 {
        if let Some(c) = char::from_u32(code) {
            assert_eq!(is_whitespace(c), c.is_whitespace(), "U+{:04X}", code);
        }
    }
}

#[test]
fn strings_and_characters() {
    assert_eq!(chars_of(""), Vec::<char>::new());
    assert_eq!(chars_of("v 1"), vec!['v', ' ', '1']);
    assert_eq!(chars_of("é\u{2003}漢"), vec!['é', '\u{2003}', '漢']);
    assert_eq!(string_of(&[]), "");
    assert_eq!(string_of(&['a', 'b', 'c']), "abc");
    assert_eq!(string_of(&chars_of("f 1/2/3 é")), "f 1/2/3 é");
}

#[test]
fn lines() {
    assert_eq!(strings(split_lines(&chars(""))), Vec::<String>::new());
    assert_eq!(strings(split_lines(&chars("a"))), vec!["a"]);
    assert_eq!(strings(split_lines(&chars("a\n"))), vec!["a"]);
    assert_eq!(strings(split_lines(&chars("a\nb"))), vec!["a", "b"]);
    assert_eq!(strings(split_lines(&chars("a\n\nb\n"))), vec!["a", "", "b"]);
    assert_eq!(strings(split_lines(&chars("\n"))), vec![""]);
    assert_eq!(strings(split_lines(&chars("\n\n"))), vec!["", ""]);
    assert_eq!(strings(split_lines(&chars("\na"))), vec!["", "a"]);
    assert_eq!(strings(split_lines(&chars("a\r\nb\r"))), vec!["a\r", "b\r"]);
    assert_eq!(strings(split_lines(&chars("v 1 2 3\nf 1 2 3"))), vec!["v 1 2 3", "f 1 2 3"]);
}

#[test]
fn lines_as_std_splits_them() {
    let pieces = ["", "a", "\n", " ", "bc", "\n\n", "v 1", "\t"];
    for a in pieces {
        for b in pieces {
            for c in pieces {
                for d in pieces {
                    let sample = format!("{}{}{}{}", a, b, c, d);
                    let expected: Vec<String> = sample.lines().map(String::from).collect();
                    assert_eq!(strings(split_lines(&chars(&sample))), expected, "{:?}", sample);
                }
            }
        }
    }
}

#[test]
fn tokens() {
    assert_eq!(strings(tokenize(&chars(""))), Vec::<String>::new());
    assert_eq!(strings(tokenize(&chars("   \t "))), Vec::<String>::new());
    assert_eq!(strings(tokenize(&chars("v"))), vec!["v"]);
    assert_eq!(strings(tokenize(&chars("v 1 2 3"))), vec!["v", "1", "2", "3"]);
    assert_eq!(strings(tokenize(&chars("  v\t1   2 3  "))), vec!["v", "1", "2", "3"]);
    assert_eq!(strings(tokenize(&chars("f 1/2/3 4//5\r"))), vec!["f", "1/2/3", "4//5"]);
    assert_eq!(strings(tokenize(&chars("a\u{a0}b\u{2028}c\u{85}d"))), vec!["a", "b", "c", "d"]);
    // A zero-width space is no whitespace.
    assert_eq!(strings(tokenize(&chars("a\u{200b}b"))), vec!["a\u{200b}b"]);
}

#[test]
fn tokens_as_std_splits_them() {
    let pieces = ["", "a", " ", "\t", "bc", "  ", "\r", "\u{3000}", "1/2", "\u{200b}"];
    for a in pieces {
        for b in pieces {
            for c in pieces {
                for d in pieces {
                    let sample = format!("{}{}{}{}", a, b, c, d);
                    let expected: Vec<String> =
                        sample.split_whitespace().map(String::from).collect();
                    assert_eq!(strings(tokenize(&chars(&sample))), expected, "{:?}", sample);
                }
            }
        }
    }
}
