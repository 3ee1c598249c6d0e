use todo_notes::request::{parse_number, words};
use todo_notes::text::{
    chars_of, contains_char, position_of, split, starts_with, std_lines, string_of,
};

fn chars(s: &str) -> Vec<char> {
    s.chars().collect()
}

fn strings(pieces: Vec<Vec<char>>) -> Vec<String> {
    pieces.into_iter().map(|p| p.into_iter().collect()).collect()
}

#[test]
fn chars_and_strings_go_both_ways() {
    for text in ["", "a", "01. buy milk", "caf\u{e9} \u{1f600}\n\t"] {
        assert_eq!(chars_of(text), chars(text));
        assert_eq!(string_of(&chars(text)), text);
    }
}

#[test]
fn split_cuts_at_every_separator() {
    assert_eq!(strings(split(&chars(""), '\n')), vec![""]);
    assert_eq!(strings(split(&chars("a"), '\n')), vec!["a"]);
    assert_eq!(strings(split(&chars("a\nb"), '\n')), vec!["a", "b"]);
    assert_eq!(strings(split(&chars("a\n"), '\n')), vec!["a", ""]);
    assert_eq!(strings(split(&chars("\n\na\n\n"), '\n')), vec!["", "", "a", "", ""]);
    assert_eq!(strings(split(&chars("k=v=w"), '=')), vec!["k", "v", "w"]);
}

#[test]
fn split_agrees_with_std() {
    for text in ["", "=", "a=b", "==", "a==b=", "no separator", "=\u{e9}="] {
        let expected: Vec<String> = text.split('=').map(|p| p.to_string()).collect();
        assert_eq!(strings(split(&chars(text), '=')), expected, "{:?}", text);
    }
}

#[test]
fn std_lines_agrees_with_std() {
    for text in ["", "\n", "a", "a\n", "a\nb", "a\r\nb\r\n", "a\r", "\r", "\r\n", "a\r\r\n", "\n\n", "a\n\rb", "a\n\n\nb\n"] {
        let expected: Vec<String> = text.lines().map(|l| l.to_string()).collect();
        assert_eq!(strings(std_lines(&chars(text))), expected, "{:?}", text);
    }
}

#[test]
fn starts_with_agrees_with_std() {
    for line in ["", "a", "WORK=/x", "WORKSHOP", "work"] {
        for prefix in ["", "a", "W", "WORK", "WORK=", "WORKSHOPS", "w"] {
            assert_eq!(
                starts_with(&chars(line), &chars(prefix)),
                line.starts_with(prefix),
                "{:?} {:?}",
                line,
                prefix
            );
        }
    }
}

#[test]
fn contains_char_finds_the_character() {
    assert!(!contains_char(&chars(""), '\n'));
    assert!(!contains_char(&chars("abc"), '\n'));
    assert!(contains_char(&chars("\n"), '\n'));
    assert!(contains_char(&chars("ab\nc"), '\n'));
    assert!(contains_char(&chars("abc\n"), '\n'));
}

#[test]
fn position_of_finds_the_first() {
    assert_eq!(position_of(&chars(""), '='), 0);
    assert_eq!(position_of(&chars("="), '='), 0);
    assert_eq!(position_of(&chars("abc"), '='), 3);
    assert_eq!(position_of(&chars("ab=c=d"), '='), 2);
    assert_eq!(position_of(&chars("\u{e9}\u{1f600}=x"), '='), 2);
    for text in ["", "=", "a=", "=a", "none", "a=b=c"] {
        let expected = text.chars().position(|c| c == '=').unwrap_or(text.chars().count());
        assert_eq!(position_of(&chars(text), '='), expected, "{:?}", text);
    }
}

#[test]
fn words_agrees_with_std() {
    for text in ["", " ", "a", " a ", "a b", "  1\t22 \n 333  ", "\u{3000}x\u{a0}y\u{2028}", "a\u{200b}b c"] {
        let expected: Vec<String> = text.split_whitespace().map(|w| w.to_string()).collect();
        assert_eq!(strings(words(&chars(text))), expected, "{:?}", text);
    }
}

#[test]
fn parse_number_agrees_with_std() {
    let max = format!("{}", usize::MAX);
    let beyond = format!("{}9", usize::MAX);
    for word in ["0", "7", "007", "+7", "+", "", "-7", "7+", "+-7", "++7", "1_000", "0x10", " 7", "7 ", "12a", max.as_str(), beyond.as_str(), "\u{663}"] {
        assert_eq!(parse_number(&chars(word)), word.parse::<usize>().ok(), "{:?}", word);
    }
}
