use todo_notes::codec::{decode, encode, ListEntry};
use todo_notes::error::ListError;

#[test]
fn encode_pads_to_two_digits() {
    assert_eq!(encode(1, "buy milk"), "01. buy milk");
    assert_eq!(encode(9, "x"), "09. x");
    assert_eq!(encode(10, "x"), "10. x");
    assert_eq!(encode(12, "x"), "12. x");
}

#[test]
fn encode_does_not_cut_wide_numbers() {
    assert_eq!(encode(100, "x"), "100. x");
    assert_eq!(encode(12345, "x"), "12345. x");
    assert_eq!(encode(0, "x"), "00. x");
    assert_eq!(encode(usize::MAX, "x"), format!("{}. x", usize::MAX));
}

#[test]
fn encode_takes_any_text() {
    assert_eq!(encode(3, ""), "03. ");
    assert_eq!(encode(3, "7. days"), "03. 7. days");
    assert_eq!(encode(3, "don't"), "03. don't");
    assert_eq!(encode(3, "caf\u{e9} \u{2615}"), "03. caf\u{e9} \u{2615}");
}

#[test]
fn decode_reads_number_and_text() {
    let entry = decode("02. call mom").unwrap();
    assert_eq!(entry, ListEntry { index: 2, text: "call mom".to_string() });
    let entry = decode("117. a. b. c").unwrap();
    assert_eq!(entry, ListEntry { index: 117, text: "a. b. c".to_string() });
}

#[test]
fn decode_takes_one_digit_and_leading_zeros() {
    assert_eq!(decode("1. x").unwrap(), ListEntry { index: 1, text: "x".to_string() });
    assert_eq!(decode("0007. x").unwrap(), ListEntry { index: 7, text: "x".to_string() });
    assert_eq!(decode("00. x").unwrap(), ListEntry { index: 0, text: "x".to_string() });
}

#[test]
fn decode_keeps_the_whole_rest_as_text() {
    assert_eq!(decode("01. ").unwrap().text, "");
    assert_eq!(decode("01.  x ").unwrap().text, " x ");
    assert_eq!(decode("01. it's 02. here").unwrap().text, "it's 02. here");
    assert_eq!(decode("01. a\nb").unwrap().text, "a\nb");
}

#[test]
fn decode_refuses_lines_without_the_shape() {
    for line in ["garbage", "", "01.", "01", "01 . x", "01.x", ". x", " 01. x", "a1. x", "1a. x", "01: x", "-1. x", "+1. x", "\u{661}. x"] {
        assert_eq!(decode(line).unwrap_err(), ListError::Parse, "{:?}", line);
    }
}

#[test]
fn decode_refuses_a_numeral_beyond_the_index_type() {
    let max = usize::MAX;
    assert_eq!(decode(&format!("{}. x", max)).unwrap().index, max);
    assert_eq!(decode(&format!("{}0. x", max)).unwrap_err(), ListError::Parse);
    assert_eq!(decode("99999999999999999999999999999999999999999. x").unwrap_err(), ListError::Parse);
    // one more than the largest index
    let digits = format!("{}", max);
    let mut bumped: Vec<u8> = digits.into_bytes();
    let mut i = bumped.len();
    loop {
        i -= 1;
        if bumped[i] == b'9' {
            bumped[i] = b'0';
        } else {
            bumped[i] += 1;
            break;
        }
    }
    let line = format!("{}. x", String::from_utf8(bumped).unwrap());
    assert_eq!(decode(&line).unwrap_err(), ListError::Parse);
}

#[test]
fn decode_undoes_encode() {
    for index in [0usize, 1, 9, 10, 99, 100, 4096, usize::MAX] {
        for text in ["", "a", "buy milk", "12. twelve", ". ", "x\ty", "\u{1f600}"] {
            let entry = decode(&encode(index, text)).unwrap();
            assert_eq!(entry.index, index);
            assert_eq!(entry.text, text);
        }
    }
}

#[test]
fn encode_undoes_decode_on_padded_lines() {
    for line in ["01. a", "10. b c", "123. d", "05. 1. x"] {
        let entry = decode(line).unwrap();
        assert_eq!(encode(entry.index, &entry.text), line);
    }
}

#[test]
fn decode_agrees_with_the_pattern_of_a_line() {
    let pattern = regex::Regex::new(r"(?s)^([0-9]+)\. (.*)$").unwrap();
    let lines = [
        "01. a", "1. a", "001. a b c", "12. ", "12.", "12 . a", "12.a", ". a", "a", "", " 1. a",
        "1. 2. 3. ", "10. it's", "3. \u{e9}\u{1f600}", "\u{663}. a", "7. a\nb", "7.\ta", "0. x",
        "12345678901. x", "1.. a", "1. . a",
    ];
    for line in lines {
        match pattern.captures(line) {
            Some(caps) => {
                let entry = decode(line).unwrap();
                assert_eq!(entry.index, caps[1].parse::<usize>().unwrap(), "{:?}", line);
                assert_eq!(entry.text, &caps[2], "{:?}", line);
            }
            None => assert_eq!(decode(line).unwrap_err(), ListError::Parse, "{:?}", line),
        }
    }
}
