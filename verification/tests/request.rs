use todo_notes::error::ListError;
use todo_notes::request::{is_space_char, parse_indices, sorted_descending};

#[test]
fn parse_indices_reads_numbers_between_white_space() {
    assert_eq!(parse_indices("2").unwrap(), vec![2]);
    assert_eq!(parse_indices("2 4").unwrap(), vec![2, 4]);
    assert_eq!(parse_indices("  4\t2\n 4 ").unwrap(), vec![4, 2, 4]);
    assert_eq!(parse_indices("1\u{a0}2\u{3000}3").unwrap(), vec![1, 2, 3]);
}

#[test]
fn parse_indices_takes_zeros_and_a_plus_sign() {
    assert_eq!(parse_indices("007 +3 0").unwrap(), vec![7, 3, 0]);
    assert_eq!(parse_indices(&format!("{}", usize::MAX)).unwrap(), vec![usize::MAX]);
}

#[test]
fn parse_indices_refuses_what_is_no_number() {
    for arg in ["", "   ", "two", "2,4", "2 x", "-1", "1.5", "+", "++1", "1+", "2 +", "\u{662}"] {
        assert_eq!(parse_indices(arg).unwrap_err(), ListError::InvalidArgument, "{:?}", arg);
    }
    let big = format!("{}0", usize::MAX);
    assert_eq!(parse_indices(&big).unwrap_err(), ListError::InvalidArgument);
}

#[test]
fn white_space_is_what_std_calls_white_space() {
    let mut c = 0u32;
    let mut count = 0;
    while c <= 0x10ffff {
        if let Some(ch) = char::from_u32(c) {
            assert_eq!(is_space_char(ch), ch.is_whitespace(), "U+{:04X}", c);
            if is_space_char(ch) {
                count += 1;
            }
        }
        c += 1;
    }
    assert_eq!(count, 25);
}

#[test]
fn parse_indices_agrees_with_std() {
    for arg in ["3 1 2", " 10  20 ", "+5", "0", "1\r\n2", "a", "1 b", "", "00", "-0"] {
        let expected: Option<Vec<usize>> = {
            let words: Vec<&str> = arg.split_whitespace().collect();
            if words.is_empty() {
                None
            } else {
                words.iter().map(|w| w.parse::<usize>().ok()).collect()
            }
        };
        assert_eq!(parse_indices(arg).ok(), expected, "{:?}", arg);
    }
}

#[test]
fn sorted_descending_sorts_and_drops_repeats() {
    assert_eq!(sorted_descending(&vec![]), Vec::<usize>::new());
    assert_eq!(sorted_descending(&vec![3]), vec![3]);
    assert_eq!(sorted_descending(&vec![2, 4]), vec![4, 2]);
    assert_eq!(sorted_descending(&vec![4, 2]), vec![4, 2]);
    assert_eq!(sorted_descending(&vec![1, 5, 3, 5, 1, 0, 9, 3]), vec![9, 5, 3, 1, 0]);
}
