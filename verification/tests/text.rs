use adb_sync_tool::cli::sync::usage_words;
use adb_sync_tool::number::{decimal, parse_number, NumberError};
use adb_sync_tool::text::{
    count_newlines, decode_output, find_char, from_chars, is_white_space, lines, to_chars, words,
    DecodeError,
};

fn sample_texts() -> Vec<String> {
    let mut texts: Vec<String> = Vec::new();
    let alphabet = ['a', '\n', '\r', ' ', 'ß', '\u{3000}'];
    texts.push(String::new());
    let mut last: Vec<String> = vec![String::new()];
    for _ in 0..5 {
        let mut next: Vec<String> = Vec::new();
        for text in &last {
            for c in alphabet {
                let mut longer = text.clone();
                longer.push(c);
                next.push(longer);
            }
        }
        texts.extend(next.iter().cloned());
        last = next;
    }
    texts
}

#[test]
fn lines_are_those_of_std() {
    for text in sample_texts() {
        let expected: Vec<String> = text.lines().map(String::from).collect();
        assert_eq!(lines(&text), expected, "{:?}", text);
    }
}

#[test]
fn words_are_those_of_std() {
    for text in sample_texts() {
        let expected: Vec<String> = text.split_whitespace().map(String::from).collect();
        assert_eq!(words(&text), expected, "{:?}", text);
    }
}

#[test]
fn newlines_are_counted() {
    for text in sample_texts() {
        assert_eq!(
            count_newlines(&text),
            text.bytes().filter(|&b| b == b'\n').count()
        );
    }
    assert_eq!(count_newlines("a\nb\n"), 2);
}

#[test]
fn white_space_is_that_of_std() {
    for c in '\0'..=char::MAX {
        assert_eq!(is_white_space(c), c.is_whitespace(), "{:?}", c);
    }
}

#[test]
fn characters_go_back_and_forth() {
    let chars = to_chars("/sd cärd");
    assert_eq!(chars, vec!['/', 's', 'd', ' ', 'c', 'ä', 'r', 'd']);
    assert_eq!(from_chars(&chars, 4, 6), "cä");
    assert_eq!(from_chars(&chars, 8, 8), "");
    assert_eq!(find_char(&chars, 'd', 0, 8), 2);
    assert_eq!(find_char(&chars, 'd', 3, 8), 7);
    assert_eq!(find_char(&chars, 'x', 1, 5), 5);
}

#[test]
fn output_is_decoded() {
    assert_eq!(
        decode_output("/sdcard/Müsik\n".as_bytes().to_vec()),
        Ok(String::from("/sdcard/Müsik\n"))
    );
    assert_eq!(decode_output(vec![]), Ok(String::new()));
    assert_eq!(decode_output(vec![0x61, 0xc3]), Err(DecodeError));
    assert_eq!(decode_output(vec![0xff]), Err(DecodeError));
    assert_eq!(decode_output(vec![0xed, 0xa0, 0x80]), Err(DecodeError));
}

#[test]
fn usage_is_split_into_words() {
    let line = "/dev/block/dm-5  115609024 61184000  54425024  53% /data\n";
    let list = usage_words(line.as_bytes().to_vec()).unwrap();
    assert_eq!(list.len(), 6);
    assert_eq!(list[3], "54425024");
    assert_eq!(usage_words(vec![0x80]), Err(DecodeError));
}

#[test]
fn numbers_are_written() {
    for n in [0, 1, 9, 10, 11, 99, 100, 1_000_000_007, u64::MAX - 1, u64::MAX] {
        assert_eq!(decimal(n), n.to_string());
    }
}

fn kind_of(text: &str) -> Result<i64, NumberError> {
    match text.parse::<i64>() {
        Ok(n) => Ok(n),
        Err(e) => Err(match e.kind() {
            std::num::IntErrorKind::Empty => NumberError::Empty,
            std::num::IntErrorKind::InvalidDigit => NumberError::InvalidDigit,
            std::num::IntErrorKind::PosOverflow => NumberError::PosOverflow,
            std::num::IntErrorKind::NegOverflow => NumberError::NegOverflow,
            _ => unreachable!(),
        }),
    }
}

#[test]
fn numbers_are_read_as_by_std() {
    let texts = [
        "", "+", "-", "0", "-0", "+0", "00012", "12", "+12", "-12", "1a", "a1", "--1", "+-1", " 1",
        "1 ", "1_000", "9223372036854775807", "9223372036854775808", "-9223372036854775808",
        "-9223372036854775809", "99999999999999999999999999", "-99999999999999999999999999",
        "9223372036854775808x", "-9223372036854775809x", "99999999999999999999999999x", "x99999999999999999999999999",
        "922337203685477580799x", "۳", "٣٤",
    ];
    for text in texts {
        assert_eq!(parse_number(text), kind_of(text), "{:?}", text);
    }
}

#[test]
fn each_number_error_comes() {
    assert_eq!(parse_number(""), Err(NumberError::Empty));
    assert_eq!(parse_number("53%"), Err(NumberError::InvalidDigit));
    assert_eq!(parse_number("9223372036854775808"), Err(NumberError::PosOverflow));
    assert_eq!(parse_number("-9223372036854775809"), Err(NumberError::NegOverflow));
    assert_eq!(parse_number("54425024"), Ok(54_425_024));
}
