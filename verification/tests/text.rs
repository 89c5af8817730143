use website_checker::books::{format_book_line, parse_book_line, Book, LineError};
use website_checker::numbers::{check_guess, classify, is_even, largest, sum_of, sum_with_step,
    NumberKind};
use website_checker::prices::{needs_header, stooq_close_field};
use website_checker::report::summary_line;
use website_checker::text::{chars_of, is_whitespace, parse_unsigned, push_decimal, split_fields,
    starts_with, string_of, trim};
use website_checker::words::{most_frequent_word, split_words};

fn chars(s: &str) -> Vec<char> {
    s.chars().collect()
}

fn parse(s: &str, max: u64) -> Option<u64> {
    let c = chars(s);
    parse_unsigned(&c, 0, c.len(), max)
}

fn decimal(n: u64) -> String {
    let mut out = String::new();
    push_decimal(&mut out, n);
    out
}

#[test]
fn characters_of_a_text() {
    assert_eq!(chars_of("héllo"), vec!['h', 'é', 'l', 'l', 'o']);
    assert_eq!(chars_of(""), Vec::<char>::new());
    assert_eq!(string_of(&chars("héllo"), 1, 4), "éll");
    assert_eq!(string_of(&chars("abc"), 2, 2), "");
}

#[test]
fn prefixes() {
    assert!(starts_with(&chars("--workers=3"), "--workers="));
    assert!(starts_with(&chars("--workers="), "--workers="));
    assert!(!starts_with(&chars("--workers"), "--workers="));
    assert!(!starts_with(&chars("--workerz=3"), "--workers="));
    assert!(starts_with(&chars("anything"), ""));
}

#[test]
fn decimal_rendering() {
    assert_eq!(decimal(0), "0");
    assert_eq!(decimal(7), "7");
    assert_eq!(decimal(10), "10");
    assert_eq!(decimal(1949), "1949");
    assert_eq!(decimal(u64::MAX), "18446744073709551615");
    let mut out = String::from("n=");
    push_decimal(&mut out, 42);
    assert_eq!(out, "n=42");
}

#[test]
fn decimal_parsing() {
    assert_eq!(parse("0", 10), Some(0));
    assert_eq!(parse("10", 10), Some(10));
    assert_eq!(parse("11", 10), None);
    assert_eq!(parse("+9", 10), Some(9));
    assert_eq!(parse("0009", 10), Some(9));
    assert_eq!(parse("", 10), None);
    assert_eq!(parse("+", 10), None);
    assert_eq!(parse("-1", 10), None);
    assert_eq!(parse("1a", 10), None);
    assert_eq!(parse("٣", 10), None);
    assert_eq!(parse("18446744073709551615", u64::MAX), Some(u64::MAX));
    assert_eq!(parse("18446744073709551616", u64::MAX), None);
    assert_eq!(parse("99999999999999999999999999", u64::MAX), None);
    assert_eq!(parse("65535", 65535), Some(65535));
    assert_eq!(parse("65536", 65535), None);
}

#[test]
fn decimal_parsing_agrees_with_the_standard_parser() {
    for text in ["0", "1", "+1", "-1", "", "+", "007", "65535", "65536", " 1", "1 ", "12x", "++1", "4294967296"] {
        assert_eq!(parse(text, u16::MAX as u64), text.parse::<u16>().ok().map(u64::from), "{:?}", text);
        assert_eq!(parse(text, u32::MAX as u64), text.parse::<u32>().ok().map(u64::from), "{:?}", text);
        assert_eq!(parse(text, u64::MAX), text.parse::<u64>().ok(), "{:?}", text);
    }
}

#[test]
fn decimal_round_trip() {
    for n in [0u64, 1, 9, 10, 99, 100, 12345, u32::MAX as u64, u64::MAX] {
        assert_eq!(parse(&decimal(n), u64::MAX), Some(n));
    }
}

#[test]
fn whitespace_agrees_with_the_standard_library() {
    for code in 0u32..0x3100 {
        if let Some(c) = char::from_u32(code) {
            assert_eq!(is_whitespace(c), c.is_whitespace(), "U+{:04X}", code);
        }
    }
    assert!(!is_whitespace('\u{180E}'));
    assert!(!is_whitespace('\u{FEFF}'));
    assert!(!is_whitespace('\u{10FFFF}'));
}

#[test]
fn fields_between_separators() {
    let c = chars("a,b,,c");
    assert_eq!(split_fields(&c, 0, c.len(), ','), vec![(0, 1), (2, 3), (4, 4), (5, 6)]);
    let empty = chars("");
    assert_eq!(split_fields(&empty, 0, 0, ','), vec![(0, 0)]);
    let only = chars(",");
    assert_eq!(split_fields(&only, 0, 1, ','), vec![(0, 0), (1, 1)]);
    let plain = chars("plain");
    assert_eq!(split_fields(&plain, 0, 5, ','), vec![(0, 5)]);
    let inner = chars("xx1;2xx");
    assert_eq!(split_fields(&inner, 2, 5, ';'), vec![(2, 3), (4, 5)]);
}

#[test]
fn fields_agree_with_the_standard_split() {
    for text in ["", ",", "a", "a,", ",a", "a,b", "a,,b", ",,", "1984,George Orwell,1949"] {
        let c = chars(text);
        let fields: Vec<String> = split_fields(&c, 0, c.len(), ',')
            .into_iter()
            .map(|(from, to)| string_of(&c, from, to))
            .collect();
        let expected: Vec<String> = text.split(',').map(|f| f.to_string()).collect();
        assert_eq!(fields, expected, "{:?}", text);
    }
}

#[test]
fn trimming() {
    let c = chars("  \t 42.5 \r\n");
    let (from, to) = trim(&c, 0, c.len());
    assert_eq!(string_of(&c, from, to), "42.5");
    let blank = chars(" \u{3000} ");
    let (from, to) = trim(&blank, 0, blank.len());
    assert_eq!(string_of(&blank, from, to), "");
    let inner = chars("a b");
    assert_eq!(trim(&inner, 0, 3), (0, 3));
    for text in ["", " ", "x", " x", "x ", " x y ", "\u{A0}x\u{2003}"] {
        let c = chars(text);
        let (from, to) = trim(&c, 0, c.len());
        assert_eq!(string_of(&c, from, to), text.trim(), "{:?}", text);
    }
}

#[test]
fn summary_line_text() {
    assert_eq!(summary_line(3, 2), "Finished checking 3 websites with 2 workers.");
    assert_eq!(summary_line(0, 10), "Finished checking 0 websites with 10 workers.");
    assert_eq!(summary_line(125, 1), "Finished checking 125 websites with 1 workers.");
}

#[test]
fn parity() {
    assert!(is_even(0));
    assert!(is_even(10));
    assert!(is_even(-4));
    assert!(!is_even(3));
    assert!(!is_even(-7));
    assert!(is_even(i32::MIN));
    assert!(!is_even(i32::MAX));
}

#[test]
fn guesses() {
    assert_eq!(check_guess(17, 17), 0);
    assert_eq!(check_guess(20, 17), 1);
    assert_eq!(check_guess(10, 17), -1);
    assert_eq!(check_guess(15, 17), -1);
    assert_eq!(check_guess(i32::MIN, i32::MAX), -1);
    assert_eq!(check_guess(i32::MAX, i32::MIN), 1);
}

#[test]
fn sums_with_a_step() {
    let mut total = 0;
    sum_with_step(&mut total, 0, 100, 1);
    assert_eq!(total, 5050);
    sum_with_step(&mut total, 0, 10, 2);
    assert_eq!(total, 30);
    sum_with_step(&mut total, 5, 15, 3);
    assert_eq!(total, 38);
}

#[test]
fn sums_at_the_edges() {
    let mut total = 77;
    sum_with_step(&mut total, 5, 4, 1);
    assert_eq!(total, 0);
    total = 77;
    sum_with_step(&mut total, 5, 4, 0);
    assert_eq!(total, 0);
    sum_with_step(&mut total, 3, 3, 9);
    assert_eq!(total, 3);
    sum_with_step(&mut total, -3, 3, 1);
    assert_eq!(total, 0);
    sum_with_step(&mut total, i32::MAX - 1, i32::MAX, i32::MAX);
    assert_eq!(total, i32::MAX - 1);
    sum_with_step(&mut total, i32::MIN, i32::MAX, i32::MAX);
    assert_eq!(total, -3);
    sum_with_step(&mut total, -100_000, 100_000, 1);
    assert_eq!(total, 0);
}

#[test]
fn words_of_a_text() {
    assert_eq!(split_words("the quick  brown\tfox\n"), vec!["the", "quick", "brown", "fox"]);
    assert_eq!(split_words(""), Vec::<String>::new());
    assert_eq!(split_words("   "), Vec::<String>::new());
    assert_eq!(split_words("one"), vec!["one"]);
    for text in ["", " a", "a ", " a  b ", "a\u{A0}b", "x\u{2028}y z", "tab\tsep\r\nline"] {
        let expected: Vec<String> = text.split_whitespace().map(|w| w.to_string()).collect();
        assert_eq!(split_words(text), expected, "{:?}", text);
    }
}

#[test]
fn most_frequent_word_of_the_sample() {
    let text = "the quick brown fox jumps over the lazy dog the quick brown fox";
    assert_eq!(most_frequent_word(text), ("the".to_string(), 3));
}

#[test]
fn most_frequent_word_takes_the_first_among_equals() {
    assert_eq!(most_frequent_word("b a a b"), ("b".to_string(), 2));
    assert_eq!(most_frequent_word("a b b a"), ("a".to_string(), 2));
    assert_eq!(most_frequent_word("x y z"), ("x".to_string(), 1));
    assert_eq!(most_frequent_word("solo"), ("solo".to_string(), 1));
    assert_eq!(most_frequent_word("a b b c c c"), ("c".to_string(), 3));
    assert_eq!(most_frequent_word("The the THE the"), ("the".to_string(), 2));
}

#[test]
fn book_lines() {
    assert_eq!(
        parse_book_line("1984,George Orwell,1949"),
        Ok(Book { title: "1984".to_string(), author: "George Orwell".to_string(), year: 1949 })
    );
    assert_eq!(
        parse_book_line(",,0"),
        Ok(Book { title: String::new(), author: String::new(), year: 0 })
    );
    assert_eq!(parse_book_line("a,b,65535").map(|b| b.year), Ok(65535));
}

#[test]
fn lines_that_are_no_books() {
    assert_eq!(parse_book_line(""), Err(LineError::FieldCount));
    assert_eq!(parse_book_line("title,author"), Err(LineError::FieldCount));
    assert_eq!(parse_book_line("a,b,c,1999"), Err(LineError::FieldCount));
    assert_eq!(parse_book_line("a,b,"), Err(LineError::Year));
    assert_eq!(parse_book_line("a,b,nineteen"), Err(LineError::Year));
    assert_eq!(parse_book_line("a,b,65536"), Err(LineError::Year));
    assert_eq!(parse_book_line("a,b, 1999"), Err(LineError::Year));
    assert_eq!(parse_book_line("a,b,-5"), Err(LineError::Year));
}

#[test]
fn book_line_round_trip() {
    let book = Book {
        title: "To Kill a Mockingbird".to_string(),
        author: "Harper Lee".to_string(),
        year: 1960,
    };
    let line = format_book_line(&book);
    assert_eq!(line, "To Kill a Mockingbird,Harper Lee,1960");
    assert_eq!(parse_book_line(&line), Ok(book));
}

#[test]
fn header_rule() {
    assert!(needs_header(false, 0));
    assert!(needs_header(false, 12));
    assert!(needs_header(true, 0));
    assert!(!needs_header(true, 1));
}

#[test]
fn close_field_of_a_quote() {
    let body = "Symbol,Date,Time,Open,High,Low,Close,Volume,Name\nSPY.US,2024-01-02,22:00:10,472.16,473.67,470.49,472.65,123623737,SPDR S&P 500\n";
    assert_eq!(stooq_close_field(body), Some("472.65".to_string()));
    assert_eq!(stooq_close_field("h\r\na,b,c,d,e,f, 1.5 \r\n"), Some("1.5".to_string()));
    assert_eq!(stooq_close_field("h\na,b,c,d,e,f,7"), Some("7".to_string()));
    assert_eq!(stooq_close_field("h\na,b,c,d,e,f,\nx"), Some(String::new()));
}

#[test]
fn quotes_without_a_close_field() {
    assert_eq!(stooq_close_field(""), None);
    assert_eq!(stooq_close_field("only a header"), None);
    assert_eq!(stooq_close_field("header\n"), None);
    assert_eq!(stooq_close_field("header\na,b,c,d,e,f"), None);
    assert_eq!(stooq_close_field("a,b,c,d,e,f,g\n\na,b,c,d,e,f,g"), None);
}

#[test]
fn number_labels() {
    let labels: Vec<NumberKind> =
        [3, 5, 7, 10, 15, 22, 9, 8, 13, 30].iter().map(|&n| classify(n)).collect();
    assert_eq!(
        labels,
        vec![
            NumberKind::Fizz,
            NumberKind::Buzz,
            NumberKind::Odd,
            NumberKind::Buzz,
            NumberKind::FizzBuzz,
            NumberKind::Even,
            NumberKind::Fizz,
            NumberKind::Even,
            NumberKind::Odd,
            NumberKind::FizzBuzz,
        ]
    );
    assert_eq!(classify(0), NumberKind::FizzBuzz);
    assert_eq!(classify(-15), NumberKind::FizzBuzz);
    assert_eq!(classify(-9), NumberKind::Fizz);
    assert_eq!(classify(-10), NumberKind::Buzz);
    assert_eq!(classify(-4), NumberKind::Even);
    assert_eq!(classify(-7), NumberKind::Odd);
}

#[test]
fn sum_and_largest_of_a_list() {
    let numbers = [3, 5, 7, 10, 15, 22, 9, 8, 13, 30];
    assert_eq!(sum_of(&numbers), 122);
    assert_eq!(largest(&numbers), 30);
    assert_eq!(sum_of(&[]), 0);
    assert_eq!(sum_of(&[i32::MAX, i32::MAX, i32::MIN, i32::MIN]), -2);
    assert_eq!(largest(&[-5]), -5);
    assert_eq!(largest(&[-5, -2, -9]), -2);
    assert_eq!(largest(&[i32::MIN, i32::MAX, 0]), i32::MAX);
}
