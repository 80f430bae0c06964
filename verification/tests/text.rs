use flashcard::cli::Cli;
use flashcard::common::time::to_millis;
use flashcard::error::{Error, ErrorKind};
use flashcard::text::{
    chars_of, digit_char, digit_value, lines, parse_u64, push_decimal, split, string_of, subrange,
    trim, words, Separator,
};

fn chars(text: &str) -> Vec<char> {
    text.chars().collect()
}

fn strings(pieces: Vec<Vec<char>>) -> Vec<String> {
    pieces.iter().map(|piece| piece.iter().collect()).collect()
}

#[test]
fn chars_and_strings_hold_the_same() {
    assert_eq!(vec!['h', 'é', '\u{1F600}'], chars_of("hé\u{1F600}"));
    assert_eq!(Vec::<char>::new(), chars_of(""));
    assert_eq!("hé\u{1F600}", string_of(&chars("hé\u{1F600}")));
    assert_eq!("", string_of(&vec![]));
    assert_eq!(chars("cd"), subrange(&chars("abcde"), 2, 4));
    assert_eq!(chars(""), subrange(&chars("abcde"), 5, 5));
}

#[test]
fn split_keeps_empty_pieces() {
    let sep = Separator::Char(';');
    assert_eq!(vec![""], strings(split(&chars(""), sep)));
    assert_eq!(vec!["abc"], strings(split(&chars("abc"), sep)));
    assert_eq!(vec!["a", "", "b", ""], strings(split(&chars("a;;b;"), sep)));
    assert_eq!(vec!["", ""], strings(split(&chars(";"), sep)));
    assert_eq!(
        vec!["", "a", "", "b"],
        strings(split(&chars(" a\t\u{3000}b"), Separator::Whitespace))
    );
    assert!(Separator::Whitespace.is_separator('\n'));
    assert!(!Separator::Whitespace.is_separator('_'));
    assert!(Separator::Char('_').is_separator('_'));
    assert!(!Separator::Char('_').is_separator(' '));
}

#[test]
fn lines_end_with_line_feeds() {
    assert_eq!(Vec::<String>::new(), strings(lines(&chars(""))));
    assert_eq!(vec!["a"], strings(lines(&chars("a"))));
    assert_eq!(vec!["a"], strings(lines(&chars("a\n"))));
    assert_eq!(vec!["a", "", "b"], strings(lines(&chars("a\n\nb"))));
    assert_eq!(vec!["a", "b\r"], strings(lines(&chars("a\r\nb\r"))));
    assert_eq!(vec!["a\r", "", ""], strings(lines(&chars("a\r\r\n\r\n\n"))));
    assert_eq!(vec![""], strings(lines(&chars("\n"))));
}

#[test]
fn trim_takes_whitespace_from_both_ends() {
    assert_eq!("a b", string_of(&trim(&chars(" \t a b\r\n\u{2003}"))));
    assert_eq!("", string_of(&trim(&chars(" \t "))));
    assert_eq!("", string_of(&trim(&chars(""))));
    assert_eq!("_", string_of(&trim(&chars("_"))));
}

#[test]
fn words_are_parted_by_whitespace() {
    assert_eq!(vec!["a", "bc", "d"], strings(words(&chars("  a bc\t\nd "))));
    assert_eq!(Vec::<String>::new(), strings(words(&chars("   "))));
    assert_eq!(Vec::<String>::new(), strings(words(&chars(""))));
}

#[test]
fn numbers_are_read_as_rust_reads_them() {
    for text in ["0", "1", "007", "+5", "+0", "18446744073709551615", "0018446744073709551615"] {
        assert_eq!(text.parse::<u64>().ok(), parse_u64(&chars(text)), "{}", text);
        assert!(parse_u64(&chars(text)).is_some());
    }
    for text in [
        "",
        "+",
        "-",
        "-0",
        "++1",
        "1+",
        " 1",
        "1 ",
        "1_000",
        "0x10",
        "1.0",
        "18446744073709551616",
        "99999999999999999999",
        "184467440737095516150",
        "٣",
    ] {
        assert_eq!(None, text.parse::<u64>().ok(), "{}", text);
        assert_eq!(None, parse_u64(&chars(text)), "{}", text);
    }
    assert_eq!(Some(42), parse_u64(&chars("42")));
}

#[test]
fn numbers_are_written_as_rust_writes_them() {
    for n in [0, 1, 9, 10, 11, 99, 100, 1234567890, u64::MAX / 10, u64::MAX - 1, u64::MAX] {
        let mut out = chars("n=");
        push_decimal(&mut out, n);
        assert_eq!(format!("n={}", n), string_of(&out));
        assert_eq!(Some(n), parse_u64(&out[2..].to_vec()));
    }
    for d in 0..10 {
        assert_eq!(Some(d), digit_value(digit_char(d)));
        assert_eq!(Some(digit_char(d)), std::char::from_digit(d as u32, 10));
    }
    assert_eq!(None, digit_value('a'));
    assert_eq!(None, digit_value('/'));
    assert_eq!(None, digit_value(':'));
}

#[test]
fn milliseconds_count_seconds_and_their_parts() {
    assert_eq!(Some(0), to_millis(0, 0));
    assert_eq!(Some(1_560_000_000_123), to_millis(1_560_000_000, 123));
    assert_eq!(Some(u64::MAX), to_millis(18_446_744_073_709_551, 615));
    assert_eq!(None, to_millis(18_446_744_073_709_551, 616));
    assert_eq!(None, to_millis(18_446_744_073_709_552, 0));
    assert_eq!(None, to_millis(u64::MAX, 0));
}

#[test]
fn errors_tell_their_kind() {
    assert_eq!(ErrorKind::Validation, Error::InvalidStage.kind());
    assert_eq!(ErrorKind::Validation, Error::EmptyStage.kind());
    assert_eq!(ErrorKind::DataIntegrity, Error::CorruptStage.kind());
    assert_eq!(ErrorKind::DataIntegrity, Error::MalformedRecord.kind());
    assert_eq!(ErrorKind::Clock, Error::Clock.kind());
    assert_eq!("error: invalid stage", Error::InvalidStage.message());
    assert_eq!("error: no flashcard in this stage", Error::EmptyStage.message());
    assert_eq!("error: invalid stage in progress database", Error::CorruptStage.message());
    assert_eq!("error: malformed record in progress database", Error::MalformedRecord.message());
    assert_eq!("error determining system time", Error::Clock.message());
}

#[test]
fn cli_holds_the_filepath() {
    let cli = Cli::new(String::from("./sample_box.txt"));
    assert_eq!("./sample_box.txt", cli.filepath());
}
