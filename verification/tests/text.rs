use ffmpeg_aui2::text::{decimal, hex, is_white_space, lines, lowercased, parse_number, trimmed};

fn chars(text: &str) -> Vec<char> {
    text.chars().collect()
}

fn text(chars: Vec<char>) -> String {
    chars.into_iter().collect()
}

#[test]
fn white_space_is_that_of_unicode() {
    for code in 0..=0x10ffffu32 {
        if let Some(c) = char::from_u32(code) {
            assert_eq!(is_white_space(c), c.is_whitespace());
        }
    }
}

#[test]
fn texts_are_cut_as_strings_are() {
    for sample in ["", "\n", "a", "a\n", "a\r\n\r\nb\r", "\r", "a\n\nb", "x\ry\nz\n\n", "\r\n"] {
        let found: Vec<String> = lines(&chars(sample)).into_iter().map(text).collect();
        let expected: Vec<String> = sample.lines().map(|line| line.to_string()).collect();
        assert_eq!(found, expected);
        assert_eq!(text(trimmed(&chars(sample))), sample.trim());
    }
    for sample in ["AbZ", "[@`{", "\u{c4}\u{3b1}Q", "0-9"] {
        assert_eq!(text(lowercased(&chars(sample))), sample.to_ascii_lowercase());
    }
}

#[test]
fn numbers_are_read_as_strings_are() {
    for sample in ["0", "+0", "-0", "", "+", "++1", "18446744073709551615", "18446744073709551616",
        "99999999999999999999999", "12a", "\u{661}", "007"] {
        assert_eq!(parse_number(&chars(sample), u64::MAX), sample.parse::<u64>().ok());
    }
    assert_eq!(parse_number(&chars("300"), 255), None);
    assert_eq!(parse_number(&chars("255"), 255), Some(255));
}

#[test]
fn numbers_are_written_as_strings_are() {
    for n in [0, 9, 10, 99, 12345, u64::MAX] {
        assert_eq!(text(decimal(n)), format!("{n}"));
        assert_eq!(text(hex(n, 16)), format!("{n:016x}"));
        assert_eq!(parse_number(&decimal(n), u64::MAX), Some(n));
    }
    assert_eq!(text(hex(0x1a2b, 2)), "2b");
}
