use beebo::text::{decimal_chars, lines_of, parse_uint, trim_chars, words_of};

fn chars(s: &str) -> Vec<char> {
    s.chars().collect()
}

fn strs(v: Vec<Vec<char>>) -> Vec<String> {
    v.into_iter().map(|c| c.into_iter().collect()).collect()
}

const SAMPLES: &[&str] = &[
    "",
    "\n",
    "\r\n",
    "a",
    "a\n",
    "a\r\nb",
    "a\n\nb\n",
    "a\rb\n",
    "  lead and trail \t",
    "\u{a0}nbsp\u{2003}em\u{3000}",
    "x\r",
    "line1\nline2\r\n\r\nline4",
    " \u{85} next-line ",
    "tab\tseparated\u{0b}vt\u{0c}ff",
    "ünïcödé wörds  ",
];

#[test]
fn lines_agree_with_str_lines() {
    for s in SAMPLES {
        let want: Vec<String> = s.lines().map(|l| l.to_string()).collect();
        assert_eq!(strs(lines_of(&chars(s))), want, "{s:?}");
    }
}

#[test]
fn words_agree_with_split_whitespace() {
    for s in SAMPLES {
        let want: Vec<String> = s.split_whitespace().map(|w| w.to_string()).collect();
        assert_eq!(strs(words_of(&chars(s))), want, "{s:?}");
    }
}

#[test]
fn trim_agrees_with_str_trim() {
    for s in SAMPLES {
        let got: String = trim_chars(&chars(s)).into_iter().collect();
        assert_eq!(got, s.trim(), "{s:?}");
    }
}

#[test]
fn unsigned_parsing_agrees_with_str_parse() {
    let cases = [
        "0", "7", "+7", "-7", "", "+", "00012", "65535", "65536", "18446744073709551615",
        "18446744073709551616", "1_000", " 1", "1 ", "١٢", "12a",
    ];
    for s in cases {
        assert_eq!(parse_uint(&chars(s), u64::MAX), s.parse::<u64>().ok(), "{s:?}");
        assert_eq!(
            parse_uint(&chars(s), 65535),
            s.parse::<u16>().ok().map(|v| v as u64),
            "{s:?}"
        );
        assert_eq!(parse_uint(&chars(s), 255), s.parse::<u8>().ok().map(|v| v as u64), "{s:?}");
    }
}

#[test]
fn decimal_agrees_with_to_string() {
    for n in [0u64, 1, 9, 10, 99, 100, 12345, u32::MAX as u64, u64::MAX] {
        let got: String = decimal_chars(n).into_iter().collect();
        assert_eq!(got, n.to_string());
    }
}
