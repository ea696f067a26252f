use rust_proxy::text::number::{parse_usize, to_decimal};
use rust_proxy::text::scan::{
    chars_of, has_prefix, is_whitespace, replacen_once, same_text, slice_of, split_once,
    split_whitespace, strip_prefix, trim,
};

const SAMPLES: [&str; 12] = [
    "",
    " ",
    "a",
    " a b  c ",
    "\tGET /x\u{a0}HTTP/1.1 \r",
    "x:y:z",
    ":",
    "http://a/?u=http://b",
    "\u{3000}wide\u{2003}space\u{2029}",
    "caf\u{e9}:\u{1f600} ",
    "HTTP://A",
    "no",
];

#[test]
fn white_space_is_unicode_white_space() {
    for u in 0..=0x10ffffu32 {
        if let Some(c) = char::from_u32(u) {
            assert_eq!(is_whitespace(c), c.is_whitespace(), "{u:x}");
        }
    }
}

#[test]
fn scanning_agrees_with_the_standard_library() {
    for s in SAMPLES {
        assert_eq!(chars_of(s), s.chars().collect::<Vec<char>>());
        assert_eq!(trim(s), s.trim());
        assert_eq!(split_whitespace(s), s.split_whitespace().collect::<Vec<&str>>());
        assert_eq!(
            split_once(s, ':'),
            s.split_once(':').map(|(a, b)| (a.to_string(), b.to_string()))
        );
        for p in SAMPLES {
            assert_eq!(has_prefix(s, p), s.starts_with(p));
            assert_eq!(strip_prefix(s, p), s.strip_prefix(p).map(str::to_string));
            assert_eq!(same_text(s, p), s == p);
            assert_eq!(replacen_once(s, p, "<>"), s.replacen(p, "<>", 1));
        }
    }
    assert_eq!(slice_of("caf\u{e9}s", 2, 4), "f\u{e9}");
}

#[test]
fn replacing_takes_the_first_occurrence() {
    assert_eq!(
        replacen_once("http://a/?u=http://b", "http://", "https://"),
        "https://a/?u=http://b"
    );
    assert_eq!(replacen_once("HTTP://a", "http://", "https://"), "HTTP://a");
}

#[test]
fn numbers_agree_with_the_standard_library() {
    let texts = [
        "",
        "+",
        "-",
        "-0",
        "0",
        "007",
        "+12",
        "++1",
        "12a",
        " 12",
        "1_000",
        "18446744073709551615",
        "18446744073709551616",
        "99999999999999999999999",
        "\u{0661}",
    ];
    for s in texts {
        assert_eq!(parse_usize(s), s.parse::<usize>().ok(), "{s}");
    }
    for n in [0u64, 9, 10, 65536, 1234567890, u64::MAX] {
        assert_eq!(to_decimal(n), n.to_string());
    }
}
