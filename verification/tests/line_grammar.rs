use blocklist_aggregator::hostname::{
    chars_of, continues_at, extract_hostname, find_host, label_char, scan_spaces, space_char,
};
use regex::Regex;

fn pattern() -> Regex {
    Regex::new(
        r"(?x)
            ^\s*
            (?:\|\|)?
            (?:(?:0\.0\.0\.0|127\.0\.0\.1)\s+)?
            ([a-zA-Z0-9-]+(?:\.[a-zA-Z0-9-]+)*)
            (?:\^)?
        ",
    )
    .unwrap()
}

fn by_pattern(re: &Regex, line: &str) -> Option<String> {
    re.captures(line).map(|caps| caps[1].to_string())
}

fn host(line: &str) -> Option<String> {
    extract_hostname(line)
}

fn some(s: &str) -> Option<String> {
    Some(s.to_string())
}

#[test]
fn hosts_file_line_gives_its_hostname() {
    assert_eq!(host("0.0.0.0 ads.example.com"), some("ads.example.com"));
    assert_eq!(host("127.0.0.1 ads.example.com"), some("ads.example.com"));
    assert_eq!(host("0.0.0.0\t \tads.example.com"), some("ads.example.com"));
}

#[test]
fn adblock_line_gives_its_hostname() {
    assert_eq!(host("||tracker.example.net^"), some("tracker.example.net"));
    assert_eq!(host("||tracker.example.net"), some("tracker.example.net"));
    assert_eq!(host("||tracker.example.net^$third-party"), some("tracker.example.net"));
}

#[test]
fn bare_hostname_is_read() {
    assert_eq!(host("example.com"), some("example.com"));
    assert_eq!(host("   example.com"), some("example.com"));
    assert_eq!(host("example.com^"), some("example.com"));
    assert_eq!(host("a-1.b-2.example.co.uk"), some("a-1.b-2.example.co.uk"));
}

#[test]
fn a_hostname_of_one_label_is_read() {
    assert_eq!(host("localhost"), some("localhost"));
    assert_eq!(host("0.0.0.0 localhost"), some("localhost"));
    assert_eq!(host("127.0.0.1 localhost"), some("localhost"));
    assert_eq!(host("||localhost^"), some("localhost"));
    assert_eq!(host("  ||127.0.0.1 \t broadcasthost^ rest"), some("broadcasthost"));
    assert_eq!(host("a"), some("a"));
    assert_eq!(host("-"), some("-"));
    assert_eq!(host("hello world"), some("hello"));
    assert_eq!(host("fe80::1%lo0 localhost"), some("fe80"));
}

#[test]
fn every_prefix_and_suffix_may_be_combined() {
    assert_eq!(host(" \t||0.0.0.0  ads.example.com^"), some("ads.example.com"));
    assert_eq!(host("||127.0.0.1 ads.example.com^ rest"), some("ads.example.com"));
    assert_eq!(host("\u{a0}\u{3000}||ads.example.com^"), some("ads.example.com"));
}

#[test]
fn comment_and_blank_lines_have_no_hostname() {
    assert_eq!(host("# comment"), None);
    assert_eq!(host("#example.com"), None);
    assert_eq!(host("! example.com"), None);
    assert_eq!(host("[Adblock Plus 2.0]"), None);
    assert_eq!(host(""), None);
    assert_eq!(host("   "), None);
    assert_eq!(host("\t"), None);
}

#[test]
fn lines_of_another_shape_have_no_hostname() {
    assert_eq!(host(".example.com"), None);
    assert_eq!(host("|example.com"), None);
    assert_eq!(host("|||example.com"), None);
    assert_eq!(host("@@||example.com^"), None);
    assert_eq!(host("/ads/banner.js"), None);
    assert_eq!(host("::1 ip6-localhost.example"), None);
    assert_eq!(host("*.example.com"), None);
    assert_eq!(host("|| example.com"), None);
    assert_eq!(host("^example.com"), None);
}

#[test]
fn only_the_first_token_is_read() {
    assert_eq!(host("first.example.com second.example.com"), some("first.example.com"));
    assert_eq!(host("example.com # a remark"), some("example.com"));
    assert_eq!(host("0.0.0.0 one.example two.example"), some("one.example"));
    assert_eq!(host("example.com/path"), some("example.com"));
    assert_eq!(host("example.com_x"), some("example.com"));
}

#[test]
fn case_is_kept_as_written() {
    assert_eq!(host("0.0.0.0 Ads.Example.COM"), some("Ads.Example.COM"));
    assert_eq!(host("||EXAMPLE.com^"), some("EXAMPLE.com"));
}

#[test]
fn labels_are_never_empty() {
    assert_eq!(host("example.com."), some("example.com"));
    assert_eq!(host("example."), some("example"));
    assert_eq!(host("a..b"), some("a"));
    assert_eq!(host("a.b."), some("a.b"));
    assert_eq!(host("a.b..^"), some("a.b"));
    assert_eq!(host("a.b..c"), some("a.b"));
    assert_eq!(host("a.-"), some("a.-"));
    assert_eq!(host("-.a"), some("-.a"));
    assert_eq!(host("a.b.^x"), some("a.b"));
    assert_eq!(host("0.0.0.0 x..y"), some("x"));
}

#[test]
fn address_without_hostname_behind_it_is_the_hostname() {
    assert_eq!(host("0.0.0.0 # nothing"), some("0.0.0.0"));
    assert_eq!(host("0.0.0.0 "), some("0.0.0.0"));
    assert_eq!(host("0.0.0.0"), some("0.0.0.0"));
    assert_eq!(host("127.0.0.1"), some("127.0.0.1"));
    assert_eq!(host("0.0.0.0 ||example.com"), some("0.0.0.0"));
    assert_eq!(host("0.0.0.0.example.com"), some("0.0.0.0.example.com"));
    assert_eq!(host("0.0.0.0example.com"), some("0.0.0.0example.com"));
    assert_eq!(host("10.0.0.1 example.com"), some("10.0.0.1"));
}

#[test]
fn address_before_another_hostname_is_a_prefix() {
    assert_eq!(host("0.0.0.0 0.0.0.0"), some("0.0.0.0"));
    assert_eq!(host("0.0.0.0 127.0.0.1 example.com"), some("127.0.0.1"));
    assert_eq!(host("||0.0.0.0 example.com"), some("example.com"));
    assert_eq!(host("0.0.0.0 other.example"), some("other.example"));
    assert_eq!(host("  ||127.0.0.1 other.example"), some("other.example"));
}

#[test]
fn white_space_inside_the_line() {
    assert_eq!(host("\r\nexample.com"), some("example.com"));
    assert_eq!(host("0.0.0.0\u{2003}example.com"), some("example.com"));
    assert_eq!(host("0.0.0.0\u{200b}example.com"), some("0.0.0.0"));
    assert_eq!(host("\u{200b}example.com"), None);
    assert_eq!(host("exam\u{e9}ple.com"), some("exam"));
    assert_eq!(host("\u{e9}.example.com"), None);
    assert_eq!(host(" \u{1680}a.b\u{e9}"), some("a.b"));
}

#[test]
fn white_space_is_the_unicode_property() {
    let re = Regex::new(r"^\s$").unwrap();
    let mut buf = [0u8; 4];
    let mut count = 0;
    for code in 0u32..0x11000 {
        if let Some(c) = char::from_u32(code) {
            let s: &str = c.encode_utf8(&mut buf);
            assert_eq!(space_char(c), re.is_match(s), "U+{:04X}", code);
            assert_eq!(space_char(c), c.is_whitespace(), "U+{:04X}", code);
            if space_char(c) {
                count += 1;
            }
        }
    }
    assert_eq!(count, 25);
}

#[test]
fn label_characters() {
    for c in "abcxyzABCXYZ0189-".chars() {
        assert!(label_char(c));
        assert!(!space_char(c));
    }
    for c in "._^|/ @`{[:\u{e9}".chars() {
        assert!(!label_char(c));
    }
}

#[test]
fn runs_and_spans() {
    let v = chars_of("  ab.c d");
    assert_eq!(v, vec![' ', ' ', 'a', 'b', '.', 'c', ' ', 'd']);
    assert_eq!(scan_spaces(&v, 0), 2);
    assert_eq!(scan_spaces(&v, 2), 2);
    assert_eq!(scan_spaces(&v, 6), 7);
    assert_eq!(scan_spaces(&v, 8), 8);
    assert_eq!(scan_spaces(&v, 9), 9);
    assert!(!continues_at(&v, 1));
    assert!(continues_at(&v, 2));
    assert!(continues_at(&v, 4));
    assert!(continues_at(&v, 5));
    assert!(!continues_at(&v, 6));
    assert!(continues_at(&v, 7));
    assert!(!continues_at(&v, 8));
    assert!(!continues_at(&v, 9));
    let w = chars_of("a..b.");
    assert!(continues_at(&w, 0));
    assert!(!continues_at(&w, 1));
    assert!(continues_at(&w, 2));
    assert!(continues_at(&w, 3));
    assert!(!continues_at(&w, 4));
    assert_eq!(find_host(&v), Some((2, 6)));
    assert_eq!(find_host(&w), Some((0, 1)));
    assert_eq!(find_host(&chars_of("# ab.c")), None);
    assert_eq!(find_host(&chars_of("\u{e9}\u{e9}")), None);
    assert_eq!(find_host(&chars_of("\u{3000}||0.0.0.0 \u{a0}x.y^")), Some((12, 15)));
    assert_eq!(find_host(&chars_of("0.0.0.0 localhost")), Some((8, 17)));
}

fn reads_as_prefixed(tail: &str) -> bool {
    tail == "0.0.0.0 other.example" || tail == "127.0.0.1 other.example"
}

#[test]
fn written_lines_read_back() {
    let blanks = ["", " ", "\t  ", "\u{a0}"];
    let bars = ["", "||"];
    let addresses = ["", "0.0.0.0 ", "127.0.0.1\t", "0.0.0.0  \t "];
    let hosts = ["a", "localhost", "a.b", "ads.example.com", "X-1.y--2.Z", "9.9", "0.0.0.0", "127.0.0.1"];
    let trails = [
        "", "^", "^$third-party", " # remark", "/path", "^.x", ":80", " other.example", ".", "..x", "._",
    ];
    let mut checked = 0;
    for blank in blanks {
        for bar in bars {
            for address in addresses {
                for h in hosts {
                    for trail in trails {
                        let tail = format!("{}{}", h, trail);
                        if address.is_empty() && reads_as_prefixed(&tail) {
                            continue;
                        }
                        let line = format!("{}{}{}{}", blank, bar, address, tail);
                        assert_eq!(host(&line), some(h), "{:?}", line);
                        checked += 1;
                    }
                }
            }
        }
    }
    assert_eq!(checked, 4 * 2 * 4 * 8 * 11 - 4 * 2 * 2);
}

#[test]
fn bare_address_before_a_hostname_reads_as_prefix() {
    assert_eq!(host("0.0.0.0 other.example"), some("other.example"));
    assert_eq!(host("127.0.0.1 localhost"), some("localhost"));
}

#[test]
fn agrees_with_the_pattern_on_chosen_lines() {
    let re = pattern();
    let lines = [
        "0.0.0.0 ads.example.com",
        "||tracker.example.net^",
        "# comment",
        "",
        "localhost",
        "127.0.0.1 localhost",
        "127.0.0.1  localhost.localdomain",
        "0.0.0.0 0.0.0.0",
        "::1 localhost",
        "fe80::1%lo0 localhost",
        "255.255.255.255 broadcasthost",
        "||example.com^$third-party",
        "@@||example.com^",
        "/^https?:\\/\\/example\\.com/",
        "example.com##.ad",
        "*.example.com",
        "||*.example.com^",
        "0.0.0.0 example.com # remark",
        "0.0.0.0\texample.com",
        "0.0.0.0\u{a0}example.com",
        "0.0.0.0\u{200b}example.com",
        " \r\n\t||0.0.0.0 \u{2028}a.b^",
        "127.0.0.1\u{85}a.b",
        "0.0.0.0 \u{e9}.com",
        "xn--bcher-kva.example",
        "a.b.c.d.e.f.g",
        "a.",
        ".a",
        "a..",
        "a..b",
        "example.com.",
        "-.-",
        "0.0.0.0.",
        "0.0.0.0 .",
        "0.0.0.0 -.",
        "127.0.0.1x a.b",
        "127.0.0.10 a.b",
        "|| a.b",
        "||0.0.0.0 || a.b",
        "\u{feff}0.0.0.0 a.b",
        "server=/example.com/0.0.0.0",
        "address=/example.com/::",
        "local-zone: \"example.com\" redirect",
    ];
    for line in lines {
        assert_eq!(host(line), by_pattern(&re, line), "{:?}", line);
    }
}

#[test]
fn agrees_with_the_pattern_on_every_short_line() {
    let re = pattern();
    let alphabet = ['a', 'Z', '0', '1', '2', '7', '.', '-', ' ', '\t', '|', '^', '#', '\u{a0}', '\u{e9}'];
    let mut lines: Vec<String> = vec![String::new()];
    let mut from = 0;
    for _ in 0..4 {
        let upto = lines.len();
        for i in from..upto {
            for c in alphabet {
                let mut s = lines[i].clone();
                s.push(c);
                lines.push(s);
            }
        }
        from = upto;
    }
    assert_eq!(lines.len(), 1 + 15 + 225 + 3375 + 50625);
    for line in &lines {
        assert_eq!(host(line), by_pattern(&re, line), "{:?}", line);
    }
}

#[test]
fn agrees_with_the_pattern_behind_every_prefix() {
    let re = pattern();
    let prefixes = [
        "0.0.0.0", "0.0.0.0 ", "127.0.0.1", "127.0.0.1 ", "||", "||0.0.0.0 ", " ||127.0.0.1\t",
        "0.0.0.", "127.0.0.", "a.b", "a.", "||a",
    ];
    let alphabet = ['a', '0', '.', '-', ' ', '|', '^', '#', '\n', '\r'];
    let mut tails: Vec<String> = vec![String::new()];
    let mut from = 0;
    for _ in 0..4 {
        let upto = tails.len();
        for i in from..upto {
            for c in alphabet {
                let mut s = tails[i].clone();
                s.push(c);
                tails.push(s);
            }
        }
        from = upto;
    }
    for prefix in prefixes {
        for tail in &tails {
            let line = format!("{}{}", prefix, tail);
            assert_eq!(host(&line), by_pattern(&re, &line), "{:?}", line);
        }
    }
}

#[test]
fn line_without_a_label_character_has_no_hostname() {
    let lines = ["", "   ", "####", "...", "|", "||", "^^", "._.", "\u{e9}\u{4e2d}", " \t.", "||^", "# !", "[]"];
    for line in lines {
        assert!(!line.chars().any(label_char), "{:?}", line);
        assert_eq!(host(line), None, "{:?}", line);
    }
}
