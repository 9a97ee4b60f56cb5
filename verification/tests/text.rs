use coding_agent::base64::base64_encode;
use coding_agent::image::{is_image_file, media_type_for_path, pasted_path};
use coding_agent::text::{replace_all, split_lines, split_words, trim, white_space};
use coding_agent::tokens::{context_percent, format_limit, format_tokens, usage_label};
use coding_agent::wrap::wrap_with_prefix;

#[test]
fn white_space_is_that_of_chars() {
    for c in '\0'..=char::MAX {
        assert_eq!(white_space(c), c.is_whitespace(), "{:?}", c);
    }
}

#[test]
fn strings_are_cut_as_by_std() {
    for s in ["", "\n", "a", "a\r\nb\n\nc\r", " \u{a0}x y\u{3000}", "\r\n\r", "a\n\r\nb\n"] {
        assert_eq!(split_lines(s), s.lines().map(|l| l.to_string()).collect::<Vec<_>>());
        assert_eq!(trim(s), s.trim());
        assert_eq!(
            split_words(s),
            s.split_whitespace().map(|w| w.to_string()).collect::<Vec<_>>()
        );
        for pat in ["", "a", "\r\n", "x y"] {
            assert_eq!(replace_all(s, pat, "-"), s.replace(pat, "-"));
        }
    }
    assert_eq!(replace_all("aaa", "aa", "b"), "aaa".replace("aa", "b"));
}

fn by_float(n: u64) -> String {
    if n >= 1_000_000 {
        format!("{:.1}M", n as f64 / 1_000_000.0)
    } else if n >= 1_000 {
        format!("{:.1}k", n as f64 / 1_000.0)
    } else {
        format!("{}", n)
    }
}

#[test]
fn tokens_are_shown_as_floats_round() {
    for n in 0..200_000u64 {
        assert_eq!(format_tokens(n), by_float(n));
    }
    let mut n: u64 = 1;
    for i in 0..200_000u64 {
        n = n.wrapping_mul(6364136223846793005).wrapping_add(i | 1);
        for m in [n, n >> 20, n >> 40, n >> 43, n >> 45] {
            assert_eq!(format_tokens(m), by_float(m));
        }
    }
    for n in [999_949, 999_950, 999_999, 1_000_000, 1_250_000, 1_350_000, u64::MAX, 1 << 53, (1 << 53) + 1] {
        assert_eq!(format_tokens(n), by_float(n));
    }
    assert_eq!(format_tokens(999), "999");
    assert_eq!(format_tokens(1_250), "1.2k");
    assert_eq!(format_tokens(1_350), "1.4k");
    assert_eq!(format_tokens(999_999), "1000.0k");
    assert_eq!(format_tokens(1_500_000), "1.5M");
}

#[test]
fn limits_are_shown_short() {
    assert_eq!(format_limit(128_000), "128k");
    assert_eq!(format_limit(128_500), "128.5k");
    assert_eq!(format_limit(1_000_000), "1.0M");
    assert_eq!(format_limit(999), "999");
}

#[test]
fn percents_are_as_floats_round() {
    let by_float = |n: u64, limit: u64| -> String {
        format!("{:.0}", (n as f64 / limit as f64 * 100.0).min(100.0))
    };
    for limit in [1, 2, 3, 7, 8, 40, 200, 1000, 128_000, 99_999] {
        for n in 0..2_000u64 {
            assert_eq!(context_percent(n, limit).to_string(), by_float(n, limit));
        }
    }
    let mut n: u64 = 7;
    for i in 0..100_000u64 {
        n = n.wrapping_mul(6364136223846793005).wrapping_add(i | 1);
        let limit = (n.rotate_left(23) >> (i % 40)).max(1);
        for m in [n, n >> 10, n >> 33, limit / 2, limit - limit / 200] {
            assert_eq!(context_percent(m, limit).to_string(), by_float(m, limit), "{} {}", m, limit);
        }
    }
    assert_eq!(context_percent(u64::MAX, 1), 100);
    assert_eq!(context_percent(1, u64::MAX), 0);
    assert_eq!(context_percent(1, 200), 0);
    assert_eq!(context_percent(3, 200), 2);
}

#[test]
fn usage_is_told_as_documented() {
    assert_eq!(usage_label(12_300, 128_000, 1_200), "ctx:12.3k/128k (10%) · out:1.2k ");
    assert_eq!(usage_label(0, 128_000, 0), "ctx:0/128k (0%) · out:0 ");
    assert_eq!(usage_label(5, 0, 7), "ctx:5 · out:7 ");
    assert_eq!(usage_label(0, 0, 7), "");
}

fn wrapped_word_by_word(text: &str, prefix: &str, max_width: usize) -> Vec<String> {
    let mut out = Vec::new();
    let inner = max_width.saturating_sub(prefix.chars().count());
    for line in text.lines() {
        let mut current = String::new();
        if inner > 0 {
            for word in line.split_inclusive(' ') {
                let mut rest: Vec<char> = word.chars().collect();
                if current.chars().count() + rest.len() > inner && !current.is_empty() {
                    out.push(format!("{}{}", prefix, current));
                    current.clear();
                }
                while rest.len() > inner {
                    let row: String = rest.drain(..inner).collect();
                    out.push(format!("{}{}", prefix, row));
                }
                current.extend(rest);
            }
        }
        if !current.is_empty() || line.is_empty() || inner == 0 {
            out.push(format!("{}{}", prefix, current));
        }
    }
    if out.is_empty() {
        out.push(prefix.to_string());
    }
    out
}

#[test]
fn texts_are_wrapped_word_by_word() {
    let texts = [
        "",
        "\n",
        "one two three",
        "averyverylongword short",
        "a  b   c    d",
        "trailing \n\n indented\r\nlast",
        "αβγδε ζηθ",
        "exactly 8 wide",
        "     ",
        "ab cdefghijk lm",
    ];
    for text in texts {
        for prefix in ["", "  ", " │ "] {
            for width in 0..20 {
                assert_eq!(
                    wrap_with_prefix(text, prefix, width),
                    wrapped_word_by_word(text, prefix, width),
                    "{:?} {:?} {}",
                    text,
                    prefix,
                    width
                );
            }
        }
    }
    assert_eq!(wrap_with_prefix("one two three", "> ", 9), vec!["> one ", "> two ", "> three"]);
    assert_eq!(wrap_with_prefix("abcdefg h", "", 3), vec!["abc", "def", "g h"]);
    assert_eq!(wrap_with_prefix("a\nb", " │ ", 3), vec![" │ ", " │ "]);
}

#[test]
fn wrapped_rows_hold_the_line() {
    let line = "the quick  brownfoxjumpsover the lazy dog ";
    for width in 1..50 {
        let rows = wrap_with_prefix(line, "", width);
        assert_eq!(rows.concat(), line);
        assert!(rows.iter().all(|row| row.chars().count() <= width));
    }
}

fn decoded(text: &str) -> Vec<u8> {
    let alphabet = "ABCDEFGHIJKLMNOPQRSTUVWXYZabcdefghijklmnopqrstuvwxyz0123456789+/";
    let mut bits: u32 = 0;
    let mut count = 0;
    let mut out = Vec::new();
    for c in text.chars().filter(|c| *c != '=') {
        bits = (bits << 6) | alphabet.find(c).unwrap() as u32;
        count += 6;
        if count >= 8 {
            count -= 8;
            out.push((bits >> count) as u8);
            bits &= (1 << count) - 1;
        }
    }
    out
}

#[test]
fn bytes_are_encoded() {
    assert_eq!(base64_encode(b""), "");
    assert_eq!(base64_encode(b"f"), "Zg==");
    assert_eq!(base64_encode(b"fo"), "Zm8=");
    assert_eq!(base64_encode(b"foo"), "Zm9v");
    assert_eq!(base64_encode(b"foobar"), "Zm9vYmFy");
    assert_eq!(base64_encode(&[0xfb, 0xff, 0xfe]), "+//+");
    let data: Vec<u8> = (0..=255).chain(0..100).collect();
    for n in 0..data.len() {
        let text = base64_encode(&data[..n]);
        assert_eq!(decoded(&text), data[..n].to_vec());
        assert_eq!(text.len(), (n + 2) / 3 * 4);
    }
}

#[test]
fn images_are_known_by_their_endings() {
    for (path, media) in [
        ("a.png", "image/png"),
        ("A.PNG", "image/png"),
        ("x/y.JpG", "image/jpeg"),
        ("y.jpeg", "image/jpeg"),
        ("y.gif", "image/gif"),
        ("y.webp", "image/webp"),
        ("y.bmp", "image/bmp"),
    ] {
        assert!(is_image_file(path));
        assert_eq!(media_type_for_path(path), media);
    }
    for path in ["", "png", "a.pn", "a.png ", "a.jpegx", "a.g\u{130}f"] {
        assert!(!is_image_file(path));
        assert_eq!(media_type_for_path(path), "image/bmp");
    }
}

#[test]
fn endings_are_compared_as_small_letters() {
    for ending in [".png", ".jpg", ".jpeg", ".gif", ".webp", ".bmp"] {
        for c in '\0'..=char::MAX {
            let lower: String = c.to_lowercase().collect();
            if c.is_ascii() || lower.chars().any(|l| ending.contains(l)) {
                for at in 0..ending.len() {
                    let path = format!("{}{}{}", &ending[..at], c, &ending[at + 1..]);
                    let by_std = path.to_lowercase();
                    let expected = [".png", ".jpg", ".jpeg", ".gif", ".webp", ".bmp"]
                        .iter()
                        .any(|e| by_std.ends_with(e));
                    assert_eq!(is_image_file(&path), expected, "{:?}", path);
                }
            }
        }
    }
}

#[test]
fn pasted_paths_are_bared() {
    assert_eq!(pasted_path(" file:///tmp/a.png\n"), "/tmp/a.png");
    assert_eq!(pasted_path("file://file://a"), "a");
    assert_eq!(pasted_path("\"/tmp/a b.png\""), "/tmp/a b.png");
    assert_eq!(pasted_path("\"'a'\""), "a");
    assert_eq!(pasted_path("'\"a\"'"), "\"a\"");
    assert_eq!(pasted_path("\"\"\""), "");
}
