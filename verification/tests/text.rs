//! Texts, numbers and paths, held against the standard library.

use owl_player::path;
use owl_player::text;
use owl_player::time;
use std::path::Path;

fn chars(s: &str) -> Vec<char> {
    s.chars().collect()
}

fn string(c: &[char]) -> String {
    c.iter().collect()
}

#[test]
fn white_space_is_unicode_white_space() {
    for u in 0..=0x10ffffu32 {
        if let Some(c) = char::from_u32(u) {
            assert_eq!(text::is_white_space(c), c.is_whitespace(), "{u:x}");
        }
    }
}

#[test]
fn trimming_is_the_standard_one() {
    for s in ["", " ", "a", " a ", "\t\na b\u{2003}", "\u{a0}x", "x\u{85}"] {
        assert_eq!(string(&text::trimmed(&chars(s))), s.trim());
        let once = text::trimmed(&chars(s));
        assert_eq!(text::trimmed(&once), once);
    }
}

#[test]
fn numbers_parse_as_the_standard_ones() {
    for s in [
        "", "0", "7", "+7", "-7", "007", "+", "12a", "4294967295", "4294967296",
        "18446744073709551615", "18446744073709551616", "99999999999999999999999999", " 1", "1 ",
    ] {
        assert_eq!(text::parse_u64(&chars(s)), s.parse::<u64>().ok(), "{s}");
        assert_eq!(text::parse_u32(&chars(s)), s.parse::<u32>().ok(), "{s}");
    }
}

#[test]
fn decimals_read_back() {
    for n in [0u64, 9, 10, 99, 100, 1_000_000, u64::MAX] {
        let mut out = Vec::new();
        text::append_decimal(&mut out, n);
        assert_eq!(string(&out), n.to_string());
        assert_eq!(text::parse_u64(&out), Some(n));
    }
}

#[test]
fn searching_and_joining() {
    let c = chars("pipewire sink");
    assert!(text::contains(&c, "wire"));
    assert!(text::contains(&c, ""));
    assert!(!text::contains(&c, "wires"));
    assert!(text::starts_with(&c, "pipe"));
    assert!(!text::starts_with(&c, "ipe"));
    let parts = vec!["a".to_string(), "b".to_string(), "c".to_string()];
    assert_eq!(string(&text::join(&parts, ", ")), "a, b, c");
    assert_eq!(string(&text::join(&[], ", ")), "");
    assert_eq!(string(&text::to_spaced(&chars("a.b_c"))), "a b c");
    assert_eq!(string(&text::to_ascii_lower(&chars("MiXÉd9"))), "mixÉd9");
}

const PATHS: &[&str] = &[
    "", "/", "//", ".", "..", "./", "a", "a/", "a//", "/a", "//a", "a/b", "a//b", "a/./b", "./a",
    "/./a", "a/.", "a/..", "a/../b", "/a/b.c", ".hidden", ".hidden.x", "a.", "a.b.c", "a/.b", "...",
    "..a", "/home/u/Videos/ep 1.mkv", "a/b/../c.tar.gz", "/.", "/..", "./.", "/a/b/",
];

#[test]
fn path_components_are_the_standard_ones() {
    for p in PATHS {
        let std = Path::new(p);
        let c = chars(p);
        let name = path::name_of(&c).map(|n| string(&n));
        assert_eq!(name.as_deref(), std.file_name().and_then(|n| n.to_str()), "name of {p:?}");
        let stem = path::stem_of(&c).map(|n| string(&n));
        assert_eq!(stem.as_deref(), std.file_stem().and_then(|n| n.to_str()), "stem of {p:?}");
        let ext = path::extension_of(&c).map(|n| string(&n));
        assert_eq!(ext.as_deref(), std.extension().and_then(|n| n.to_str()), "extension of {p:?}");
        let parent = path::parent_of(&c).map(|n| string(&n));
        assert_eq!(parent.as_deref(), std.parent().and_then(|n| n.to_str()), "parent of {p:?}");
    }
}

#[test]
fn path_equality_and_prefixes_are_the_standard_ones() {
    for a in PATHS {
        for b in PATHS {
            assert_eq!(
                path::is_same_path(&chars(a), &chars(b)),
                Path::new(a) == Path::new(b),
                "{a:?} and {b:?}"
            );
            let rest = path::strip_prefix(&chars(a), &chars(b)).map(|r| string(&r));
            assert_eq!(
                rest.as_deref(),
                Path::new(a).strip_prefix(b).ok().and_then(|r| r.to_str()),
                "{a:?} below {b:?}"
            );
            assert_eq!(
                string(&path::join(&chars(a), b)),
                Path::new(a).join(b).to_str().unwrap(),
                "{a:?} joined with {b:?}"
            );
        }
    }
}

#[test]
fn times_read_as_a_clock_shows_them() {
    assert_eq!(time::format_time(0), "0:00");
    assert_eq!(time::format_time(-1), "0:00");
    assert_eq!(time::format_time(59_999_999_999), "0:59");
    assert_eq!(time::format_time(61 * time::SECOND), "1:01");
    assert_eq!(time::format_time(3599 * time::SECOND), "59:59");
    assert_eq!(time::format_time(3600 * time::SECOND), "1:00:00");
    assert_eq!(time::format_time((36000 + 123) * time::SECOND), "10:02:03");
}

#[test]
fn ticks_become_nanoseconds() {
    let base = time::TimeBase { num: 1, den: 90_000 };
    assert_eq!(base.time_of(90_000), time::SECOND);
    assert_eq!(base.time_of(1), 11_111);
    assert_eq!(base.time_of(-1), -11_112);
    assert_eq!(base.time_of(1 << 40), 12_216_795_864_177_777);
    assert_eq!(base.time_of(i64::MAX), i64::MAX);
    let coarse = time::TimeBase { num: u32::MAX, den: 1 };
    assert_eq!(coarse.time_of(i64::MAX), i64::MAX);
    assert_eq!(coarse.time_of(i64::MIN), i64::MIN);
    assert_eq!(time::time_of_samples(48_000, 96_000), time::SECOND / 2);
    assert_eq!(time::floor_div(-7, 2), -4);
    assert_eq!(time::floor_div(7, 2), 3);
}
