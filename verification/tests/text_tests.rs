use anime_dm_addons::text::{
    chars_of, dedupe, eq_ignore_ascii_case, find, i64_to_string, join, parse_i64, parse_unsigned,
    replace, split, split_once, trim, trim_end_char, trim_start_str,
};

fn cs(s: &str) -> Vec<char> {
    s.chars().collect()
}

fn st(v: &[char]) -> String {
    v.iter().collect()
}

#[test]
fn split_keeps_empty_pieces() {
    let pieces = split(&cs("a,,b,"), ',');
    let got: Vec<String> = pieces.iter().map(|p| st(p)).collect();
    assert_eq!(got, vec!["a", "", "b", ""]);
    assert_eq!(split(&cs(""), ',').len(), 1);
}

#[test]
fn split_once_at_first_separator() {
    let (a, b) = split_once(&cs("vf#https://x/#y"), '#').unwrap();
    assert_eq!(st(&a), "vf");
    assert_eq!(st(&b), "https://x/#y");
    assert!(split_once(&cs("nohash"), '#').is_none());
}

#[test]
fn trims_like_std() {
    assert_eq!(st(&trim(&cs("  \t hello world \n"))), "hello world");
    assert_eq!(st(&trim_end_char(&cs("https://a.b///"), '/')), "https://a.b");
    assert_eq!(st(&trim_start_str(&cs("[\"[\"x\"]"), &cs("[\""))), "x\"]");
}

#[test]
fn finds_first_occurrence() {
    assert_eq!(find(&cs("abcabc"), &cs("bc")), Some(1));
    assert_eq!(find(&cs("abc"), &cs("zz")), None);
    assert_eq!(find(&cs("abc"), &cs("")), Some(0));
}

#[test]
fn parses_unsigned_like_from_str() {
    assert_eq!(parse_unsigned(&cs("720"), u32::MAX as u64), Some(720));
    assert_eq!(parse_unsigned(&cs("+720"), u32::MAX as u64), Some(720));
    assert_eq!(parse_unsigned(&cs("+"), u32::MAX as u64), None);
    assert_eq!(parse_unsigned(&cs(""), u32::MAX as u64), None);
    assert_eq!(parse_unsigned(&cs("7a"), u32::MAX as u64), None);
    assert_eq!(parse_unsigned(&cs("4294967296"), u32::MAX as u64), None);
    assert_eq!(parse_unsigned(&cs("4294967295"), u32::MAX as u64), Some(4294967295));
}

#[test]
fn parses_signed_like_from_str() {
    assert_eq!(parse_i64(&cs("-5")), Some(-5));
    assert_eq!(parse_i64(&cs("12")), Some(12));
    assert_eq!(parse_i64(&cs("-9223372036854775808")), Some(i64::MIN));
    assert_eq!(parse_i64(&cs("9223372036854775808")), None);
    assert_eq!(parse_i64(&cs("-")), None);
}

#[test]
fn prints_integers() {
    assert_eq!(st(&i64_to_string(-42)), "-42");
    assert_eq!(st(&i64_to_string(0)), "0");
    assert_eq!(st(&i64_to_string(i64::MIN)), i64::MIN.to_string());
}

#[test]
fn replaces_every_occurrence() {
    assert_eq!(st(&replace(&cs("a@$b@$c"), &cs("@$"), &cs("_"))), "a_b_c");
}

#[test]
fn compares_ignoring_ascii_case() {
    assert!(eq_ignore_ascii_case(&cs("LECTEUR voe"), &cs("lecteur VOE")));
    assert!(!eq_ignore_ascii_case(&cs("LECTEUR VOE"), &cs("LECTEUR VO")));
}

#[test]
fn dedupes_keeping_first() {
    let v = vec!["a".to_string(), "b".to_string(), "a".to_string(), "c".to_string()];
    assert_eq!(dedupe(&v), vec!["a", "b", "c"]);
}

#[test]
fn joins_with_separator() {
    let v = vec!["vf#a".to_string(), "vostfr#b".to_string()];
    assert_eq!(join(&v, ","), "vf#a,vostfr#b");
    assert_eq!(join(&Vec::new(), ","), "");
    assert_eq!(chars_of("é"), vec!['é']);
}
