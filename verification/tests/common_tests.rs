use anime_dm_addons::common::{
    abs_url_with, contains_any_of, decode_base, decode_packed, dood_pass_path, dood_pass_request,
    dood_page_request, dood_token, dood_videos, fetch, host_label, host_of, hosters_of,
    media_urls, pseudo_random, redirect_target, rot13, sorted_distinct, voe_decrypt,
    voe_from_html, voe_urls, UA,
};
use anime_dm_addons::json::JsonValue;
use base64::Engine;

fn cs(s: &str) -> Vec<char> {
    s.chars().collect()
}

fn st(v: &[char]) -> String {
    v.iter().collect()
}

fn pairs(v: &[(String, String)]) -> Vec<(&str, &str)> {
    v.iter().map(|(a, b)| (a.as_str(), b.as_str())).collect()
}

/// Builds VOE's obfuscated form of `json`: base64, reversed, every byte
/// plus three, base64 again, then ROT13.
fn voe_encode(json: &str) -> String {
    let b64 = base64::engine::general_purpose::STANDARD;
    let inner: Vec<u8> = b64.encode(json.as_bytes()).into_bytes();
    let shifted: Vec<u8> = inner.iter().rev().map(|b| b.wrapping_add(3)).collect();
    let outer = b64.encode(&shifted);
    st(&rot13(&cs(&outer)))
}

#[test]
fn fetch_puts_user_agent_first() {
    let r = fetch("https://a.b/c", &[("Referer", "https://a.b/"), ("Cookie", "k=v")]);
    assert_eq!(r.url, "https://a.b/c");
    assert_eq!(
        pairs(&r.headers),
        vec![("User-Agent", UA), ("Referer", "https://a.b/"), ("Cookie", "k=v")]
    );
}

#[test]
fn host_is_third_piece_lowercased() {
    assert_eq!(host_of("https://WWW.Uqload.NET/embed-1.html"), "www.uqload.net");
    assert_eq!(host_of("no-slashes"), "no-slashes");
}

#[test]
fn host_label_is_capitalised_second_level_name() {
    assert_eq!(host_label("uqload.net"), "Uqload");
    assert_eq!(host_label("www.vidara.to"), "Vidara");
    assert_eq!(host_label("sub.dood.re"), "Dood");
    assert_eq!(host_label("localhost"), "Localhost");
    assert_eq!(host_label(""), "");
}

#[test]
fn abs_url_handles_protocol_relative_and_rooted_links() {
    assert_eq!(abs_url_with(None, "//cdn.x/p.jpg"), "https:cdn.x/p.jpg");
    assert_eq!(abs_url_with(Some("https://site.one"), "/p.jpg"), "https://site.one/p.jpg");
    assert_eq!(abs_url_with(None, "/p.jpg"), "/p.jpg");
    assert_eq!(abs_url_with(Some("https://site.one"), "https://o/p"), "https://o/p");
}

#[test]
fn contains_any_matches_substrings() {
    assert!(contains_any_of("fsvid.lol", &["kakaflix", "fsvid"]));
    assert!(!contains_any_of("uqload.net", &["kakaflix", "fsvid"]));
}

#[test]
fn pseudo_random_is_fixed_per_seed() {
    assert_eq!(pseudo_random("abc"), "WTnUatfOPf");
    assert_eq!(pseudo_random(""), "BfmcX1JDpP");
    assert_eq!(pseudo_random("xYz123"), "WljgvUz5xH");
}

#[test]
fn pseudo_random_is_ten_alphanumerics() {
    for seed in ["", "a", "token-123", "ééé"] {
        let r = pseudo_random(seed);
        assert_eq!(r.chars().count(), 10);
        assert!(r.chars().all(|c| c.is_ascii_alphanumeric()));
    }
}

#[test]
fn decode_base_reads_digits_up_to_radix() {
    assert_eq!(decode_base(&cs("z"), 36), Some(35));
    assert_eq!(decode_base(&cs("Z"), 62), Some(61));
    assert_eq!(decode_base(&cs("10"), 36), Some(36));
    assert_eq!(decode_base(&cs("z"), 10), None);
    assert_eq!(decode_base(&cs("-"), 62), None);
    assert_eq!(decode_base(&cs(""), 10), Some(0));
}

#[test]
fn decode_packed_substitutes_words() {
    assert_eq!(decode_packed("0 1('2')", "10", "var|x|hi"), Some("var x('hi')".to_string()));
    assert_eq!(decode_packed("0 \\'1\\'", "10", "var|x"), Some("var 'x'".to_string()));
    assert_eq!(decode_packed("0 3", "10", "var||"), Some("var 3".to_string()));
    assert_eq!(decode_packed("0", "ten", "var"), None);
}

#[test]
fn rot13_twice_is_identity() {
    let s = cs("Hello, World! 123 éz");
    assert_eq!(rot13(&rot13(&s)), s);
    assert_eq!(st(&rot13(&cs("abcXYZ"))), "nopKLM");
}

#[test]
fn voe_decrypt_reverses_the_obfuscation() {
    let json = r#"{"source":"https://x.y/m.m3u8","n":3}"#;
    let enc = voe_encode(json);
    let meta = voe_decrypt(&enc).unwrap();
    assert_eq!(meta.str_member("source"), Some(&"https://x.y/m.m3u8".to_string()));
    assert_eq!(meta.get("n").and_then(|n| n.as_i64()), Some(3));
    // Junk markers are dropped before decoding.
    let noisy = format!("{}@${}_{}#&", &enc[..4], &enc[4..8], &enc[8..]);
    assert_eq!(
        voe_decrypt(&noisy).unwrap().str_member("source"),
        Some(&"https://x.y/m.m3u8".to_string())
    );
    assert!(voe_decrypt("!!!not base64").is_none());
    // Valid base64 layers around text that is not JSON.
    assert!(voe_decrypt(&voe_encode("not json")).is_none());
}

#[test]
fn voe_from_html_reads_the_json_script() {
    let json = r#"{"direct_access_url":"https://x.y/v.mp4"}"#;
    let html = format!(
        "<html><body><script type=\"application/json\">[\"{}\"]</script></body></html>",
        voe_encode(json)
    );
    assert_eq!(
        voe_from_html(&html).unwrap().str_member("direct_access_url"),
        Some(&"https://x.y/v.mp4".to_string())
    );
    assert!(voe_from_html("<html></html>").is_none());
}

#[test]
fn voe_urls_are_source_then_mp4_once_each() {
    let meta = JsonValue::Object(vec![
        ("source".to_string(), JsonValue::String("https://a/h.m3u8".to_string())),
        ("direct_access_url".to_string(), JsonValue::String("https://a/h.m3u8".to_string())),
    ]);
    assert_eq!(voe_urls(&meta), vec!["https://a/h.m3u8"]);
    let meta2 = JsonValue::Object(vec![
        ("direct_access_url".to_string(), JsonValue::String("https://a/v.mp4".to_string())),
        ("source".to_string(), JsonValue::String("https://a/h.m3u8".to_string())),
    ]);
    assert_eq!(voe_urls(&meta2), vec!["https://a/h.m3u8", "https://a/v.mp4"]);
}

#[test]
fn redirect_and_media_urls() {
    let html = "<script>window.location.href = 'https://next.example/e/1';</script>";
    assert_eq!(redirect_target(html), Some("https://next.example/e/1".to_string()));
    assert_eq!(redirect_target("<p>none</p>"), None);
    let hay = "file:\"https://c.d/a.m3u8?t=1\", x 'https://c.d/b.mp4' again https://c.d/a.m3u8?t=1";
    assert_eq!(media_urls(hay), vec!["https://c.d/a.m3u8?t=1", "https://c.d/b.mp4"]);
}

#[test]
fn dood_flow_builds_the_stream_url() {
    let html = "var x = $.get('/pass_md5/123-abc/tok9', function(){});";
    let path = dood_pass_path(html).unwrap();
    assert_eq!(path, "123-abc/tok9");
    assert_eq!(dood_token(&path), "tok9");
    assert_eq!(dood_pass_path("nothing here"), None);
    let page = dood_page_request("https://dood.re/e/xyz");
    assert_eq!(pairs(&page.headers), vec![("User-Agent", UA), ("Referer", "https://dood.re/")]);
    let pass = dood_pass_request("https://dood.re/e/xyz", &path);
    assert_eq!(pass.url, "https://dood.re/pass_md5/123-abc/tok9");
    assert_eq!(pairs(&pass.headers), vec![("User-Agent", UA), ("Referer", "https://dood.re/e/xyz")]);
    let vids = dood_videos("https://dood.re/e/xyz", &path, "  https://cdn.d/base~ \n");
    assert_eq!(vids.len(), 1);
    assert_eq!(
        vids[0].url,
        format!("https://cdn.d/base~{}?token=tok9&expiry=9999999999999", pseudo_random("tok9"))
    );
    assert_eq!(vids[0].quality, "Doodstream (Dood)");
    assert_eq!(pairs(&vids[0].headers), vec![("User-Agent", UA), ("Referer", "https://dood.re/")]);
    assert!(dood_videos("https://dood.re/e/xyz", &path, "error").is_empty());
}

#[test]
fn hosters_of_prefers_language_and_skips_excluded_and_repeats() {
    let list = "vf#https://uqload.net/a,vostfr#https://dood.re/b,vf#https://kakaflix.x/c,vf#https://uqload.net/a";
    let hs = hosters_of(list, "vf", &["kakaflix"]);
    let got: Vec<(String, String)> = hs.iter().map(|h| (h.url.clone(), h.name.clone())).collect();
    assert_eq!(got, vec![("https://uqload.net/a".to_string(), "VF \u{b7} Uqload".to_string())]);
    let hs2 = hosters_of(list, "en", &["kakaflix"]);
    let got2: Vec<String> = hs2.iter().map(|h| h.name.clone()).collect();
    assert_eq!(got2, vec!["VF \u{b7} Uqload", "VOSTFR \u{b7} Dood"]);
}

#[test]
fn hosters_of_film_list_keeps_every_url() {
    let hs = hosters_of("https://uqload.net/a,,https://vidara.to/b", "vf", &[]);
    let got: Vec<(String, String)> = hs.iter().map(|h| (h.url.clone(), h.name.clone())).collect();
    assert_eq!(
        got,
        vec![
            ("https://uqload.net/a".to_string(), "Uqload".to_string()),
            ("https://vidara.to/b".to_string(), "Vidara".to_string()),
        ]
    );
}

#[test]
fn encoded_players_round_trip_through_hoster_parsing() {
    let langs = ["vf", "vostfr", "vf"];
    let urls = ["https://a.one/1", "https://b.two/2#frag", "https://c.three/3"];
    let list: Vec<String> = langs.iter().zip(urls.iter()).map(|(l, u)| format!("{l}#{u}")).collect();
    let hs = hosters_of(&list.join(","), "none", &[]);
    let got: Vec<String> = hs.iter().map(|h| h.url.clone()).collect();
    assert_eq!(got, urls.to_vec());
}

#[test]
fn sorted_distinct_sorts_and_dedupes() {
    assert_eq!(sorted_distinct(&vec![3, 1, 3, -2, 1]), vec![-2, 1, 3]);
    assert_eq!(sorted_distinct(&vec![]), Vec::<i64>::new());
}
