use anime_dm_addons::abi::{set_config, ConfigStore};
use anime_dm_addons::api::{Hoster, PageInput, UrlInput};
use anime_dm_addons::common::{rot13, UA};
use anime_dm_addons::json::JsonValue;
use base64::Engine;
use anime_dm_addons::wiflix::{
    anime_details, base_url, episode_list, extract_request, extract_videos, get, hoster_list,
    is_dead, latest, load_html_urls, load_urls, metadata, preferences, redirect_request, unpack,
    video_list, videos_of_page, VideoRoute,
};

/// VOE's obfuscated form of `json`: base64, reversed, every byte plus
/// three, base64 again, then ROT13.
fn voe_encode(json: &str) -> String {
    let b64 = base64::engine::general_purpose::STANDARD;
    let inner: Vec<u8> = b64.encode(json.as_bytes()).into_bytes();
    let shifted: Vec<u8> = inner.iter().rev().map(|b| b.wrapping_add(3)).collect();
    let outer = b64.encode(&shifted);
    let chars: Vec<char> = outer.chars().collect();
    rot13(&chars).iter().collect()
}

fn voe_page(json: &str) -> String {
    format!(
        "<html><body><script type=\"application/json\">[\"{}\"]</script></body></html>",
        voe_encode(json)
    )
}

fn store(json: &str) -> ConfigStore {
    let mut s = ConfigStore::new();
    set_config(&mut s, json);
    s
}

fn pairs(v: &[(String, String)]) -> Vec<(&str, &str)> {
    v.iter().map(|(a, b)| (a.as_str(), b.as_str())).collect()
}

const SERIES: &str = r#"<html><body><div class="hostsblock">
  <div class="ep1vf"><a onclick="loadVideo('https://uqload.net/e/a')">1</a><a onclick="loadVideo('https://vidara.to/b')">2</a><a onclick="loadVideo('https://uqload.net/e/a')">3</a></div>
  <div class="ep1vostfr"><a onclick="loadVideo('https://dood.re/e/c')">1</a></div>
  <div class="ep2vf"><a onclick="loadVideo('/rel/d')">1</a></div>
  <div class="ep3vf"><a>none</a></div>
  <div class="other"><a onclick="loadVideo('https://x.y/z')">1</a></div>
</div></body></html>"#;

#[test]
fn wiflix_base_url_and_get() {
    assert_eq!(base_url(&ConfigStore::new()), "https://flemmix.city");
    let st = store(r#"{"base_url":"https://flemmix.best/"}"#);
    assert_eq!(base_url(&st), "https://flemmix.best");
    let r = get(&st, "https://flemmix.best/x");
    assert_eq!(pairs(&r.headers), vec![("User-Agent", UA), ("Referer", "https://flemmix.best")]);
}

#[test]
fn wiflix_metadata_and_preferences() {
    let m = metadata(&ConfigStore::new(), "0.1.0");
    assert_eq!(m.id, "fr.wiflix");
    assert_eq!(m.name, "Wiflix");
    assert_eq!(m.base_url, "https://flemmix.city");
    let p = preferences();
    assert_eq!(p[0].default, "https://flemmix.city");
    assert_eq!(p[1].options, vec!["vf", "vostfr"]);
}

#[test]
fn wiflix_anime_details_title_fallbacks() {
    let html = r#"<html><head><meta property="og:title" content="Show X &raquo; Wiflix"></head>
        <body><img id="posterimg" src="/p.jpg"></body></html>"#;
    let a = anime_details(&ConfigStore::new(), &UrlInput { url: "u".to_string() }, html);
    assert_eq!(a.title, "Show X");
    assert_eq!(a.poster_url, Some("https://flemmix.city/p.jpg".to_string()));
    let b = anime_details(&ConfigStore::new(), &UrlInput { url: "u".to_string() }, "<p></p>");
    assert_eq!(b.title, "Wiflix");
    assert_eq!(b.poster_url, None);
}

#[test]
fn wiflix_load_urls_dedupes_and_absolutises() {
    let st = ConfigStore::new();
    let frag = "<a onclick=\"loadVideo('/a')\"></a><a onclick='loadVideo(\"/a\")'></a><a onclick=\"loadVideo( 'https://b/c' )\"></a>";
    assert_eq!(load_html_urls(&st, frag), vec!["https://flemmix.city/a", "https://b/c"]);
    let html = "<div class=\"linkstab\"><a onclick=\"loadVideo('https://u/1')\">a</a><a onclick=\"loadVideo('https://u/1')\">b</a></div>";
    assert_eq!(load_urls(&st, html, ".linkstab a[onclick*=loadVideo]"), vec!["https://u/1"]);
}

#[test]
fn wiflix_episode_list_series() {
    let eps = episode_list(&ConfigStore::new(), SERIES);
    assert_eq!(eps.len(), 2);
    assert_eq!(eps[0].number, 1);
    assert_eq!(eps[0].name, "Episode 1");
    assert_eq!(
        eps[0].url,
        "vf#https://uqload.net/e/a,vf#https://vidara.to/b,vostfr#https://dood.re/e/c"
    );
    assert_eq!(eps[1].number, 2);
    assert_eq!(eps[1].url, "vf#https://flemmix.city/rel/d");
}

#[test]
fn wiflix_episode_list_film() {
    let html = r#"<div class="linkstab"><a onclick="loadVideo('https://uqload.net/e/f')">1</a><a onclick="loadVideo('https://vidara.to/g')">2</a></div>"#;
    let eps = episode_list(&ConfigStore::new(), html);
    assert_eq!(eps.len(), 1);
    assert_eq!(eps[0].name, "(FILM) Film");
    assert_eq!(eps[0].number, 1);
    assert_eq!(eps[0].url, "https://uqload.net/e/f,https://vidara.to/g");
    assert!(episode_list(&ConfigStore::new(), "<p></p>").is_empty());
}

#[test]
fn wiflix_hoster_list_skips_dead_hosts() {
    assert!(is_dead("upns.pro"));
    assert!(!is_dead("uqload.net"));
    let list = "vf#https://upns.pro/x,vf#https://uqload.net/a,vostfr#https://dood.re/b";
    let hs = hoster_list(&ConfigStore::new(), &UrlInput { url: list.to_string() });
    assert_eq!(hs.len(), 1);
    assert_eq!(hs[0].url, "https://uqload.net/a");
    assert_eq!(hs[0].name, "VF \u{b7} Uqload");
}

#[test]
fn wiflix_hoster_list_from_episode_list_output() {
    let eps = episode_list(&ConfigStore::new(), SERIES);
    let hs = hoster_list(&store(r#"{"preferred_lang":"vostfr"}"#), &UrlInput { url: eps[0].url.clone() });
    let got: Vec<(String, String)> = hs.iter().map(|h| (h.url.clone(), h.name.clone())).collect();
    assert_eq!(got, vec![("https://dood.re/e/c".to_string(), "VOSTFR \u{b7} Dood".to_string())]);
}

#[test]
fn wiflix_video_routes_and_requests() {
    let h = |u: &str| Hoster { url: u.to_string(), name: String::new() };
    assert!(matches!(video_list(&h("https://d000d.com/e/1")), VideoRoute::Dood));
    assert!(matches!(video_list(&h("https://uqload.net/e/1")), VideoRoute::Extract));
    let r = extract_request("https://Uqload.net/e/1");
    assert_eq!(pairs(&r.headers), vec![("User-Agent", UA), ("Referer", "https://uqload.net/")]);
    let r2 = redirect_request("https://next/x");
    assert_eq!(r2.url, "https://next/x");
    assert_eq!(pairs(&r2.headers), vec![("User-Agent", UA)]);
}

#[test]
fn wiflix_unpack_and_extract() {
    let packed = "eval(function(p,a,c,k,e,d){}('0(\"1://2.3/4.5\")',10,6,'play|https|cdn|x|v|mp4'.split('|'),0,{}))";
    assert_eq!(unpack(packed), Some("play(\"https://cdn.x/v.mp4\")".to_string()));
    assert_eq!(unpack("no packer"), None);
    let v = extract_videos("https://lulu.st/e/1", packed, None);
    assert_eq!(v.len(), 1);
    assert_eq!(v[0].url, "https://cdn.x/v.mp4");
    assert_eq!(v[0].quality, "Lulu");
    assert_eq!(pairs(&v[0].headers), vec![("Referer", "https://lulu.st/")]);
    let meta = JsonValue::Object(vec![(
        "direct_access_url".to_string(),
        JsonValue::String("https://voe.x/v.mp4".to_string()),
    )]);
    let v2 = extract_videos("https://voe.sx/e/1", packed, Some(&meta));
    assert_eq!(v2.len(), 1);
    assert_eq!(v2[0].url, "https://voe.x/v.mp4");
    assert_eq!(pairs(&v2[0].headers), vec![("Referer", "https://voe.sx/")]);
    assert!(latest(&PageInput { page: 2 }).animes.is_empty());
}

#[test]
fn wiflix_videos_of_page_decodes_voe_metadata() {
    let html = voe_page(r#"{"direct_access_url":"https://voe.x/v.mp4"}"#);
    let v = videos_of_page("https://voe.sx/e/1", &html);
    assert_eq!(v.len(), 1);
    assert_eq!(v[0].url, "https://voe.x/v.mp4");
    assert_eq!(pairs(&v[0].headers), vec![("Referer", "https://voe.sx/")]);
    let packed = "eval(function(p,a,c,k,e,d){}('0(\"1://2.3/4.5\")',10,6,'play|https|cdn|x|v|mp4'.split('|'),0,{}))";
    let w = videos_of_page("https://lulu.st/e/1", packed);
    assert_eq!(w.len(), 1);
    assert_eq!(w[0].url, "https://cdn.x/v.mp4");
    assert_eq!(pairs(&w[0].headers), vec![("Referer", "https://lulu.st/")]);
}
