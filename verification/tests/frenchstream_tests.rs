use anime_dm_addons::abi::{set_config, ConfigStore};
use anime_dm_addons::api::{Hoster, PageInput, SearchInput, UrlInput};
use anime_dm_addons::common::{rot13, UA};
use anime_dm_addons::frenchstream::{
    abs_url, anime_details, base_url, effective_id, embed_referer, episode_data_request,
    episode_list, episode_list_with_film, episode_list_with_film_api, episode_step, extract_request, extract_videos, film_api_request,
    videos_of_page,
    film_player_urls, get, hoster_list, is_blocked_host, is_fs_host, metadata, origin_of,
    popular, pref_lang, preferences, query_param, search, series_episodes, video_list,
    EpisodeListStep, VideoRoute,
};
use anime_dm_addons::json::JsonValue;
use base64::Engine;

/// VOE's obfuscated form of `json`: base64, reversed, every byte plus
/// three, base64 again, then ROT13.
fn voe_encode(json: &str) -> String {
    let b64 = base64::engine::general_purpose::STANDARD;
    let inner: Vec<u8> = b64.encode(json.as_bytes()).into_bytes();
    let shifted: Vec<u8> = inner.iter().rev().map(|b| b.wrapping_add(3)).collect();
    let outer = b64.encode(&shifted);
    let chars: Vec<char> = outer.chars().collect();
    rot13(&chars).iter().collect()
}

fn voe_page(json: &str) -> String {
    format!(
        "<html><body><script type=\"application/json\">[\"{}\"]</script></body></html>",
        voe_encode(json)
    )
}

fn store(json: &str) -> ConfigStore {
    let mut s = ConfigStore::new();
    set_config(&mut s, json);
    s
}

fn s(v: &str) -> JsonValue {
    JsonValue::String(v.to_string())
}

fn obj(entries: Vec<(&str, JsonValue)>) -> JsonValue {
    JsonValue::Object(entries.into_iter().map(|(k, v)| (k.to_string(), v)).collect())
}

fn pairs(v: &[(String, String)]) -> Vec<(&str, &str)> {
    v.iter().map(|(a, b)| (a.as_str(), b.as_str())).collect()
}

#[test]
fn fs_base_url_defaults_and_trims() {
    assert_eq!(base_url(&ConfigStore::new()), "https://french-stream.one");
    assert_eq!(base_url(&store(r#"{"base_url":"https://fs03.lol//"}"#)), "https://fs03.lol");
    assert_eq!(pref_lang(&ConfigStore::new()), "vf");
    assert_eq!(pref_lang(&store(r#"{"preferred_lang":"vostfr"}"#)), "vostfr");
}

#[test]
fn fs_get_sends_site_referer_and_cookie() {
    let r = get(&ConfigStore::new(), "https://french-stream.one/x.html");
    assert_eq!(
        pairs(&r.headers),
        vec![("User-Agent", UA), ("Referer", "https://french-stream.one"), ("Cookie", "fsschal=1")]
    );
}

#[test]
fn fs_hosts_and_referers() {
    assert!(is_fs_host("fsvid.lol"));
    assert!(!is_fs_host("uqload.net"));
    assert_eq!(embed_referer(&ConfigStore::new(), "fsvid.lol"), "https://french-stream.one/");
    assert_eq!(embed_referer(&ConfigStore::new(), "uqload.net"), "https://uqload.net/");
    assert!(is_blocked_host("www.kakaflix.lol"));
    assert!(!is_blocked_host("uqload.net"));
}

#[test]
fn fs_origin_of_url() {
    assert_eq!(origin_of("https://fs03.lol/films/123-x.html"), "https://fs03.lol");
    assert_eq!(origin_of("https://fs03.lol"), "https://fs03.lol");
    assert_eq!(origin_of("weird"), "weird//");
}

#[test]
fn fs_query_param_finds_first_key() {
    assert_eq!(query_param("https://a/b?x=1&newsid=42&newsid=7", "newsid"), Some("42".to_string()));
    assert_eq!(query_param("https://a/b?x=1", "newsid"), None);
    assert_eq!(query_param("https://a/b", "x"), None);
    assert_eq!(query_param("https://a/b?flag&x=", "x"), Some("".to_string()));
}

#[test]
fn fs_abs_url_uses_site_base() {
    let st = ConfigStore::new();
    assert_eq!(abs_url(&st, "/img/p.jpg"), "https://french-stream.one/img/p.jpg");
    assert_eq!(abs_url(&st, "//cdn/p.jpg"), "https:cdn/p.jpg");
}

#[test]
fn fs_metadata_and_preferences() {
    let m = metadata(&store(r#"{"base_url":"https://fs03.lol/"}"#), "1.2.3");
    assert_eq!(m.id, "fr.frenchstream");
    assert_eq!(m.name, "FrenchStream");
    assert_eq!(m.base_url, "https://fs03.lol");
    assert_eq!(m.version, "1.2.3");
    assert!(!m.nsfw);
    let p = preferences();
    assert_eq!(p.len(), 2);
    assert_eq!(p[1].key, "preferred_lang");
    assert_eq!(p[1].default, "vf");
    assert_eq!(p[1].options, vec!["vf", "vostfr"]);
    assert!(p[1].options.contains(&p[1].default));
}

#[test]
fn fs_anime_details_from_page() {
    let html = r#"<html><head><meta property="og:title" content="My Show - Streaming"></head>
        <body><div class="fposter"><img src="/up/p.jpg"></div>
        <span id="desc-1"> A story. </span>
        <span class="fgenre"><a>Action</a><a> </a><a>Drame</a></span></body></html>"#;
    let a = anime_details(&ConfigStore::new(), &UrlInput { url: "https://fs/x".to_string() }, html);
    assert_eq!(a.url, "https://fs/x");
    assert_eq!(a.title, "My Show");
    assert_eq!(a.poster_url, Some("https://french-stream.one/up/p.jpg".to_string()));
    assert_eq!(a.description, Some("A story.".to_string()));
    assert_eq!(a.genres, vec!["Action", "Drame"]);
    let b = anime_details(&ConfigStore::new(), &UrlInput { url: "u".to_string() }, "<h1> T </h1>");
    assert_eq!(b.title, "T");
    let c = anime_details(&ConfigStore::new(), &UrlInput { url: "u".to_string() }, "<p></p>");
    assert_eq!(c.title, "FrenchStream");
}

#[test]
fn fs_effective_id_in_order() {
    assert_eq!(effective_id("https://a/b?newsid=9", "<div data-id=\"5\"></div>"), "9");
    assert_eq!(effective_id("https://a/b", "<div data-id=\" 5 \"></div>"), "5");
    assert_eq!(effective_id("https://a/b", "x ep-data.php?id=77 y"), "77");
    assert_eq!(effective_id("https://a/b", "var dle_id = '31';"), "31");
    assert_eq!(effective_id("https://a/films/123-the-film.html?x=1", ""), "123");
    assert_eq!(effective_id("https://a/films/the-film.html", ""), "");
    assert_eq!(effective_id("https://fs.lol/films/12345.html", "<p></p>"), "12345");
    assert_eq!(effective_id("https://fs.lol/films/12ab-x/", ""), "");
    assert_eq!(effective_id("https://fs.lol/films/12ab", ""), "12");
}

#[test]
fn fs_film_players_take_default_else_first_variant() {
    let players = obj(vec![
        ("a", obj(vec![("hd", s("https://u/1")), ("default", s("https://u/d"))])),
        ("b", obj(vec![("sd", s("https://u/2"))])),
        ("c", obj(vec![("sd", JsonValue::Null)])),
    ]);
    assert_eq!(film_player_urls(&players), vec!["https://u/d", "https://u/2"]);
}

#[test]
fn fs_episode_list_film_payload() {
    let data = obj(vec![("players", obj(vec![("a", obj(vec![("default", s("https://u/1"))]))]))]);
    match episode_step(&data) {
        EpisodeListStep::Done(eps) => {
            assert_eq!(eps.len(), 1);
            assert_eq!(eps[0].url, "https://u/1");
            assert_eq!(eps[0].name, "Film");
            assert_eq!(eps[0].number, 1);
        },
        EpisodeListStep::FetchFilmApi => panic!("film expected"),
    }
}

#[test]
fn fs_episode_list_series_payload() {
    let data = obj(vec![
        ("vf", obj(vec![("2", obj(vec![("x", s("https://v/2"))])), ("1", obj(vec![("x", s("https://v/1"))]))])),
        ("vostfr", obj(vec![("1", obj(vec![("y", s("https://o/1")), ("z", s(""))]))])),
        ("info", obj(vec![("1", obj(vec![("title", s("Pilot"))]))])),
    ]);
    let eps = match episode_step(&data) {
        EpisodeListStep::Done(eps) => eps,
        EpisodeListStep::FetchFilmApi => panic!("series expected"),
    };
    assert_eq!(eps.len(), 2);
    assert_eq!(eps[0].number, 1);
    assert_eq!(eps[0].url, "vf#https://v/1,vostfr#https://o/1");
    assert_eq!(eps[0].name, "\u{c9}pisode 1 - Pilot");
    assert_eq!(eps[1].number, 2);
    assert_eq!(eps[1].url, "vf#https://v/2");
    assert_eq!(eps[1].name, "\u{c9}pisode 2");
    assert_eq!(series_episodes(&data).len(), 2);
}

#[test]
fn fs_episode_list_asks_film_api_when_empty() {
    let data = obj(vec![("vf", obj(vec![]))]);
    assert!(matches!(episode_step(&data), EpisodeListStep::FetchFilmApi));
    assert!(matches!(episode_step(&JsonValue::Null), EpisodeListStep::FetchFilmApi));
    let film = obj(vec![("players", obj(vec![("a", obj(vec![("default", s("https://f/1"))]))]))]);
    let eps = episode_list_with_film(&data, Some(&film));
    assert_eq!(eps.len(), 1);
    assert_eq!(eps[0].url, "https://f/1");
    assert!(episode_list_with_film(&data, None).is_empty());
}

#[test]
fn fs_episode_list_reads_the_body_text() {
    match episode_list(r#"{"players":{"b":{"default":"https://u/2"},"a":{"hd":"https://u/1"}}}"#) {
        EpisodeListStep::Done(eps) => {
            assert_eq!(eps.len(), 1);
            assert_eq!(eps[0].url, "https://u/1,https://u/2");
        },
        EpisodeListStep::FetchFilmApi => panic!("film expected"),
    }
    let body = r#"{"vostfr":{"10":{"x":"https://o/10"},"9":{"x":"https://o/9"}}}"#;
    let eps = match episode_list(body) {
        EpisodeListStep::Done(eps) => eps,
        EpisodeListStep::FetchFilmApi => panic!("series expected"),
    };
    let nums: Vec<i64> = eps.iter().map(|e| e.number).collect();
    assert_eq!(nums, vec![9, 10]);
    assert_eq!(eps[0].url, "vostfr#https://o/9");
    assert!(matches!(episode_list("<html>blocked</html>"), EpisodeListStep::FetchFilmApi));
    let film = r#"{"players":{"a":{"default":"https://f/1"}}}"#;
    let got = episode_list_with_film_api("not json", Some(film));
    assert_eq!(got.len(), 1);
    assert_eq!(got[0].name, "Film");
    assert!(episode_list_with_film_api("not json", Some("still not json")).is_empty());
    assert!(episode_list_with_film_api("{}", None).is_empty());
}

#[test]
fn fs_series_vf_players_come_back_as_hosters() {
    let body = r#"{"vf":{"1":{"a":"https://uqload.net/1","b":"https://kakaflix.lol/2","c":"https://uqload.net/1"}},"vostfr":{"1":{"a":"https://vidara.to/3"}}}"#;
    let eps = match episode_list(body) {
        EpisodeListStep::Done(eps) => eps,
        EpisodeListStep::FetchFilmApi => panic!("series expected"),
    };
    let hs = hoster_list(&ConfigStore::new(), &UrlInput { url: eps[0].url.clone() });
    let got: Vec<(String, String)> = hs.iter().map(|h| (h.url.clone(), h.name.clone())).collect();
    assert_eq!(got, vec![("https://uqload.net/1".to_string(), "VF \u{b7} Uqload".to_string())]);
}

#[test]
fn fs_requests_for_player_data() {
    let r = episode_data_request("https://fs03.lol/s/1-x.html", "1");
    assert_eq!(r.url, "https://fs03.lol/ep-data.php?id=1");
    assert_eq!(
        pairs(&r.headers),
        vec![("User-Agent", UA), ("Referer", "https://fs03.lol/s/1-x.html"), ("Cookie", "fsschal=1")]
    );
    let f = film_api_request("https://fs03.lol/s/1-x.html", "1");
    assert_eq!(f.url, "https://fs03.lol/engine/ajax/film_api.php?id=1");
}

#[test]
fn fs_hoster_list_follows_preferred_language() {
    let list = "vf#https://uqload.net/a,vostfr#https://vidara.to/b,vf#https://kakaflix.lol/c";
    let hs = hoster_list(&store(r#"{"preferred_lang":"vostfr"}"#), &UrlInput { url: list.to_string() });
    assert_eq!(hs.len(), 1);
    assert_eq!(hs[0].url, "https://vidara.to/b");
    assert_eq!(hs[0].name, "VOSTFR \u{b7} Vidara");
    let hs2 = hoster_list(&ConfigStore::new(), &UrlInput { url: list.to_string() });
    assert_eq!(hs2.len(), 1);
    assert_eq!(hs2[0].name, "VF \u{b7} Uqload");
}

#[test]
fn fs_video_list_routes() {
    let h = |u: &str| Hoster { url: u.to_string(), name: String::new() };
    assert!(matches!(video_list(&h("https://kakaflix.lol/e/1")), VideoRoute::Skip));
    assert!(matches!(video_list(&h("https://dood.re/e/1")), VideoRoute::Dood));
    assert!(matches!(video_list(&h("https://uqload.net/e/1")), VideoRoute::Extract));
}

#[test]
fn fs_extract_request_and_videos() {
    let st = ConfigStore::new();
    let r = extract_request(&st, "https://fsvid.lol/e/1", "https://fsvid.lol/e/2");
    assert_eq!(r.url, "https://fsvid.lol/e/2");
    assert_eq!(
        pairs(&r.headers),
        vec![("User-Agent", UA), ("Referer", "https://french-stream.one/"), ("Cookie", "fsschal=1")]
    );
    let html = "sources: [{file:\"https://cdn.x/v.m3u8\"}] and https://cdn.x/v.m3u8 again";
    let v = extract_videos(&st, "https://uqload.net/e/1", html, None);
    assert_eq!(v.len(), 1);
    assert_eq!(v[0].url, "https://cdn.x/v.m3u8");
    assert_eq!(v[0].quality, "Uqload");
    assert_eq!(pairs(&v[0].headers), vec![("User-Agent", UA), ("Referer", "https://uqload.net/")]);
    let meta = obj(vec![("source", s("https://voe.x/h.m3u8"))]);
    let v2 = extract_videos(&st, "https://voe.sx/e/1", html, Some(&meta));
    assert_eq!(v2.len(), 1);
    assert_eq!(v2[0].url, "https://voe.x/h.m3u8");
    assert_eq!(pairs(&v2[0].headers), vec![("Referer", "https://voe.sx/")]);
}

#[test]
fn fs_extract_reads_packed_scripts() {
    let html = "eval(function(p,a,c,k,e,d){}('0(\"1://2.3/4.5\")',10,6,'play|https|cdn|x|v|mp4'.split('|'),0,{}))";
    let v = extract_videos(&ConfigStore::new(), "https://vidzy.org/e/1", html, None);
    assert_eq!(v.len(), 1);
    assert_eq!(v[0].url, "https://cdn.x/v.mp4");
}

#[test]
fn fs_listings_are_empty() {
    assert!(popular(&PageInput { page: 1 }).animes.is_empty());
    assert!(!search(&SearchInput { query: "x".to_string(), page: 1 }).has_next_page);
}

#[test]
fn fs_videos_of_page_decodes_voe_metadata() {
    let st = ConfigStore::new();
    let html = voe_page(r#"{"source":"https://voe.x/h.m3u8","direct_access_url":"https://voe.x/h.m3u8"}"#);
    let v = videos_of_page(&st, "https://voe.sx/e/1", &html);
    assert_eq!(v.len(), 1);
    assert_eq!(v[0].url, "https://voe.x/h.m3u8");
    assert_eq!(v[0].quality, "Voe");
    assert_eq!(pairs(&v[0].headers), vec![("Referer", "https://voe.sx/")]);
    let packed = "eval(function(p,a,c,k,e,d){}('0(\"1://2.3/4.5\")',10,6,'play|https|cdn|x|v|mp4'.split('|'),0,{}))";
    let w = videos_of_page(&st, "https://vidzy.org/e/1", packed);
    assert_eq!(w.len(), 1);
    assert_eq!(w[0].url, "https://cdn.x/v.mp4");
}

#[test]
fn fs_vostfr_url_with_comma_keeps_vf_hosters() {
    let body = r#"{"vf":{"1":{"a":"https://uqload.net/1"}},"vostfr":{"1":{"a":"https://vidara.to/3?a=1,b=2"}}}"#;
    let eps = match episode_list(body) {
        EpisodeListStep::Done(eps) => eps,
        EpisodeListStep::FetchFilmApi => panic!("series expected"),
    };
    let hs = hoster_list(&ConfigStore::new(), &UrlInput { url: eps[0].url.clone() });
    let got: Vec<(String, String)> = hs.iter().map(|h| (h.url.clone(), h.name.clone())).collect();
    assert_eq!(got, vec![("https://uqload.net/1".to_string(), "VF \u{b7} Uqload".to_string())]);
    // A `vostfr` URL that carries `,vf#` reads back as one more `vf` player.
    let body2 = r#"{"vf":{"1":{"a":"https://uqload.net/1"}},"vostfr":{"1":{"a":"https://vidara.to/3?x=1,vf#https://uqload.net/9"}}}"#;
    let eps2 = match episode_list(body2) {
        EpisodeListStep::Done(eps) => eps,
        EpisodeListStep::FetchFilmApi => panic!("series expected"),
    };
    let hs2 = hoster_list(&ConfigStore::new(), &UrlInput { url: eps2[0].url.clone() });
    let urls: Vec<&str> = hs2.iter().map(|h| h.url.as_str()).collect();
    assert_eq!(urls, vec!["https://uqload.net/1", "https://uqload.net/9"]);
}
