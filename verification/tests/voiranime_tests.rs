use anime_dm_addons::abi::{set_config, ConfigStore};
use anime_dm_addons::api::{Hoster, PageInput, SearchInput, UrlInput};
use anime_dm_addons::common::{rot13, UA};
use anime_dm_addons::json::JsonValue;
use base64::Engine;
use anime_dm_addons::voiranime::{
    anime_details, balanced_end, first_per_key, base_url, episode_anchors, get, hoster_list, is_supported,
    jikan_request, mailru_id, mailru_meta_request, mailru_videos, mal_id, mal_id_of, mal_image, mal_image_of,
    mal_lookup_request, metadata, parse_anime, parse_hosters, pick, popular, preferences,
    quality_rank, search, slug_from_url, sources_object, streamtape_embed, streamtape_request,
    streamtape_url, streamtape_videos, video_list, vidmoly_request, vidmoly_videos,
    voe_page_videos, voe_redirect, voe_videos, wanted_quality, MailruVideo, VideoRoute,
};

/// VOE's obfuscated form of `json`: base64, reversed, every byte plus
/// three, base64 again, then ROT13.
fn voe_encode(json: &str) -> String {
    let b64 = base64::engine::general_purpose::STANDARD;
    let inner: Vec<u8> = b64.encode(json.as_bytes()).into_bytes();
    let shifted: Vec<u8> = inner.iter().rev().map(|b| b.wrapping_add(3)).collect();
    let outer = b64.encode(&shifted);
    let chars: Vec<char> = outer.chars().collect();
    rot13(&chars).iter().collect()
}

fn voe_page(json: &str) -> String {
    format!(
        "<html><body><script type=\"application/json\">[\"{}\"]</script></body></html>",
        voe_encode(json)
    )
}

fn store(json: &str) -> ConfigStore {
    let mut s = ConfigStore::new();
    set_config(&mut s, json);
    s
}

fn cs(s: &str) -> Vec<char> {
    s.chars().collect()
}

fn pairs(v: &[(String, String)]) -> Vec<(&str, &str)> {
    v.iter().map(|(a, b)| (a.as_str(), b.as_str())).collect()
}

fn obj(entries: Vec<(&str, JsonValue)>) -> JsonValue {
    JsonValue::Object(entries.into_iter().map(|(k, v)| (k.to_string(), v)).collect())
}

fn mv(key: &str, url: &str) -> MailruVideo {
    MailruVideo { key: key.to_string(), url: url.to_string() }
}

const EPISODE_PAGE: &str = r#"<script>var thisChapterSources = {"LECTEUR myTV":"<iframe src=\"https://vidmoly.to/embed-1.html\"></iframe>","LECTEUR VOE":"<iframe src='https://voe.sx/e/2'></iframe>","LECTEUR Stape":"<iframe src=\"https://streamtape.com/v/abc/name\"></iframe>","LECTEUR Other":"<iframe src=\"https://other.host/e/3\"></iframe>","LECTEUR Nada":"no frame {here}"};</script>"#;

#[test]
fn va_settings() {
    assert_eq!(base_url(&ConfigStore::new()), "https://voir-anime.to");
    assert_eq!(base_url(&store(r#"{"base_url":"https://v.to/"}"#)), "https://v.to");
    let r = get(&ConfigStore::new(), "https://voir-anime.to/anime/x/");
    assert_eq!(pairs(&r.headers), vec![("User-Agent", UA), ("Referer", "https://voir-anime.to")]);
    let m = metadata(&ConfigStore::new(), "2.0.0");
    assert_eq!((m.id.as_str(), m.name.as_str(), m.lang.as_str()), ("fr.voiranime", "Voir-Anime", "fr"));
}

#[test]
fn va_preferences_offer_their_defaults() {
    let p = preferences();
    assert_eq!(p.len(), 4);
    assert_eq!(p[1].key, "preferred_player");
    assert_eq!(p[1].options, vec!["Auto", "LECTEUR myTV", "LECTEUR Stape", "LECTEUR VOE", "LECTEUR FHD1"]);
    assert_eq!(p[2].options, vec!["Auto", "1080", "720", "480"]);
    assert_eq!(p[3].default, "Voir-Anime");
    for pref in &p[1..] {
        assert!(pref.options.contains(&pref.default));
    }
}

#[test]
fn va_slug_from_url() {
    assert_eq!(slug_from_url("https://v-a.to/anime/one-piece/"), Some("one-piece".to_string()));
    assert_eq!(slug_from_url("https://v-a.to/anime//naruto/ep-1/"), Some("naruto".to_string()));
    assert_eq!(slug_from_url("https://v-a.to/anime/"), None);
    assert_eq!(slug_from_url("https://v-a.to/film/x/"), None);
}

#[test]
fn va_mal_cover_requests_and_answers() {
    let r = mal_lookup_request("https://v-a.to/anime/one-piece/").unwrap();
    assert_eq!(r.url, "https://api.nijihub.com/api/v1/id-map/lookup?va_slug=one-piece");
    assert_eq!(pairs(&r.headers), vec![("User-Agent", UA)]);
    assert!(mal_lookup_request("https://v-a.to/").is_none());
    let lookup = obj(vec![("data", JsonValue::Array(vec![obj(vec![("mal_id", JsonValue::Number(Some(21)))])]))]);
    assert_eq!(mal_id_of(&lookup), Some(21));
    assert_eq!(mal_id_of(&obj(vec![("data", JsonValue::Array(vec![]))])), None);
    assert_eq!(mal_id(r#"{"data":[{"mal_id":21,"x":1}]}"#), Some(21));
    assert_eq!(mal_id(r#"{"data":[]}"#), None);
    assert_eq!(mal_id("<html>"), None);
    assert_eq!(jikan_request(21).url, "https://api.jikan.moe/v4/anime/21");
    let jikan = obj(vec![(
        "data",
        obj(vec![(
            "images",
            obj(vec![
                ("jpg", obj(vec![("image_url", JsonValue::String("https://j/s.jpg".to_string()))])),
                ("webp", obj(vec![("large_image_url", JsonValue::String("https://j/l.webp".to_string()))])),
            ]),
        )]),
    )]);
    assert_eq!(mal_image_of(&jikan), Some("https://j/s.jpg".to_string()));
    assert_eq!(mal_image_of(&JsonValue::Null), None);
    assert_eq!(
        mal_image(r#"{"data":{"images":{"jpg":{"large_image_url":"https://j/l.jpg","image_url":"https://j/s.jpg"}}}}"#),
        Some("https://j/l.jpg".to_string())
    );
    assert_eq!(mal_image("nope"), None);
}

#[test]
fn va_anime_details_with_and_without_mal_cover() {
    let html = r#"<div class="post-title"><h1> Frieren </h1></div><div class="summary_image"><img src="//cdn.v/p.jpg"></div>"#;
    let a = parse_anime(html, "https://v/anime/f/");
    assert_eq!(a.title, "Frieren");
    assert_eq!(a.poster_url, Some("https:cdn.v/p.jpg".to_string()));
    assert_eq!(parse_anime("<p></p>", "u").title, "Anim\u{e9}");
    let input = UrlInput { url: "https://v/anime/f/".to_string() };
    let mal = Some("https://j/l.jpg".to_string());
    let keep = anime_details(&ConfigStore::new(), &input, html, mal.clone());
    assert_eq!(keep.poster_url, Some("https:cdn.v/p.jpg".to_string()));
    let swap = anime_details(&store(r#"{"cover_source":"MAL"}"#), &input, html, mal);
    assert_eq!(swap.poster_url, Some("https://j/l.jpg".to_string()));
    let none = anime_details(&store(r#"{"cover_source":"MAL"}"#), &input, html, None);
    assert_eq!(none.poster_url, Some("https:cdn.v/p.jpg".to_string()));
}

#[test]
fn va_episode_anchors_keep_label_and_last_number() {
    let html = r#"<ul><li class="wp-manga-chapter"><a href="https://v/ep-12/"> One Piece - 12 </a></li>
        <li class="wp-manga-chapter"><a href="https://v/ep-12-5/">OP 3 - 12.5 VOSTFR</a></li>
        <li class="wp-manga-chapter"><a>no link</a></li>
        <li class="wp-manga-chapter"><a href="https://v/sp/">Special</a></li></ul>"#;
    let a = episode_anchors(html);
    assert_eq!(a.len(), 3);
    assert_eq!(a[0].href, "https://v/ep-12/");
    assert_eq!(a[0].label, "One Piece - 12");
    assert_eq!(a[0].number_text, Some("12".to_string()));
    assert_eq!(a[1].number_text, Some("12.5".to_string()));
    assert_eq!(a[2].number_text, None);
}

#[test]
fn va_first_link_per_key_in_key_order() {
    assert_eq!(first_per_key(&vec![120, 125, 120, 0, 10, 0]), vec![3, 4, 0, 1]);
    assert_eq!(first_per_key(&vec![]), Vec::<usize>::new());
    assert_eq!(first_per_key(&vec![-5, 7, -5]), vec![0, 1]);
}

#[test]
fn va_balanced_object_ends_at_first_balance() {
    assert_eq!(balanced_end(&cs("{\"a\":{\"b\":1}} tail }")), Some(12));
    assert_eq!(balanced_end(&cs("{\"x\":\"}\\\"}\"} rest")), Some(11));
    assert_eq!(balanced_end(&cs("{ never closed")), None);
    assert_eq!(balanced_end(&cs("x{}")), None);
    assert_eq!(balanced_end(&cs("")), None);
}

#[test]
fn va_sources_object_after_marker() {
    assert_eq!(
        sources_object("x {} thisChapterSources = {\"a\":\"b\"}; {}"),
        Some("{\"a\":\"b\"}".to_string())
    );
    assert_eq!(sources_object("no marker {\"a\":\"b\"}"), None);
    assert_eq!(sources_object("thisChapterSources without brace"), None);
}

#[test]
fn va_parse_hosters_keeps_supported_in_key_order() {
    let hs = parse_hosters(EPISODE_PAGE);
    let got: Vec<(String, String)> = hs.iter().map(|h| (h.name.clone(), h.url.clone())).collect();
    assert_eq!(
        got,
        vec![
            ("LECTEUR Stape".to_string(), "https://streamtape.com/v/abc/name".to_string()),
            ("LECTEUR VOE".to_string(), "https://voe.sx/e/2".to_string()),
            ("LECTEUR myTV".to_string(), "https://vidmoly.to/embed-1.html".to_string()),
        ]
    );
    assert!(parse_hosters("thisChapterSources = [1,2]").is_empty());
    // A protocol-relative source becomes `https:host/...`, whose third
    // `/`-piece is no supported host.
    assert!(parse_hosters(r#"thisChapterSources = {"A":"<iframe src='//voe.sx/e/2'>"}"#).is_empty());
    assert!(is_supported("my.mail.ru"));
    assert!(!is_supported("other.host"));
}

#[test]
fn va_hoster_list_moves_preferred_player_first() {
    let hs = hoster_list(&store(r#"{"preferred_player":"lecteur myTV"}"#), EPISODE_PAGE);
    let names: Vec<&str> = hs.iter().map(|h| h.name.as_str()).collect();
    assert_eq!(names, vec!["LECTEUR myTV", "LECTEUR Stape", "LECTEUR VOE"]);
    let auto = hoster_list(&store(r#"{"preferred_player":"Auto"}"#), EPISODE_PAGE);
    let names2: Vec<&str> = auto.iter().map(|h| h.name.as_str()).collect();
    assert_eq!(names2, vec!["LECTEUR Stape", "LECTEUR VOE", "LECTEUR myTV"]);
    let missing = hoster_list(&store(r#"{"preferred_player":"LECTEUR FHD1"}"#), EPISODE_PAGE);
    assert_eq!(missing.len(), 3);
    assert_eq!(missing[0].name, "LECTEUR Stape");
}

#[test]
fn va_every_offered_hoster_has_an_extractor() {
    for h in hoster_list(&ConfigStore::new(), EPISODE_PAGE) {
        assert!(!matches!(video_list(&h), VideoRoute::Unsupported));
    }
}

#[test]
fn va_video_routes() {
    let h = |u: &str| Hoster { url: u.to_string(), name: String::new() };
    assert!(matches!(video_list(&h("https://vidmoly.to/e")), VideoRoute::Vidmoly));
    assert!(matches!(video_list(&h("https://streamtape.com/e/1")), VideoRoute::Streamtape));
    assert!(matches!(video_list(&h("https://my.mail.ru/video/embed/1")), VideoRoute::MailRu));
    assert!(matches!(video_list(&h("https://voe.sx/e/1")), VideoRoute::Voe));
    assert!(matches!(video_list(&h("https://x.y/e/1")), VideoRoute::Unsupported));
}

#[test]
fn va_vidmoly_playlists() {
    let r = vidmoly_request("https://vidmoly.to/embed-1.html");
    assert_eq!(
        pairs(&r.headers),
        vec![("User-Agent", UA), ("Referer", "https://vidmoly.biz/"), ("Origin", "https://vidmoly.biz")]
    );
    let html = r#"sources: [{file:"https://b.v/m.m3u8?t=1"},{file : 'https://b.v/m.m3u8?t=1'},{file:"https://b.v/x.mp4"},{file:"https://b.v/n.m3u8"}]"#;
    let v = vidmoly_videos(html);
    let urls: Vec<&str> = v.iter().map(|x| x.url.as_str()).collect();
    assert_eq!(urls, vec!["https://b.v/m.m3u8?t=1", "https://b.v/n.m3u8"]);
    assert_eq!(v[0].quality, "auto");
    assert_eq!(pairs(&v[0].headers), vec![("Referer", "https://vidmoly.biz/"), ("Origin", "https://vidmoly.biz")]);
}

#[test]
fn va_streamtape_link() {
    assert_eq!(streamtape_embed("https://streamtape.com/e/abc"), "https://streamtape.com/e/abc");
    assert_eq!(streamtape_embed("https://streamtape.com/v/abc/name.mp4"), "https://streamtape.com/e/abc");
    assert_eq!(streamtape_embed("https://streamtape.com/v"), "https://streamtape.com/v");
    let r = streamtape_request("https://streamtape.com/v/abc/name");
    assert_eq!(r.url, "https://streamtape.com/e/abc");
    assert_eq!(pairs(&r.headers), vec![("User-Agent", UA), ("Referer", "https://voir-anime.to/")]);
    let html = "document.getElementById('robotlink').innerHTML = '//streamtape.com/get_vi' + ('xyzdeo?id=1&token=t').substring(1).substring(2);";
    assert_eq!(streamtape_url(html), Some("https://streamtape.com/get_video?id=1&token=t".to_string()));
    let v = streamtape_videos(html);
    assert_eq!(v.len(), 1);
    assert_eq!(v[0].quality, "Streamtape");
    assert_eq!(pairs(&v[0].headers), vec![("Referer", "https://streamtape.com/")]);
    let far = "document.getElementById('robotlink').innerHTML = '//s/get_video' + ('ab').substring(9);";
    assert_eq!(streamtape_url(far), Some("https://s/get_video".to_string()));
    let no_get = "document.getElementById('robotlink').innerHTML = '//s/x' + ('ab').substring(1);";
    assert_eq!(streamtape_url(no_get), None);
    assert!(streamtape_videos("nothing").is_empty());
}

#[test]
fn va_mailru_requests() {
    assert_eq!(mailru_id("https://my.mail.ru/video/embed/123456789/?x=1"), Some("123456789".to_string()));
    assert_eq!(mailru_id("https://my.mail.ru/video/embed/42"), Some("42".to_string()));
    assert_eq!(mailru_id("///"), None);
    let r = mailru_meta_request("https://my.mail.ru/video/embed/42").unwrap();
    assert_eq!(
        r.url,
        "https://my.mail.ru/+/video/meta/42?xemail=&ajax_call=1&func_name=&mna=&mnb=&ext=1&_=1"
    );
    assert_eq!(
        pairs(&r.headers),
        vec![
            ("User-Agent", UA),
            ("Referer", "https://my.mail.ru/video/embed/42"),
            ("X-Requested-With", "XMLHttpRequest"),
        ]
    );
}

#[test]
fn va_quality_rank_reads_leading_digits() {
    assert_eq!(quality_rank("1080p"), 1080);
    assert_eq!(quality_rank("720"), 720);
    assert_eq!(quality_rank("hd"), 0);
    assert_eq!(quality_rank("99999999999p"), 0);
}

#[test]
fn va_mailru_pick_rules() {
    let vids = vec![mv("360p", "a"), mv("1080p", "b"), mv("720p", "c"), mv("1080p", "d")];
    assert_eq!(pick(&vids, None), Some(3));
    assert_eq!(pick(&vids, Some(700)), Some(2));
    assert_eq!(pick(&vids, Some(900)), Some(1));
    assert_eq!(pick(&vec![], None), None);
    assert_eq!(wanted_quality(&store(r#"{"quality":"720"}"#)), Some(720));
    assert_eq!(wanted_quality(&store(r#"{"quality":"Auto"}"#)), None);
    assert_eq!(wanted_quality(&store(r#"{"quality":"best"}"#)), None);
}

#[test]
fn va_mailru_video_with_cookie() {
    let vids = vec![
        mv("480p", "//cdn.mail/480.mp4?video_key=K1&x=1"),
        mv("720p", "https://cdn.mail/720.mp4"),
    ];
    let v = mailru_videos(&store(r#"{"quality":"480"}"#), &vids);
    assert_eq!(v.len(), 1);
    assert_eq!(v[0].url, "https:cdn.mail/480.mp4?video_key=K1&x=1");
    assert_eq!(v[0].quality, "480p");
    assert_eq!(
        pairs(&v[0].headers),
        vec![("Referer", "https://my.mail.ru/"), ("Cookie", "video_key=K1")]
    );
    let best = mailru_videos(&ConfigStore::new(), &vids);
    assert_eq!(best[0].url, "https://cdn.mail/720.mp4");
    assert_eq!(pairs(&best[0].headers), vec![("Referer", "https://my.mail.ru/")]);
    assert!(mailru_videos(&ConfigStore::new(), &vec![]).is_empty());
}

#[test]
fn va_voe_redirect_and_videos() {
    assert_eq!(
        voe_redirect("<script>window.location.href = 'https://alias.x/e/1';</script>"),
        Some("https://alias.x/e/1".to_string())
    );
    assert_eq!(voe_redirect("window.location.href = \"https://alias.x/e/1\""), None);
    let meta = obj(vec![
        ("direct_access_url", JsonValue::String("https://v/v.mp4".to_string())),
        ("source", JsonValue::String("https://v/h.m3u8".to_string())),
    ]);
    let v = voe_videos(Some(&meta));
    let got: Vec<(&str, &str)> = v.iter().map(|x| (x.url.as_str(), x.quality.as_str())).collect();
    assert_eq!(got, vec![("https://v/h.m3u8", "Voe HLS"), ("https://v/v.mp4", "Voe MP4")]);
    assert_eq!(pairs(&v[0].headers), vec![("Referer", "https://voe.sx/")]);
    assert!(voe_videos(None).is_empty());
}

#[test]
fn va_listings_are_empty() {
    assert!(popular(&PageInput { page: 1 }).animes.is_empty());
    assert!(search(&SearchInput { query: "q".to_string(), page: 1 }).animes.is_empty());
}

#[test]
fn va_voe_page_videos_decode_the_page() {
    let html = voe_page(r#"{"source":"https://v/h.m3u8","direct_access_url":"https://v/v.mp4"}"#);
    let v = voe_page_videos(&html);
    let got: Vec<(&str, &str)> = v.iter().map(|x| (x.url.as_str(), x.quality.as_str())).collect();
    assert_eq!(got, vec![("https://v/h.m3u8", "Voe HLS"), ("https://v/v.mp4", "Voe MP4")]);
    assert!(voe_page_videos("<html></html>").is_empty());
}
