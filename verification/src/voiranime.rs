//! Voir-Anime: anime series whose hosters sit in a `thisChapterSources`
//! object of the episode page, resolved per host (Vidmoly, Streamtape,
//! Mail.ru, VOE).
//!
//! Every entry point here computes from what the host fetched: the request
//! functions say what to fetch, the others turn the fetched text (and the
//! JSON it holds) into catalogue values.

use vstd::prelude::*;
use vstd::string::StringSliceAdditionalSpecFns;
use vstd::utf8::*;

use crate::abi::{config, setting, ConfigStore};
use crate::api::{
    video, Anime, AnimesPage, Hoster, Metadata, PageInput, Preference, PreferenceKind, Request,
    SearchInput, UrlInput, Video,
};
pub use crate::common::{fetch, headers, host_of, voe_decrypt, voe_from_html, UA};
use crate::common::{
    abs_url_with, defaults_are_options, deref_json, first_group, first_text, group, group_of,
    hosters_view, no_tracks, preferences_view, request_headers, sorted_distinct, spec_abs_url,
    spec_first_group, spec_first_text, spec_host_of, spec_videos_of, spec_voe_from_html, strictly_increasing, videos_of,
    videos_view,
};
use crate::json::{spec_as_i64, spec_as_str, spec_at, spec_member, spec_str_member, JsonValue};
use crate::outside::{
    html_select, html_select_within, json_string_map, parse_json, regex_captures,
    regex_captures_iter, regex_find_iter, spec_html_select, spec_html_select_within,
    spec_json_string_map, spec_json_value, spec_regex_captures, spec_regex_captures_iter,
    spec_regex_find_iter,
};
use crate::text::{
    before_first, before_first_of, chars_of, contains_str, dedupe, digit_prefix, digit_prefix_len,
    eq_ignore_ascii_case, find, first_index, i64_to_string, parse_unsigned, push_all, push_str,
    spec_contains, spec_dedupe, spec_eq_ignore_ascii_case, spec_i64_to_string, spec_parse_unsigned,
    spec_split, spec_trim, spec_trim_end_char, spec_trim_start_str, split, str_eq, str_get_from,
    string_of, trim, trim_end_char, trim_start_str,
};

verus! {

pub const DEFAULT_BASE: &'static str = "https://voir-anime.to";

pub const PREF_BASE_URL: &'static str = "base_url";

pub const PREF_PLAYER: &'static str = "preferred_player";

pub const PREF_QUALITY: &'static str = "quality";

pub const PREF_COVER: &'static str = "cover_source";

pub const AUTO: &'static str = "Auto";

pub const COVER_VA: &'static str = "Voir-Anime";

pub const COVER_MAL: &'static str = "MAL";

// ---------------------------------------------------------------------------
// Settings and requests
// ---------------------------------------------------------------------------

/// A setting, an empty value read as absent.
pub fn cfg(store: &ConfigStore, key: &str) -> (res: Option<String>)
    ensures
        res.deep_view() == setting(store.entries(), key@),
{
    config(store, key)
}

/// The site URL, overridable from the app, else the default.
pub open spec fn spec_base_url(entries: Seq<(Seq<char>, Seq<char>)>) -> Seq<char> {
    match setting(entries, PREF_BASE_URL@) {
        Some(s) => spec_trim_end_char(s, '/'),
        None => DEFAULT_BASE@,
    }
}

/// The site URL never ends with a slash, so that a path (which starts with
/// one) appends to it.
pub proof fn law_base_url_has_no_trailing_slash(entries: Seq<(Seq<char>, Seq<char>)>)
    ensures
        spec_base_url(entries).len() > 0 ==> spec_base_url(entries).last() != '/',
{
    reveal_strlit("https://voir-anime.to");
    match setting(entries, PREF_BASE_URL@) {
        Some(s) => crate::text::lemma_trim_end_char_last(s, '/'),
        None => {
            assert(DEFAULT_BASE@.last() == DEFAULT_BASE@[DEFAULT_BASE@.len() - 1]);
        },
    }
}

pub fn base_url(store: &ConfigStore) -> (res: String)
    ensures
        res@ == spec_base_url(store.entries()),
{
    match cfg(store, PREF_BASE_URL) {
        Some(s) => {
            let cs = chars_of(s.as_str());
            let t = trim_end_char(cs.as_slice(), '/');
            string_of(t.as_slice())
        },
        None => DEFAULT_BASE.to_owned(),
    }
}

/// A page of the site itself, with the site as Referer.
pub fn get(store: &ConfigStore, url: &str) -> (res: Request)
    ensures
        res.url@ == url@,
        res.headers.deep_view() == request_headers(
            seq![("Referer"@, spec_base_url(store.entries()))],
        ),
{
    let referer = base_url(store);
    let extra: [(&str, &str); 1] = [("Referer", referer.as_str())];
    let ex: &[(&str, &str)] = extra.as_slice();
    assert(ex.deep_view() =~= seq![("Referer"@, referer@)]);
    fetch(url, ex)
}

/// A request with no header but the user agent.
pub fn plain_request(url: &str) -> (res: Request)
    ensures
        res.url@ == url@,
        res.headers.deep_view() == request_headers(Seq::empty()),
{
    let extra: [(&str, &str); 0] = [];
    let ex: &[(&str, &str)] = extra.as_slice();
    assert(ex.deep_view() =~= Seq::<(Seq<char>, Seq<char>)>::empty());
    fetch(url, ex)
}

/// The Voir-Anime slug of an anime URL (`.../anime/<slug>/`): the text
/// between the first `/anime/` and the next, without leading slashes, up to
/// the next slash, trimmed; `None` when there is no `/anime/` or the slug is
/// empty.
pub open spec fn spec_slug_from_url(url: Seq<char>) -> Option<Seq<char>> {
    let pat = "/anime/"@;
    if spec_contains(url, pat) {
        let i = choose|i: int|
            crate::text::occurs_at(url, pat, i) && forall|j: int|
                0 <= j < i ==> !crate::text::occurs_at(url, pat, j);
        let after = before_first(url.subrange(i + pat.len(), url.len() as int), pat);
        let slug = spec_trim(spec_split(spec_trim_start_str(after, "/"@), '/')[0]);
        if slug.len() > 0 {
            Some(slug)
        } else {
            None
        }
    } else {
        None
    }
}

pub fn slug_from_url(url: &str) -> (res: Option<String>)
    ensures
        res.deep_view() == spec_slug_from_url(url@),
{
    let cs = chars_of(url);
    let n = cs.len();
    let pat = chars_of("/anime/");
    match find(cs.as_slice(), pat.as_slice()) {
        Some(i) => {
            proof {
                let k = choose|k: int|
                    crate::text::occurs_at(url@, "/anime/"@, k) && forall|j: int|
                        0 <= j < k ==> !crate::text::occurs_at(url@, "/anime/"@, j);
                assert(crate::text::occurs_at(url@, "/anime/"@, i as int));
                assert(k == i) by {
                    if k < i {
                    } else if k > i {
                    }
                }
            }
            assert(i + pat@.len() <= n);
            let rest = crate::text::slice(cs.as_slice(), i + pat.len(), n);
            let rest_s = string_of(rest.as_slice());
            let after = before_first_of(rest_s.as_str(), "/anime/");
            let slash = chars_of("/");
            let t = trim_start_str(after.as_slice(), slash.as_slice());
            let pieces = split(t.as_slice(), '/');
            let slug = trim(pieces[0].as_slice());
            if slug.len() > 0 {
                Some(string_of(slug.as_slice()))
            } else {
                None
            }
        },
        None => None,
    }
}

/// The request that maps a Voir-Anime slug to a MyAnimeList id.
pub fn mal_lookup_request(url: &str) -> (res: Option<Request>)
    ensures
        match res {
            Some(r) => spec_slug_from_url(url@) is Some && r.url@
                == "https://api.nijihub.com/api/v1/id-map/lookup?va_slug="@ + spec_slug_from_url(
                url@,
            )->0 && r.headers.deep_view() == request_headers(Seq::empty()),
            None => spec_slug_from_url(url@) is None,
        },
{
    match slug_from_url(url) {
        Some(slug) => {
            let mut u = chars_of("https://api.nijihub.com/api/v1/id-map/lookup?va_slug=");
            push_str(&mut u, slug.as_str());
            let target = string_of(u.as_slice());
            Some(plain_request(target.as_str()))
        },
        None => None,
    }
}

/// The `mal_id` of the first `data` entry of the id-map answer.
pub open spec fn spec_mal_id(lookup: JsonValue) -> Option<i64> {
    match spec_at(spec_member(lookup, "data"@), 0) {
        Some(first) => match crate::json::spec_get(first, "mal_id"@) {
            Some(id) => spec_as_i64(id),
            None => None,
        },
        None => None,
    }
}

pub fn mal_id_of(lookup: &JsonValue) -> (res: Option<i64>)
    ensures
        res == spec_mal_id(*lookup),
{
    let data = match lookup.get("data") {
        Some(d) => d,
        None => return None,
    };
    let first = match data.at(0) {
        Some(f) => f,
        None => return None,
    };
    match first.get("mal_id") {
        Some(id) => id.as_i64(),
        None => None,
    }
}

/// The request for a MyAnimeList entry on the Jikan API.
pub fn jikan_request(mal_id: i64) -> (res: Request)
    ensures
        res.url@ == "https://api.jikan.moe/v4/anime/"@ + spec_i64_to_string(mal_id),
        res.headers.deep_view() == request_headers(Seq::empty()),
{
    let mut u = chars_of("https://api.jikan.moe/v4/anime/");
    let d = i64_to_string(mal_id);
    push_all(&mut u, d.as_slice());
    let target = string_of(u.as_slice());
    plain_request(target.as_str())
}

/// The cover of a Jikan answer: the large JPEG, else the JPEG, else the
/// large WebP image.
pub open spec fn spec_mal_image(jikan: JsonValue) -> Option<Seq<char>> {
    let images = spec_member(spec_member(jikan, "data"@), "images"@);
    let jpg = spec_member(images, "jpg"@);
    match spec_as_str(spec_member(jpg, "large_image_url"@)) {
        Some(u) => Some(u),
        None => match spec_as_str(spec_member(jpg, "image_url"@)) {
            Some(u) => Some(u),
            None => spec_as_str(spec_member(spec_member(images, "webp"@), "large_image_url"@)),
        },
    }
}

/// `Index<&str>`: the member, or `null`.
fn member<'a>(v: &'a JsonValue, key: &str, null: &'a JsonValue) -> (res: &'a JsonValue)
    requires
        *null == JsonValue::Null,
    ensures
        *res == spec_member(*v, key@),
{
    match v.get(key) {
        Some(m) => m,
        None => null,
    }
}

pub fn mal_image_of(jikan: &JsonValue) -> (res: Option<String>)
    ensures
        res.deep_view() == spec_mal_image(*jikan),
{
    let null = JsonValue::Null;
    let images = member(member(jikan, "data", &null), "images", &null);
    let jpg = member(images, "jpg", &null);
    if let Some(u) = member(jpg, "large_image_url", &null).as_str() {
        return Some(u.clone());
    }
    if let Some(u) = member(jpg, "image_url", &null).as_str() {
        return Some(u.clone());
    }
    match member(member(images, "webp", &null), "large_image_url", &null).as_str() {
        Some(u) => Some(u.clone()),
        None => None,
    }
}

/// The MyAnimeList id of the id-map answer's body, when it is JSON naming
/// one.
pub fn mal_id(body: &str) -> (res: Option<i64>)
    ensures
        res == match spec_json_value(encode_utf8(body@)) {
            Some(v) => spec_mal_id(v),
            None => None,
        },
{
    match parse_json(body.as_bytes()) {
        Some(v) => mal_id_of(&v),
        None => None,
    }
}

/// The cover of the Jikan answer's body, when it is JSON naming one.
pub fn mal_image(body: &str) -> (res: Option<String>)
    ensures
        res.deep_view() == match spec_json_value(encode_utf8(body@)) {
            Some(v) => spec_mal_image(v),
            None => None,
        },
{
    match parse_json(body.as_bytes()) {
        Some(v) => mal_image_of(&v),
        None => None,
    }
}

/// Only hosters `video_list` can decode are worth returning.
pub open spec fn spec_is_supported(host: Seq<char>) -> bool {
    spec_contains(host, "vidmoly"@) || spec_contains(host, "streamtape"@) || spec_contains(
        host,
        "mail.ru"@,
    ) || spec_contains(host, "voe"@)
}

pub fn is_supported(host: &str) -> (res: bool)
    ensures
        res == spec_is_supported(host@),
{
    let h = chars_of(host);
    contains_str(h.as_slice(), "vidmoly") || contains_str(h.as_slice(), "streamtape")
        || contains_str(h.as_slice(), "mail.ru") || contains_str(h.as_slice(), "voe")
}

/// A protocol-relative link's two slashes replaced by `https:` (`//x`
/// becomes `https:x`).
pub fn abs_url(s: &str) -> (res: String)
    ensures
        res@ == spec_abs_url(None, s@),
{
    abs_url_with(None, s)
}

// ---------------------------------------------------------------------------
// Catalogue
// ---------------------------------------------------------------------------

/// What the addon is.
pub fn metadata(store: &ConfigStore, version: &str) -> (res: Metadata)
    ensures
        res.id@ == "fr.voiranime"@,
        res.name@ == "Voir-Anime"@,
        res.lang@ == "fr"@,
        res.base_url@ == spec_base_url(store.entries()),
        res.version@ == version@,
        !res.nsfw,
{
    Metadata {
        id: "fr.voiranime".to_owned(),
        name: "Voir-Anime".to_owned(),
        lang: "fr".to_owned(),
        base_url: base_url(store),
        version: version.to_owned(),
        nsfw: false,
    }
}

/// The players a user may prefer.
pub open spec fn players() -> Seq<Seq<char>> {
    seq!["LECTEUR myTV"@, "LECTEUR Stape"@, "LECTEUR VOE"@, "LECTEUR FHD1"@]
}

/// The settings Voir-Anime declares.
pub open spec fn spec_preferences() -> Seq<
    (Seq<char>, Seq<char>, Option<Seq<char>>, Seq<char>, PreferenceKind, Seq<Seq<char>>),
> {
    seq![
        (
            PREF_BASE_URL@,
            "URL du site"@,
            Some("Domaine de Voir-Anime (ex : https://voir-anime.to)"@),
            DEFAULT_BASE@,
            PreferenceKind::Text,
            Seq::empty(),
        ),
        (
            PREF_PLAYER@,
            "Lecteur pr\u{e9}f\u{e9}r\u{e9}"@,
            Some("Lecteur essay\u{e9} en premier pour le t\u{e9}l\u{e9}chargement."@),
            AUTO@,
            PreferenceKind::Select,
            seq![AUTO@] + players(),
        ),
        (
            PREF_QUALITY@,
            "Qualit\u{e9} pr\u{e9}f\u{e9}r\u{e9}e"@,
            Some("Appliqu\u{e9}e quand le lecteur propose plusieurs qualit\u{e9}s (FHD1)."@),
            AUTO@,
            PreferenceKind::Select,
            seq!["Auto"@, "1080"@, "720"@, "480"@],
        ),
        (
            PREF_COVER@,
            "Source de l'affiche"@,
            Some(
                "\u{ab} MAL \u{bb} r\u{e9}cup\u{e8}re l'affiche depuis MyAnimeList (via nijihub + Jikan)."@,
            ),
            COVER_VA@,
            PreferenceKind::Select,
            seq![COVER_VA@, COVER_MAL@],
        ),
    ]
}

/// Each choice setting (player, quality, cover) offers its own default.
pub proof fn law_select_defaults_are_options()
    ensures
        defaults_are_options(spec_preferences()),
{
    let prefs = spec_preferences();
    assert(prefs[1].5[0] == prefs[1].3);
    assert(prefs[2].5[0] == prefs[2].3);
    assert(prefs[3].5[0] == prefs[3].3);
}

fn strings(items: &[&str]) -> (res: Vec<String>)
    ensures
        res.deep_view() == items.deep_view(),
{
    let mut out: Vec<String> = Vec::new();
    let mut i: usize = 0;
    while i < items.len()
        invariant
            0 <= i <= items@.len(),
            out.deep_view() =~= items.deep_view().take(i as int),
        decreases items@.len() - i,
    {
        let ghost before = out.deep_view();
        out.push(items[i].to_owned());
        assert(out.deep_view() =~= before.push(items.deep_view()[i as int]));
        i = i + 1;
    }
    assert(items.deep_view().take(items@.len() as int) =~= items.deep_view());
    out
}

pub fn preferences() -> (res: Vec<Preference>)
    ensures
        preferences_view(res@) == spec_preferences(),
{
    let player_items: [&str; 5] = [AUTO, "LECTEUR myTV", "LECTEUR Stape", "LECTEUR VOE", "LECTEUR FHD1"];
    let pi: &[&str] = player_items.as_slice();
    let player_opts = strings(pi);
    assert(pi.deep_view() =~= seq![AUTO@] + players());
    let quality_items: [&str; 4] = ["Auto", "1080", "720", "480"];
    let qi: &[&str] = quality_items.as_slice();
    let quality_opts = strings(qi);
    assert(qi.deep_view() =~= seq!["Auto"@, "1080"@, "720"@, "480"@]);
    let cover_items: [&str; 2] = [COVER_VA, COVER_MAL];
    let ci: &[&str] = cover_items.as_slice();
    let cover_opts = strings(ci);
    assert(ci.deep_view() =~= seq![COVER_VA@, COVER_MAL@]);
    let mut out: Vec<Preference> = Vec::new();
    out.push(
        Preference {
            key: PREF_BASE_URL.to_owned(),
            title: "URL du site".to_owned(),
            summary: Some("Domaine de Voir-Anime (ex : https://voir-anime.to)".to_owned()),
            default: DEFAULT_BASE.to_owned(),
            kind: PreferenceKind::Text,
            options: Vec::new(),
        },
    );
    out.push(
        Preference {
            key: PREF_PLAYER.to_owned(),
            title: "Lecteur pr\u{e9}f\u{e9}r\u{e9}".to_owned(),
            summary: Some("Lecteur essay\u{e9} en premier pour le t\u{e9}l\u{e9}chargement.".to_owned()),
            default: AUTO.to_owned(),
            kind: PreferenceKind::Select,
            options: player_opts,
        },
    );
    out.push(
        Preference {
            key: PREF_QUALITY.to_owned(),
            title: "Qualit\u{e9} pr\u{e9}f\u{e9}r\u{e9}e".to_owned(),
            summary: Some(
                "Appliqu\u{e9}e quand le lecteur propose plusieurs qualit\u{e9}s (FHD1).".to_owned(),
            ),
            default: AUTO.to_owned(),
            kind: PreferenceKind::Select,
            options: quality_opts,
        },
    );
    out.push(
        Preference {
            key: PREF_COVER.to_owned(),
            title: "Source de l'affiche".to_owned(),
            summary: Some(
                "\u{ab} MAL \u{bb} r\u{e9}cup\u{e8}re l'affiche depuis MyAnimeList (via nijihub + Jikan).".to_owned(),
            ),
            default: COVER_VA.to_owned(),
            kind: PreferenceKind::Select,
            options: cover_opts,
        },
    );
    assert(out@[0].options.deep_view() =~= Seq::<Seq<char>>::empty());
    assert(preferences_view(out@) =~= spec_preferences());
    out
}

pub const TITLE: &'static str = ".post-title h1, .post-title h3";

pub const POSTER: &'static str = ".summary_image img";

/// The show's title (`Animé` when the page has none) and its poster.
pub open spec fn spec_parse_anime(html: Seq<char>, url: Seq<char>) -> (Seq<char>, Seq<char>, Option<Seq<char>>) {
    let title = match spec_first_text(html, TITLE@) {
        Some(t) => t,
        None => "Anim\u{e9}"@,
    };
    let poster = match spec_html_select(html, POSTER@, "src"@) {
        Some(els) => if els.len() > 0 && els[0].0 is Some {
            Some(spec_abs_url(None, els[0].0->0))
        } else {
            None
        },
        None => None,
    };
    (url, title, poster)
}

pub fn parse_anime(html: &str, url: &str) -> (res: Anime)
    ensures
        (res.url@, res.title@, res.poster_url.deep_view()) == spec_parse_anime(html@, url@),
        res.description is None,
        res.genres@.len() == 0,
        res.status is None,
{
    let title = match first_text(html, TITLE) {
        Some(t) => t,
        None => "Anim\u{e9}".to_owned(),
    };
    let poster_url = match html_select(html, POSTER, "src") {
        Some(els) => {
            if els.len() > 0 {
                match &els[0].0 {
                    Some(src) => Some(abs_url(src.as_str())),
                    None => None,
                }
            } else {
                None
            }
        },
        None => None,
    };
    Anime {
        url: url.to_owned(),
        title,
        poster_url,
        description: None,
        genres: Vec::new(),
        status: None,
    }
}

/// The cover is fetched from MyAnimeList when the `cover_source` setting
/// says `MAL`.
pub open spec fn spec_wants_mal_cover(entries: Seq<(Seq<char>, Seq<char>)>) -> bool {
    setting(entries, PREF_COVER@) == Some(COVER_MAL@)
}

pub fn wants_mal_cover(store: &ConfigStore) -> (res: bool)
    ensures
        res == spec_wants_mal_cover(store.entries()),
{
    match cfg(store, PREF_COVER) {
        Some(c) => str_eq(c.as_str(), COVER_MAL),
        None => false,
    }
}

/// A show's details from its page; `mal_cover` is the MyAnimeList cover the
/// app found (`mal_lookup_request`, `mal_id`, `jikan_request`, `mal_image`),
/// `None` when it was not asked for or not found. The site's poster stays
/// unless a MAL cover was asked for and found.
pub fn anime_details(store: &ConfigStore, input: &UrlInput, html: &str, mal_cover: Option<String>) -> (res: Anime)
    ensures
        res.url@ == input.url@,
        res.title@ == spec_parse_anime(html@, input.url@).1,
        res.poster_url.deep_view() == if spec_wants_mal_cover(store.entries()) && mal_cover is Some {
            Some(mal_cover->0@)
        } else {
            spec_parse_anime(html@, input.url@).2
        },
        res.description is None,
        res.genres@.len() == 0,
        res.status is None,
{
    let mut anime = parse_anime(html, input.url.as_str());
    if wants_mal_cover(store) {
        if let Some(cover) = mal_cover {
            anime.poster_url = Some(cover);
        }
    }
    anime
}

// ---------------------------------------------------------------------------
// Episodes
// ---------------------------------------------------------------------------

pub const EPISODE_ITEMS: &'static str = "li.wp-manga-chapter";

/// A number in an episode's label (`12` or `12.5`).
pub const NUMBER: &'static str = "\\d+(?:\\.\\d+)?";

/// One episode link of a show page: its target, its trimmed label and the
/// last number the label holds. Turning that number into the episode number
/// takes floating point, which the app does.
pub struct EpisodeAnchor {
    pub href: String,
    pub label: String,
    pub number_text: Option<String>,
}

pub open spec fn anchor_view(a: EpisodeAnchor) -> (Seq<char>, Seq<char>, Option<Seq<char>>) {
    (a.href@, a.label@, a.number_text.deep_view())
}

/// The last match of `NUMBER` in a label.
pub open spec fn spec_last_number(label: Seq<char>) -> Option<Seq<char>> {
    let found = spec_regex_find_iter(NUMBER@, label);
    if found.len() > 0 {
        Some(found.last())
    } else {
        None
    }
}

pub open spec fn anchors_of(items: Seq<Option<(Option<Seq<char>>, Seq<char>)>>) -> Seq<(Seq<char>, Seq<char>, Option<Seq<char>>)>
    decreases items.len(),
{
    if items.len() == 0 {
        Seq::empty()
    } else {
        let init = anchors_of(items.drop_last());
        match items.last() {
            Some((Some(href), text)) => init.push(
                (href, spec_trim(text), spec_last_number(spec_trim(text))),
            ),
            _ => init,
        }
    }
}

/// The episode links of a show page, in the order the selection yields
/// them: every chapter item whose first link has a target.
pub open spec fn spec_episode_anchors(html: Seq<char>) -> Seq<(Seq<char>, Seq<char>, Option<Seq<char>>)> {
    match spec_html_select_within(html, EPISODE_ITEMS@, "a"@, "href"@) {
        Some(items) => anchors_of(items),
        None => Seq::empty(),
    }
}

pub fn episode_anchors(html: &str) -> (res: Vec<EpisodeAnchor>)
    ensures
        Seq::new(res@.len(), |i: int| anchor_view(res@[i])) == spec_episode_anchors(html@),
{
    let mut out: Vec<EpisodeAnchor> = Vec::new();
    match html_select_within(html, EPISODE_ITEMS, "a", "href") {
        Some(items) => {
            let mut i: usize = 0;
            while i < items.len()
                invariant
                    0 <= i <= items@.len(),
                    Seq::new(out@.len(), |k: int| anchor_view(out@[k])) == anchors_of(
                        items.deep_view().take(i as int),
                    ),
                decreases items@.len() - i,
            {
                let ghost t = items.deep_view().take(i + 1);
                assert(t.drop_last() =~= items.deep_view().take(i as int));
                assert(t.last() == items.deep_view()[i as int]);
                if let Some((Some(href), text)) = &items[i] {
                    let label = crate::text::trim_str(text.as_str());
                    let label_s = string_of(label.as_slice());
                    let found = regex_find_iter(NUMBER, label_s.as_str());
                    let number_text = if found.len() > 0 {
                        Some(found[found.len() - 1].clone())
                    } else {
                        None
                    };
                    let ghost before = Seq::new(out@.len(), |k: int| anchor_view(out@[k]));
                    let a = EpisodeAnchor { href: href.clone(), label: label_s, number_text };
                    out.push(a);
                    assert(Seq::new(out@.len(), |k: int| anchor_view(out@[k])) =~= before.push(
                        anchor_view(a),
                    ));
                }
                i = i + 1;
            }
            assert(items.deep_view().take(items@.len() as int) =~= items.deep_view());
        },
        None => {
            assert(Seq::new(out@.len(), |k: int| anchor_view(out@[k])) =~= Seq::<
                (Seq<char>, Seq<char>, Option<Seq<char>>),
            >::empty());
        },
    }
    out
}

/// The position of the first key equal to `k`.
fn first_with_key(keys: &Vec<i64>, k: i64) -> (res: Option<usize>)
    ensures
        match res {
            Some(p) => p < keys@.len() && keys@[p as int] == k && forall|q: int|
                0 <= q < p ==> keys@[q] != k,
            None => !keys@.contains(k),
        },
{
    let mut i: usize = 0;
    while i < keys.len()
        invariant
            0 <= i <= keys@.len(),
            forall|q: int| 0 <= q < i ==> keys@[q] != k,
        decreases keys@.len() - i,
    {
        if keys[i] == k {
            return Some(i);
        }
        i = i + 1;
    }
    None
}

/// Some listed position holds key `x`.
pub open spec fn lists_key(keys: Seq<i64>, positions: Seq<usize>, x: i64) -> bool {
    exists|j: int| 0 <= j < positions.len() && keys[#[trigger] positions[j] as int] == x
}

/// The episode links a show page lists, as positions in `keys` (each link's
/// key, which the app derives from its number): for each distinct key, in
/// ascending key order, the first link that has it.
pub fn first_per_key(keys: &Vec<i64>) -> (res: Vec<usize>)
    ensures
        forall|j: int|
            0 <= j < res@.len() ==> (#[trigger] res@[j]) < keys@.len() && forall|q: int|
                0 <= q < res@[j] ==> #[trigger] keys@[q] != keys@[res@[j] as int],
        forall|a: int, b: int|
            0 <= a < b < res@.len() ==> keys@[(#[trigger] res@[a]) as int] < keys@[(
            #[trigger] res@[b]) as int],
        forall|p: int| 0 <= p < keys@.len() ==> lists_key(keys@, res@, #[trigger] keys@[p]),
{
    let ds = sorted_distinct(keys);
    let mut out: Vec<usize> = Vec::new();
    let mut i: usize = 0;
    while i < ds.len()
        invariant
            0 <= i <= ds@.len(),
            out@.len() == i,
            strictly_increasing(ds@),
            forall|x: i64| ds@.contains(x) <==> keys@.contains(x),
            forall|j: int|
                0 <= j < i ==> (#[trigger] out@[j]) < keys@.len() && keys@[out@[j] as int] == ds@[j]
                    && forall|q: int| 0 <= q < out@[j] ==> #[trigger] keys@[q] != ds@[j],
        decreases ds@.len() - i,
    {
        let d = ds[i];
        assert(ds@.contains(d));
        match first_with_key(keys, d) {
            Some(p) => {
                out.push(p);
            },
            None => {
                assert(false);
            },
        }
        i = i + 1;
    }
    assert forall|p: int| 0 <= p < keys@.len() implies lists_key(keys@, out@, #[trigger] keys@[p]) by {
        assert(keys@.contains(keys@[p]));
        assert(ds@.contains(keys@[p]));
        let j = choose|j: int| 0 <= j < ds@.len() && ds@[j] == keys@[p];
        assert(keys@[out@[j] as int] == ds@[j]);
    }
    out
}

/// The quality a Mail.ru key names: its leading ASCII digits as a `u32`,
/// 0 when there are none or they overflow.
pub open spec fn spec_quality_rank(key: Seq<char>) -> u32 {
    match spec_parse_unsigned(key.subrange(0, digit_prefix_len(key)), u32::MAX as int) {
        Some(v) => v as u32,
        None => 0,
    }
}

pub fn quality_rank(key: &str) -> (res: u32)
    ensures
        res == spec_quality_rank(key@),
{
    let cs = chars_of(key);
    let k = digit_prefix(cs.as_slice());
    let digits = crate::text::slice(cs.as_slice(), 0, k);
    match parse_unsigned(digits.as_slice(), u32::MAX as u64) {
        Some(v) => v as u32,
        None => 0,
    }
}


// ---------------------------------------------------------------------------
// Hosters
// ---------------------------------------------------------------------------

/// The script variable whose object lists an episode's players.
pub const SOURCES_MARK: &'static str = "thisChapterSources";

/// The `src` of an iframe.
pub const IFRAME_SRC: &'static str = "src=[\"']([^\"']+)[\"']";

/// The state of the scan for the end of a JSON object after `s[..n]`:
/// brace depth, inside a string literal, right after a backslash in one.
#[verifier::opaque]
pub open spec fn scan_state(s: Seq<char>, n: int) -> (int, bool, bool)
    decreases n,
{
    if n <= 0 {
        (0, false, false)
    } else {
        let st = scan_state(s, n - 1);
        let c = s[n - 1];
        if st.1 {
            if st.2 {
                (st.0, true, false)
            } else if c == '\\' {
                (st.0, true, true)
            } else if c == '"' {
                (st.0, false, false)
            } else {
                (st.0, true, false)
            }
        } else if c == '"' {
            (st.0, true, false)
        } else if c == '{' {
            (st.0 + 1, false, false)
        } else if c == '}' {
            (st.0 - 1, false, false)
        } else {
            (st.0, false, false)
        }
    }
}

/// `s[i]` is a `}` outside any string that brings the depth back to zero.
pub open spec fn closes_at(s: Seq<char>, i: int) -> bool {
    0 <= i < s.len() && !scan_state(s, i).1 && s[i] == '}' && scan_state(s, i).0 == 1
}

/// Where the object that opens at `s[0]` closes: the first `}` outside
/// strings at which the braces balance. `None` when `s` does not start with
/// `{` or the object never closes.
#[verifier::opaque]
pub open spec fn spec_balanced_end(s: Seq<char>) -> Option<int> {
    if s.len() > 0 && s[0] == '{' && exists|i: int| closes_at(s, i) {
        Some(choose|i: int| closes_at(s, i) && forall|j: int| 0 <= j < i ==> !closes_at(s, j))
    } else {
        None
    }
}

/// The smallest balanced `{ ... }` prefix of `s`.
pub open spec fn spec_balanced_object(s: Seq<char>) -> Option<Seq<char>> {
    match spec_balanced_end(s) {
        Some(i) => Some(s.subrange(0, i + 1)),
        None => None,
    }
}

/// The index of the `}` that closes the object opening at `s[0]`.
pub fn balanced_end(s: &[char]) -> (res: Option<usize>)
    ensures
        match res {
            Some(i) => spec_balanced_end(s@) == Some(i as int) && i < s@.len()
                && spec_balanced_object(s@) == Some(s@.subrange(0, i + 1)),
            None => spec_balanced_end(s@) is None && spec_balanced_object(s@) is None,
        },
{
    reveal(spec_balanced_end);
    if s.len() == 0 || s[0] != '{' {
        return None;
    }
    assert(scan_state(s@, 0) == (0int, false, false)) by {
        reveal(scan_state);
    }
    let mut depth: usize = 0;
    let mut in_str = false;
    let mut escaped = false;
    let mut i: usize = 0;
    while i < s.len()
        invariant
            0 <= i <= s@.len(),
            s@.len() > 0,
            s@[0] == '{',
            scan_state(s@, i as int) == (depth as int, in_str, escaped),
            depth <= i,
            i > 0 ==> depth >= 1,
            forall|j: int| 0 <= j < i ==> !closes_at(s@, j),
        decreases s@.len() - i,
    {
        let c = s[i];
        reveal(scan_state);
        assert(scan_state(s@, i + 1) == {
            let st = scan_state(s@, i as int);
            if st.1 {
                if st.2 {
                    (st.0, true, false)
                } else if c == '\\' {
                    (st.0, true, true)
                } else if c == '"' {
                    (st.0, false, false)
                } else {
                    (st.0, true, false)
                }
            } else if c == '"' {
                (st.0, true, false)
            } else if c == '{' {
                (st.0 + 1, false, false)
            } else if c == '}' {
                (st.0 - 1, false, false)
            } else {
                (st.0, false, false)
            }
        });
        if in_str {
            if escaped {
                escaped = false;
            } else if c == '\\' {
                escaped = true;
            } else if c == '"' {
                in_str = false;
            }
        } else if c == '"' {
            in_str = true;
        } else if c == '{' {
            depth = depth + 1;
        } else if c == '}' {
            if depth == 1 {
                proof {
                    reveal(spec_balanced_end);
                    assert(closes_at(s@, i as int));
                    let k = choose|k: int|
                        closes_at(s@, k) && forall|j: int| 0 <= j < k ==> !closes_at(s@, j);
                    assert(closes_at(s@, k));
                    assert(k == i) by {
                        if k < i {
                        } else if k > i {
                        }
                    }
                }
                return Some(i);
            }
            depth = depth - 1;
        }
        i = i + 1;
    }
    proof {
        reveal(spec_balanced_end);
        assert forall|j: int| !closes_at(s@, j) by {
            if 0 <= j < s@.len() {
            }
        }
    }
    None
}

/// The players object of an episode page: after the first
/// `thisChapterSources`, the first `{` and the balanced object it opens.
pub open spec fn spec_sources_object(html: Seq<char>) -> Option<Seq<char>> {
    match from_first(html, SOURCES_MARK@) {
        Some(rest) => match from_first(rest, "{"@) {
            Some(tail) => spec_balanced_object(tail),
            None => None,
        },
        None => None,
    }
}

/// The text of `s` from the first occurrence of `pat` on.
pub open spec fn from_first(s: Seq<char>, pat: Seq<char>) -> Option<Seq<char>> {
    match first_index(s, pat) {
        Some(i) => Some(s.subrange(i, s.len() as int)),
        None => None,
    }
}

fn from_first_of(s: &[char], pat: &str) -> (res: Option<Vec<char>>)
    ensures
        match res {
            Some(r) => from_first(s@, pat@) == Some(r@),
            None => from_first(s@, pat@) is None,
        },
{
    let p = chars_of(pat);
    match find(s, p.as_slice()) {
        Some(i) => Some(crate::text::slice(s, i, s.len())),
        None => None,
    }
}

pub fn sources_object(html: &str) -> (res: Option<String>)
    ensures
        res.deep_view() == spec_sources_object(html@),
{
    let cs = chars_of(html);
    let rest = match from_first_of(cs.as_slice(), SOURCES_MARK) {
        Some(r) => r,
        None => return None,
    };
    let tail = match from_first_of(rest.as_slice(), "{") {
        Some(t) => t,
        None => return None,
    };
    let n = tail.len();
    match balanced_end(tail.as_slice()) {
        Some(e) => {
            assert(e < n);
            let obj = crate::text::slice(tail.as_slice(), 0, e + 1);
            Some(string_of(obj.as_slice()))
        },
        None => None,
    }
}

/// The hosters of the players object's entries, in entry order: each
/// entry's iframe `src`, made absolute, named by the entry's key, when its
/// host is one `video_list` decodes.
pub open spec fn hosters_of_entries(entries: Seq<(Seq<char>, Seq<char>)>) -> Seq<(Seq<char>, Seq<char>)>
    decreases entries.len(),
{
    if entries.len() == 0 {
        Seq::empty()
    } else {
        let init = hosters_of_entries(entries.drop_last());
        let e = entries.last();
        match spec_first_group(IFRAME_SRC@, e.1) {
            Some(src) => {
                let url = spec_abs_url(None, src);
                if spec_is_supported(spec_host_of(url)) {
                    init.push((url, e.0))
                } else {
                    init
                }
            },
            None => init,
        }
    }
}

/// The hosters an episode page offers, before any preference applies.
pub open spec fn spec_parse_hosters(html: Seq<char>) -> Seq<(Seq<char>, Seq<char>)> {
    match spec_sources_object(html) {
        Some(obj) => match spec_json_string_map(encode_utf8(obj)) {
            Some(entries) => hosters_of_entries(entries),
            None => Seq::empty(),
        },
        None => Seq::empty(),
    }
}

fn hosters_from_entries(entries: &Vec<(String, String)>) -> (res: Vec<Hoster>)
    ensures
        hosters_view(res@) == hosters_of_entries(entries.deep_view()),
{
    let mut out: Vec<Hoster> = Vec::new();
    let mut i: usize = 0;
    while i < entries.len()
        invariant
            0 <= i <= entries@.len(),
            hosters_view(out@) == hosters_of_entries(entries.deep_view().take(i as int)),
        decreases entries@.len() - i,
    {
        let ghost t = entries.deep_view().take(i + 1);
        assert(t.drop_last() =~= entries.deep_view().take(i as int));
        assert(t.last() == entries.deep_view()[i as int]);
        let name = &entries[i].0;
        let iframe = &entries[i].1;
        if let Some(src) = first_group(IFRAME_SRC, iframe.as_str()) {
            let url = abs_url(src.as_str());
            let host = host_of(url.as_str());
            if is_supported(host.as_str()) {
                let ghost before = hosters_view(out@);
                out.push(Hoster { url, name: name.clone() });
                assert(hosters_view(out@) =~= before.push((url@, name@)));
            }
        }
        i = i + 1;
    }
    assert(entries.deep_view().take(entries@.len() as int) =~= entries.deep_view());
    out
}

pub fn parse_hosters(html: &str) -> (res: Vec<Hoster>)
    ensures
        hosters_view(res@) == spec_parse_hosters(html@),
{
    let obj = match sources_object(html) {
        Some(o) => o,
        None => {
            let out: Vec<Hoster> = Vec::new();
            assert(hosters_view(out@) =~= Seq::<(Seq<char>, Seq<char>)>::empty());
            return out;
        },
    };
    match json_string_map(obj.as_str().as_bytes()) {
        Some(entries) => hosters_from_entries(&entries),
        None => {
            let out: Vec<Hoster> = Vec::new();
            assert(hosters_view(out@) =~= Seq::<(Seq<char>, Seq<char>)>::empty());
            out
        },
    }
}

/// The player the user prefers, unless it is `Auto`.
pub open spec fn spec_preferred_player(entries: Seq<(Seq<char>, Seq<char>)>) -> Option<Seq<char>> {
    match setting(entries, PREF_PLAYER@) {
        Some(p) => if p != AUTO@ {
            Some(p)
        } else {
            None
        },
        None => None,
    }
}

/// The position of the first hoster named `pref`, ignoring ASCII case.
pub open spec fn first_named(hs: Seq<(Seq<char>, Seq<char>)>, pref: Seq<char>) -> Option<int> {
    if exists|i: int| 0 <= i < hs.len() && spec_eq_ignore_ascii_case(#[trigger] hs[i].1, pref) {
        Some(
            choose|i: int|
                0 <= i < hs.len() && spec_eq_ignore_ascii_case(#[trigger] hs[i].1, pref) && forall|
                    j: int,
                | 0 <= j < i ==> !spec_eq_ignore_ascii_case(#[trigger] hs[j].1, pref),
        )
    } else {
        None
    }
}

/// `hs` with its first hoster named `pref` moved to the front.
pub open spec fn prefer_first(hs: Seq<(Seq<char>, Seq<char>)>, pref: Option<Seq<char>>) -> Seq<(Seq<char>, Seq<char>)> {
    match pref {
        Some(p) => match first_named(hs, p) {
            Some(i) => seq![hs[i]] + hs.remove(i),
            None => hs,
        },
        None => hs,
    }
}

/// The hosters of an episode page, the preferred player (if any) first.
pub open spec fn spec_hoster_list(entries: Seq<(Seq<char>, Seq<char>)>, html: Seq<char>) -> Seq<(Seq<char>, Seq<char>)> {
    prefer_first(spec_parse_hosters(html), spec_preferred_player(entries))
}

/// Moves the hoster at `i` to the front, keeping the others in order.
fn move_to_front(hosters: &mut Vec<Hoster>, i: usize)
    requires
        i < old(hosters)@.len(),
    ensures
        hosters_view(final(hosters)@) == seq![hosters_view(old(hosters)@)[i as int]]
            + hosters_view(old(hosters)@).remove(i as int),
{
    let ghost hs = hosters_view(hosters@);
    let chosen = hosters.remove(i);
    hosters.insert(0, chosen);
    assert(hosters_view(hosters@) =~= seq![hs[i as int]] + hs.remove(i as int));
}

/// A name match with none before it is the first one.
proof fn lemma_first_named(hs: Seq<(Seq<char>, Seq<char>)>, pref: Seq<char>, i: int)
    requires
        0 <= i < hs.len(),
        spec_eq_ignore_ascii_case(hs[i].1, pref),
        forall|j: int| 0 <= j < i ==> !spec_eq_ignore_ascii_case(#[trigger] hs[j].1, pref),
    ensures
        first_named(hs, pref) == Some(i),
{
    let k = choose|k: int|
        0 <= k < hs.len() && spec_eq_ignore_ascii_case(#[trigger] hs[k].1, pref) && forall|j: int|
            0 <= j < k ==> !spec_eq_ignore_ascii_case(#[trigger] hs[j].1, pref);
    assert(k == i) by {
        if k < i {
        } else if k > i {
        }
    }
}

fn preferred_player(store: &ConfigStore) -> (res: Option<String>)
    ensures
        res.deep_view() == spec_preferred_player(store.entries()),
{
    match cfg(store, PREF_PLAYER) {
        Some(p) => {
            if str_eq(p.as_str(), AUTO) {
                None
            } else {
                Some(p)
            }
        },
        None => None,
    }
}

pub fn hoster_list(store: &ConfigStore, html: &str) -> (res: Vec<Hoster>)
    ensures
        hosters_view(res@) == spec_hoster_list(store.entries(), html@),
{
    let mut hosters = parse_hosters(html);
    let ghost hs = hosters_view(hosters@);
    if let Some(pref) = preferred_player(store) {
        let pc = chars_of(pref.as_str());
        let mut i: usize = 0;
        while i < hosters.len()
            invariant
                0 <= i <= hosters@.len(),
                hs == hosters_view(hosters@),
                hs == spec_parse_hosters(html@),
                pc@ == pref@,
                spec_preferred_player(store.entries()) == Some(pref@),
                forall|j: int| 0 <= j < i ==> !spec_eq_ignore_ascii_case(#[trigger] hs[j].1, pref@),
            decreases hosters@.len() - i,
        {
            let nc = chars_of(hosters[i].name.as_str());
            if eq_ignore_ascii_case(nc.as_slice(), pc.as_slice()) {
                proof {
                    lemma_first_named(hs, pref@, i as int);
                }
                move_to_front(&mut hosters, i);
                return hosters;
            }
            i = i + 1;
        }
        assert(!exists|k: int| 0 <= k < hs.len() && spec_eq_ignore_ascii_case(#[trigger] hs[k].1, pref@));
    }
    hosters
}


proof fn lemma_entries_supported(entries: Seq<(Seq<char>, Seq<char>)>)
    ensures
        forall|k: int|
            0 <= k < hosters_of_entries(entries).len() ==> spec_is_supported(
                spec_host_of(#[trigger] hosters_of_entries(entries)[k].0),
            ),
    decreases entries.len(),
{
    if entries.len() > 0 {
        let init = hosters_of_entries(entries.drop_last());
        let out = hosters_of_entries(entries);
        lemma_entries_supported(entries.drop_last());
        assert forall|k: int| 0 <= k < out.len() implies spec_is_supported(
            spec_host_of(#[trigger] out[k].0),
        ) by {
            if k < init.len() {
                assert(out[k] == init[k]);
            }
        }
    }
}

proof fn lemma_first_named_exists(hs: Seq<(Seq<char>, Seq<char>)>, pref: Seq<char>, i: int)
    requires
        0 <= i < hs.len(),
        spec_eq_ignore_ascii_case(hs[i].1, pref),
    ensures
        exists|k: int|
            0 <= k < hs.len() && spec_eq_ignore_ascii_case(#[trigger] hs[k].1, pref) && forall|j: int|
                0 <= j < k ==> !spec_eq_ignore_ascii_case(#[trigger] hs[j].1, pref),
    decreases i,
{
    if exists|j: int| 0 <= j < i && spec_eq_ignore_ascii_case(#[trigger] hs[j].1, pref) {
        let j = choose|j: int| 0 <= j < i && spec_eq_ignore_ascii_case(#[trigger] hs[j].1, pref);
        lemma_first_named_exists(hs, pref, j);
    } else {
        assert(0 <= i < hs.len() && spec_eq_ignore_ascii_case(hs[i].1, pref) && forall|j: int|
            0 <= j < i ==> !spec_eq_ignore_ascii_case(#[trigger] hs[j].1, pref));
    }
}

proof fn lemma_first_named_found(hs: Seq<(Seq<char>, Seq<char>)>, pref: Seq<char>)
    requires
        first_named(hs, pref) is Some,
    ensures
        0 <= first_named(hs, pref)->0 < hs.len(),
        spec_eq_ignore_ascii_case(hs[first_named(hs, pref)->0].1, pref),
{
    let i0 = choose|i: int| 0 <= i < hs.len() && spec_eq_ignore_ascii_case(#[trigger] hs[i].1, pref);
    lemma_first_named_exists(hs, pref, i0);
}

proof fn lemma_move_front_multiset(hs: Seq<(Seq<char>, Seq<char>)>, i: int)
    requires
        0 <= i < hs.len(),
    ensures
        (seq![hs[i]] + hs.remove(i)).to_multiset() == hs.to_multiset(),
{
    broadcast use vstd::seq_lib::to_multiset_remove, vstd::seq_lib::to_multiset_insert;

    assert(seq![hs[i]] + hs.remove(i) =~= hs.remove(i).insert(0, hs[i]));
    vstd::seq_lib::to_multiset_contains(hs, hs[i]);
    assert(hs.to_multiset().remove(hs[i]).insert(hs[i]) =~= hs.to_multiset()) by {
        broadcast use vstd::multiset::group_multiset_axioms;

    }
}

proof fn lemma_parse_hosters_supported(html: Seq<char>)
    ensures
        forall|k: int|
            0 <= k < spec_parse_hosters(html).len() ==> spec_is_supported(
                spec_host_of(#[trigger] spec_parse_hosters(html)[k].0),
            ),
{
    match spec_sources_object(html) {
        Some(obj) => match spec_json_string_map(encode_utf8(obj)) {
            Some(es) => {
                lemma_entries_supported(es);
            },
            None => {},
        },
        None => {},
    }
}

/// The position in `hs` of the `k`-th hoster of `prefer_first(hs, pref)`.
proof fn prefer_first_source(hs: Seq<(Seq<char>, Seq<char>)>, pref: Option<Seq<char>>, k: int) -> (j:
    int)
    requires
        0 <= k < prefer_first(hs, pref).len(),
    ensures
        0 <= j < hs.len(),
        prefer_first(hs, pref)[k] == hs[j],
{
    match pref {
        Some(p) => match first_named(hs, p) {
            Some(i) => {
                lemma_first_named_found(hs, p);
                if k == 0 {
                    i
                } else if k - 1 < i {
                    k - 1
                } else {
                    k
                }
            },
            None => k,
        },
        None => k,
    }
}

/// Every hoster Voir-Anime offers is one `video_list` has an extractor for.
pub proof fn law_offered_hosters_are_decodable(entries: Seq<(Seq<char>, Seq<char>)>, html: Seq<char>)
    ensures
        forall|k: int|
            0 <= k < spec_hoster_list(entries, html).len() ==> !(spec_video_route(
                spec_host_of(#[trigger] spec_hoster_list(entries, html)[k].0),
            ) is Unsupported),
{
    let hs = spec_parse_hosters(html);
    let out = spec_hoster_list(entries, html);
    lemma_parse_hosters_supported(html);
    assert forall|k: int| 0 <= k < out.len() implies !(spec_video_route(
        spec_host_of(#[trigger] out[k].0),
    ) is Unsupported) by {
        let j = prefer_first_source(hs, spec_preferred_player(entries), k);
        assert(spec_is_supported(spec_host_of(hs[j].0)));
    }
}

/// Preferring a player only reorders the page's hosters: the list offers
/// exactly the same ones, and the first named like the preferred player
/// (ASCII case aside), if any, comes first; with no preference (or `Auto`)
/// the page's order stands.
pub proof fn law_preferred_player_first(entries: Seq<(Seq<char>, Seq<char>)>, html: Seq<char>)
    ensures
        spec_hoster_list(entries, html).to_multiset() == spec_parse_hosters(html).to_multiset(),
        match spec_preferred_player(entries) {
            Some(p) => match first_named(spec_parse_hosters(html), p) {
                Some(i) => spec_hoster_list(entries, html)[0] == spec_parse_hosters(html)[i]
                    && spec_eq_ignore_ascii_case(spec_hoster_list(entries, html)[0].1, p),
                None => spec_hoster_list(entries, html) == spec_parse_hosters(html),
            },
            None => spec_hoster_list(entries, html) == spec_parse_hosters(html),
        },
{
    let hs = spec_parse_hosters(html);
    match spec_preferred_player(entries) {
        Some(p) => match first_named(hs, p) {
            Some(i) => {
                lemma_first_named_found(hs, p);
                lemma_move_front_multiset(hs, i);
            },
            None => {},
        },
        None => {},
    }
}

// ---------------------------------------------------------------------------
// Videos
// ---------------------------------------------------------------------------

/// Which extractor serves a hoster, by its host.
pub enum VideoRoute {
    /// `vidmoly_request`, then `vidmoly_videos`.
    Vidmoly,
    /// `streamtape_request`, then `streamtape_videos`.
    Streamtape,
    /// `mailru_meta_request`, the JSON answer's `videos`, then `mailru_videos`.
    MailRu,
    /// `plain_request`, `voe_redirect` (and `plain_request` again),
    /// then `voe_page_videos`.
    Voe,
    /// No video.
    Unsupported,
}

pub open spec fn spec_video_route(host: Seq<char>) -> VideoRoute {
    if spec_contains(host, "vidmoly"@) {
        VideoRoute::Vidmoly
    } else if spec_contains(host, "streamtape"@) {
        VideoRoute::Streamtape
    } else if spec_contains(host, "mail.ru"@) {
        VideoRoute::MailRu
    } else if spec_contains(host, "voe"@) {
        VideoRoute::Voe
    } else {
        VideoRoute::Unsupported
    }
}

pub fn video_list(input: &Hoster) -> (res: VideoRoute)
    ensures
        res == spec_video_route(spec_host_of(input.url@)),
{
    let host = host_of(input.url.as_str());
    let h = chars_of(host.as_str());
    if contains_str(h.as_slice(), "vidmoly") {
        VideoRoute::Vidmoly
    } else if contains_str(h.as_slice(), "streamtape") {
        VideoRoute::Streamtape
    } else if contains_str(h.as_slice(), "mail.ru") {
        VideoRoute::MailRu
    } else if contains_str(h.as_slice(), "voe") {
        VideoRoute::Voe
    } else {
        VideoRoute::Unsupported
    }
}

/// Group 1 of every match that has one, in order.
pub open spec fn first_groups(caps: Seq<Seq<Option<Seq<char>>>>) -> Seq<Seq<char>>
    decreases caps.len(),
{
    if caps.len() == 0 {
        Seq::empty()
    } else {
        let init = first_groups(caps.drop_last());
        match group(caps.last(), 1) {
            Some(g) => init.push(g),
            None => init,
        }
    }
}

fn first_groups_of(caps: &Vec<Vec<Option<String>>>) -> (res: Vec<String>)
    ensures
        res.deep_view() == first_groups(caps.deep_view()),
{
    let mut out: Vec<String> = Vec::new();
    let mut i: usize = 0;
    while i < caps.len()
        invariant
            0 <= i <= caps@.len(),
            out.deep_view() == first_groups(caps.deep_view().take(i as int)),
        decreases caps@.len() - i,
    {
        let ghost t = caps.deep_view().take(i + 1);
        assert(t.drop_last() =~= caps.deep_view().take(i as int));
        assert(t.last() == caps.deep_view()[i as int]);
        if let Some(g) = group_of(&caps[i], 1) {
            let ghost before = out.deep_view();
            out.push(g);
            assert(out.deep_view() =~= before.push(g@));
        }
        i = i + 1;
    }
    assert(caps.deep_view().take(caps@.len() as int) =~= caps.deep_view());
    out
}

pub const VIDMOLY_REFERER: &'static str = "https://vidmoly.biz/";

pub const VIDMOLY_ORIGIN: &'static str = "https://vidmoly.biz";

/// The headers Vidmoly wants, on its page and on its streams.
pub open spec fn vidmoly_headers() -> Seq<(Seq<char>, Seq<char>)> {
    seq![("Referer"@, VIDMOLY_REFERER@), ("Origin"@, VIDMOLY_ORIGIN@)]
}

pub fn vidmoly_request(url: &str) -> (res: Request)
    ensures
        res.url@ == url@,
        res.headers.deep_view() == request_headers(vidmoly_headers()),
{
    let extra: [(&str, &str); 2] = [("Referer", VIDMOLY_REFERER), ("Origin", VIDMOLY_ORIGIN)];
    let ex: &[(&str, &str)] = extra.as_slice();
    assert(ex.deep_view() =~= vidmoly_headers());
    fetch(url, ex)
}

/// A `file: "...m3u8..."` entry of Vidmoly's player setup.
pub const VIDMOLY_FILE: &'static str = "file\\s*:\\s*[\"']([^\"']+\\.m3u8[^\"']*)[\"']";

/// The distinct HLS playlists of a Vidmoly page, in order of first
/// appearance.
pub open spec fn spec_vidmoly_urls(html: Seq<char>) -> Seq<Seq<char>> {
    spec_dedupe(first_groups(spec_regex_captures_iter(VIDMOLY_FILE@, html)))
}

pub fn vidmoly_videos(html: &str) -> (res: Vec<Video>)
    ensures
        videos_view(res@) == spec_videos_of(spec_vidmoly_urls(html@), "auto"@, vidmoly_headers()),
        no_tracks(res@),
{
    let caps = regex_captures_iter(VIDMOLY_FILE, html);
    let found = first_groups_of(&caps);
    let urls = dedupe(&found);
    let pairs: [(&str, &str); 2] = [("Referer", VIDMOLY_REFERER), ("Origin", VIDMOLY_ORIGIN)];
    let ps: &[(&str, &str)] = pairs.as_slice();
    let vh = headers(ps);
    assert(ps.deep_view() =~= vidmoly_headers());
    videos_of(&urls, "auto", &vh)
}

/// The embed page of a Streamtape link: the link itself when it already is
/// one (`/e/`), else `https://streamtape.com/e/` and the fifth `/`-separated
/// piece, else the link unchanged.
pub open spec fn spec_streamtape_embed(url: Seq<char>) -> Seq<char> {
    if spec_contains(url, "/e/"@) {
        url
    } else {
        let pieces = spec_split(url, '/');
        if pieces.len() > 4 {
            "https://streamtape.com/e/"@ + pieces[4]
        } else {
            url
        }
    }
}

pub fn streamtape_embed(url: &str) -> (res: String)
    ensures
        res@ == spec_streamtape_embed(url@),
{
    let cs = chars_of(url);
    if contains_str(cs.as_slice(), "/e/") {
        return url.to_owned();
    }
    let pieces = split(cs.as_slice(), '/');
    if pieces.len() > 4 {
        let mut out = chars_of("https://streamtape.com/e/");
        push_all(&mut out, pieces[4].as_slice());
        string_of(out.as_slice())
    } else {
        url.to_owned()
    }
}

pub fn streamtape_request(url: &str) -> (res: Request)
    ensures
        res.url@ == spec_streamtape_embed(url@),
        res.headers.deep_view() == request_headers(seq![("Referer"@, "https://voir-anime.to/"@)]),
{
    let embed = streamtape_embed(url);
    let extra: [(&str, &str); 1] = [("Referer", "https://voir-anime.to/")];
    let ex: &[(&str, &str)] = extra.as_slice();
    assert(ex.deep_view() =~= seq![("Referer"@, "https://voir-anime.to/"@)]);
    fetch(embed.as_str(), ex)
}

/// Streamtape's obfuscated link: two quoted parts, the second cut by one or
/// more `.substring(n)` calls.
pub const STREAMTAPE_LINK: &'static str = "robotlink'\\)\\.innerHTML\\s*=\\s*'([^']*)'\\s*\\+\\s*\\(\\s*'([^']*)'\\s*\\)((?:\\.substring\\(\\d+\\))+)";

/// One `substring(n)` call.
pub const SUBSTRING: &'static str = "substring\\((\\d+)\\)";

/// The sum, wrapping at `usize` width, of the numbers of the calls that
/// parse as a `usize`.
pub open spec fn substring_offset(caps: Seq<Seq<Option<Seq<char>>>>) -> usize
    decreases caps.len(),
{
    if caps.len() == 0 {
        0
    } else {
        let init = substring_offset(caps.drop_last());
        match group(caps.last(), 1) {
            Some(g) => match spec_parse_unsigned(g, usize::MAX as int) {
                Some(v) => vstd::wrapping::usize_specs::wrapping_add(init, v as usize),
                None => init,
            },
            None => init,
        }
    }
}

fn substring_offset_of(caps: &Vec<Vec<Option<String>>>) -> (res: usize)
    ensures
        res == substring_offset(caps.deep_view()),
{
    let mut total: usize = 0;
    let mut i: usize = 0;
    while i < caps.len()
        invariant
            0 <= i <= caps@.len(),
            total == substring_offset(caps.deep_view().take(i as int)),
        decreases caps@.len() - i,
    {
        let ghost t = caps.deep_view().take(i + 1);
        assert(t.drop_last() =~= caps.deep_view().take(i as int));
        assert(t.last() == caps.deep_view()[i as int]);
        if let Some(g) = group_of(&caps[i], 1) {
            let gc = chars_of(g.as_str());
            if let Some(v) = parse_unsigned(gc.as_slice(), usize::MAX as u64) {
                total = total.wrapping_add(v as usize);
            }
        }
        i = i + 1;
    }
    assert(caps.deep_view().take(caps@.len() as int) =~= caps.deep_view());
    total
}

/// The part of `b` after byte offset `off` (of its UTF-8 encoding), or
/// nothing when `off` is past the end or inside a character.
pub open spec fn tail_from(b: Seq<char>, off: usize) -> Seq<char> {
    let bytes = encode_utf8(b);
    if off <= bytes.len() && is_char_boundary(bytes, off as int) {
        decode_utf8(bytes.subrange(off as int, bytes.len() as int))
    } else {
        Seq::empty()
    }
}

fn tail_from_of(b: &str, off: usize) -> (res: String)
    ensures
        res@ == tail_from(b@, off),
{
    match str_get_from(b, off) {
        Some(r) => {
            proof {
                encode_utf8_decode_utf8(r@);
            }
            r
        },
        None => String::new(),
    }
}

/// The stream URL of a Streamtape embed page: `https:`, the first part, and
/// the second part after the summed offsets, when that names `get_video`.
pub open spec fn spec_streamtape_url(html: Seq<char>) -> Option<Seq<char>> {
    match spec_regex_captures(STREAMTAPE_LINK@, html) {
        Some(g) => match group(g, 1) {
            Some(a) => match group(g, 2) {
                Some(b) => match group(g, 3) {
                    Some(calls) => {
                        let off = substring_offset(spec_regex_captures_iter(SUBSTRING@, calls));
                        let u = "https:"@ + a + tail_from(b, off);
                        if spec_contains(u, "get_video"@) {
                            Some(u)
                        } else {
                            None
                        }
                    },
                    None => None,
                },
                None => None,
            },
            None => None,
        },
        None => None,
    }
}

pub fn streamtape_url(html: &str) -> (res: Option<String>)
    ensures
        res.deep_view() == spec_streamtape_url(html@),
{
    let g = match regex_captures(STREAMTAPE_LINK, html) {
        Some(g) => g,
        None => return None,
    };
    let a = match group_of(&g, 1) {
        Some(a) => a,
        None => return None,
    };
    let b = match group_of(&g, 2) {
        Some(b) => b,
        None => return None,
    };
    let calls = match group_of(&g, 3) {
        Some(c) => c,
        None => return None,
    };
    let subs = regex_captures_iter(SUBSTRING, calls.as_str());
    let off = substring_offset_of(&subs);
    let tb = tail_from_of(b.as_str(), off);
    let mut u = chars_of("https:");
    push_str(&mut u, a.as_str());
    push_str(&mut u, tb.as_str());
    if contains_str(u.as_slice(), "get_video") {
        Some(string_of(u.as_slice()))
    } else {
        None
    }
}

pub fn streamtape_videos(html: &str) -> (res: Vec<Video>)
    ensures
        videos_view(res@) == match spec_streamtape_url(html@) {
            Some(u) => seq![(u, "Streamtape"@, seq![("Referer"@, "https://streamtape.com/"@)])],
            None => Seq::empty(),
        },
        no_tracks(res@),
{
    let mut out: Vec<Video> = Vec::new();
    if let Some(u) = streamtape_url(html) {
        let pairs: [(&str, &str); 1] = [("Referer", "https://streamtape.com/")];
        let ps: &[(&str, &str)] = pairs.as_slice();
        let vh = headers(ps);
        assert(ps.deep_view() =~= seq![("Referer"@, "https://streamtape.com/"@)]);
        out.push(video(u, "Streamtape".to_owned(), vh));
    }
    assert(videos_view(out@) =~= match spec_streamtape_url(html@) {
        Some(u) => seq![(u, "Streamtape"@, seq![("Referer"@, "https://streamtape.com/"@)])],
        None => Seq::empty(),
    });
    out
}


/// The Mail.ru video id of an embed link: the last `/`-separated piece of
/// the part before `?`, trailing slashes dropped; `None` when it is empty.
pub open spec fn spec_mailru_id(url: Seq<char>) -> Option<Seq<char>> {
    let base = spec_split(url, '?')[0];
    let pieces = spec_split(spec_trim_end_char(base, '/'), '/');
    let id = pieces.last();
    if id.len() > 0 {
        Some(id)
    } else {
        None
    }
}

pub fn mailru_id(url: &str) -> (res: Option<String>)
    ensures
        res.deep_view() == spec_mailru_id(url@),
{
    let cs = chars_of(url);
    let parts = split(cs.as_slice(), '?');
    let base = trim_end_char(parts[0].as_slice(), '/');
    let pieces = split(base.as_slice(), '/');
    let id = &pieces[pieces.len() - 1];
    if id.len() > 0 {
        Some(string_of(id.as_slice()))
    } else {
        None
    }
}

/// The metadata request for a Mail.ru embed, when the link names a video.
pub fn mailru_meta_request(url: &str) -> (res: Option<Request>)
    ensures
        match res {
            Some(r) => spec_mailru_id(url@) is Some && r.url@ == "https://my.mail.ru/+/video/meta/"@
                + spec_mailru_id(url@)->0 + "?xemail=&ajax_call=1&func_name=&mna=&mnb=&ext=1&_=1"@
                && r.headers.deep_view() == request_headers(
                seq![("Referer"@, url@), ("X-Requested-With"@, "XMLHttpRequest"@)],
            ),
            None => spec_mailru_id(url@) is None,
        },
{
    let id = match mailru_id(url) {
        Some(id) => id,
        None => return None,
    };
    let mut u = chars_of("https://my.mail.ru/+/video/meta/");
    push_str(&mut u, id.as_str());
    push_str(&mut u, "?xemail=&ajax_call=1&func_name=&mna=&mnb=&ext=1&_=1");
    let target = string_of(u.as_slice());
    let extra: [(&str, &str); 2] = [("Referer", url), ("X-Requested-With", "XMLHttpRequest")];
    let ex: &[(&str, &str)] = extra.as_slice();
    assert(ex.deep_view() =~= seq![("Referer"@, url@), ("X-Requested-With"@, "XMLHttpRequest"@)]);
    Some(fetch(target.as_str(), ex))
}

/// One entry of the `videos` list of Mail.ru's metadata: its quality key
/// (`1080p`, ...) and its stream URL.
pub struct MailruVideo {
    pub key: String,
    pub url: String,
}

pub open spec fn mailru_view(v: Seq<MailruVideo>) -> Seq<(Seq<char>, Seq<char>)> {
    Seq::new(v.len(), |i: int| (v[i].key@, v[i].url@))
}

/// The quality the user wants, unless it is `Auto` or not a number.
pub open spec fn spec_wanted_quality(entries: Seq<(Seq<char>, Seq<char>)>) -> Option<u32> {
    match setting(entries, PREF_QUALITY@) {
        Some(q) => if q != AUTO@ {
            match spec_parse_unsigned(q, u32::MAX as int) {
                Some(v) => Some(v as u32),
                None => None,
            }
        } else {
            None
        },
        None => None,
    }
}

pub fn wanted_quality(store: &ConfigStore) -> (res: Option<u32>)
    ensures
        res == spec_wanted_quality(store.entries()),
{
    match cfg(store, PREF_QUALITY) {
        Some(q) => {
            if str_eq(q.as_str(), AUTO) {
                None
            } else {
                let qc = chars_of(q.as_str());
                match parse_unsigned(qc.as_slice(), u32::MAX as u64) {
                    Some(v) => Some(v as u32),
                    None => None,
                }
            }
        },
        None => None,
    }
}

/// How far a key's quality is from the target.
pub open spec fn quality_distance(key: Seq<char>, target: u32) -> int {
    let r = spec_quality_rank(key) as int;
    if r >= target {
        r - target
    } else {
        target - r
    }
}

/// Key `i` is the one to play: with a wanted quality, the first of the keys
/// nearest to it; without one, the last of the keys of highest quality.
pub open spec fn is_pick(keys: Seq<Seq<char>>, want: Option<u32>, i: int) -> bool {
    &&& 0 <= i < keys.len()
    &&& match want {
        Some(t) => (forall|j: int|
            0 <= j < keys.len() ==> quality_distance(#[trigger] keys[j], t) >= quality_distance(
                keys[i],
                t,
            )) && (forall|j: int|
            0 <= j < i ==> quality_distance(#[trigger] keys[j], t) > quality_distance(keys[i], t)),
        None => (forall|j: int|
            0 <= j < keys.len() ==> spec_quality_rank(#[trigger] keys[j]) <= spec_quality_rank(
                keys[i],
            )) && (forall|j: int|
            i < j < keys.len() ==> spec_quality_rank(#[trigger] keys[j]) < spec_quality_rank(
                keys[i],
            )),
    }
}

/// The key to play, `None` when there is none.
#[verifier::opaque]
pub open spec fn spec_pick(keys: Seq<Seq<char>>, want: Option<u32>) -> Option<int> {
    if keys.len() > 0 {
        Some(choose|i: int| is_pick(keys, want, i))
    } else {
        None
    }
}

proof fn lemma_pick_unique(keys: Seq<Seq<char>>, want: Option<u32>, i: int)
    requires
        is_pick(keys, want, i),
    ensures
        spec_pick(keys, want) == Some(i),
{
    reveal(spec_pick);
    let k = choose|k: int| is_pick(keys, want, k);
    assert(is_pick(keys, want, k));
    match want {
        Some(t) => {
            assert(quality_distance(keys[k], t) >= quality_distance(keys[i], t));
            assert(quality_distance(keys[i], t) >= quality_distance(keys[k], t));
            if k < i {
                assert(quality_distance(keys[k], t) > quality_distance(keys[i], t));
            } else if k > i {
                assert(quality_distance(keys[i], t) > quality_distance(keys[k], t));
            }
        },
        None => {
            assert(spec_quality_rank(keys[k]) <= spec_quality_rank(keys[i]));
            assert(spec_quality_rank(keys[i]) <= spec_quality_rank(keys[k]));
            if k < i {
                assert(spec_quality_rank(keys[i]) < spec_quality_rank(keys[k]));
            } else if k > i {
                assert(spec_quality_rank(keys[k]) < spec_quality_rank(keys[i]));
            }
        },
    }
}

fn distance(r: u32, t: u32) -> (res: u32)
    ensures
        res == (if r >= t {
            r - t
        } else {
            t - r
        }),
{
    if r >= t {
        r - t
    } else {
        t - r
    }
}

/// The position of the video to play: `min_by_key` on the distance to the
/// wanted quality, else `max_by_key` on the quality.
pub fn pick(videos: &Vec<MailruVideo>, want: Option<u32>) -> (res: Option<usize>)
    ensures
        match res {
            Some(i) => spec_pick(
                Seq::new(mailru_view(videos@).len(), |k: int| mailru_view(videos@)[k].0),
                want,
            ) == Some(i as int) && i < videos@.len(),
            None => spec_pick(
                Seq::new(mailru_view(videos@).len(), |k: int| mailru_view(videos@)[k].0),
                want,
            ) is None,
        },
{
    let ghost keys = Seq::new(mailru_view(videos@).len(), |k: int| mailru_view(videos@)[k].0);
    let n = videos.len();
    if n == 0 {
        proof {
            reveal(spec_pick);
        }
        return None;
    }
    let mut best: usize = 0;
    let mut i: usize = 1;
    match want {
        Some(t) => {
            let mut bd = distance(quality_rank(videos[0].key.as_str()), t);
            while i < n
                invariant
                    n == videos@.len(),
                    keys == Seq::new(mailru_view(videos@).len(), |k: int| mailru_view(videos@)[k].0),
                    1 <= i <= n,
                    best < i,
                    bd == quality_distance(keys[best as int], t),
                    forall|j: int| 0 <= j < i ==> quality_distance(#[trigger] keys[j], t) >= bd,
                    forall|j: int| 0 <= j < best ==> quality_distance(#[trigger] keys[j], t) > bd,
                decreases n - i,
            {
                let d = distance(quality_rank(videos[i].key.as_str()), t);
                assert(d == quality_distance(keys[i as int], t));
                if d < bd {
                    best = i;
                    bd = d;
                }
                i = i + 1;
            }
            proof {
                assert(is_pick(keys, want, best as int));
                lemma_pick_unique(keys, want, best as int);
            }
        },
        None => {
            let mut br = quality_rank(videos[0].key.as_str());
            while i < n
                invariant
                    n == videos@.len(),
                    keys == Seq::new(mailru_view(videos@).len(), |k: int| mailru_view(videos@)[k].0),
                    1 <= i <= n,
                    best < i,
                    br == spec_quality_rank(keys[best as int]),
                    forall|j: int| 0 <= j < i ==> spec_quality_rank(#[trigger] keys[j]) <= br,
                    forall|j: int| best < j < i ==> spec_quality_rank(#[trigger] keys[j]) < br,
                decreases n - i,
            {
                let r = quality_rank(videos[i].key.as_str());
                assert(r == spec_quality_rank(keys[i as int]));
                if r >= br {
                    best = i;
                    br = r;
                }
                i = i + 1;
            }
            proof {
                assert(is_pick(keys, want, best as int));
                lemma_pick_unique(keys, want, best as int);
            }
        },
    }
    Some(best)
}

/// The text after the first occurrence of `pat`.
pub open spec fn after_first(s: Seq<char>, pat: Seq<char>) -> Option<Seq<char>> {
    match first_index(s, pat) {
        Some(i) => Some(s.subrange(i + pat.len(), s.len() as int)),
        None => None,
    }
}

/// The cookie a Mail.ru stream needs: `video_key=` and the value the URL
/// gives it (up to the next `&` or `video_key=`), when it gives one.
pub open spec fn mailru_cookie(url: Seq<char>) -> Option<Seq<char>> {
    match after_first(url, "video_key="@) {
        Some(rest) => Some("video_key="@ + before_first(before_first(rest, "video_key="@), "&"@)),
        None => None,
    }
}

fn mailru_cookie_of(url: &str) -> (res: Option<String>)
    ensures
        res.deep_view() == mailru_cookie(url@),
{
    let cs = chars_of(url);
    let pat = chars_of("video_key=");
    let i = match find(cs.as_slice(), pat.as_slice()) {
        Some(i) => i,
        None => return None,
    };
    let n = cs.len();
    assert(i + pat@.len() <= n);
    let rest = crate::text::slice(cs.as_slice(), i + pat.len(), n);
    let rest_s = string_of(rest.as_slice());
    let piece = before_first_of(rest_s.as_str(), "video_key=");
    let piece_s = string_of(piece.as_slice());
    let value = before_first_of(piece_s.as_str(), "&");
    let mut out = chars_of("video_key=");
    push_all(&mut out, value.as_slice());
    Some(string_of(out.as_slice()))
}

/// The headers of a Mail.ru stream: the site as Referer, and the video key
/// cookie when the URL carries one.
pub open spec fn mailru_headers(url: Seq<char>) -> Seq<(Seq<char>, Seq<char>)> {
    seq![("Referer"@, "https://my.mail.ru/"@)] + match mailru_cookie(url) {
        Some(c) => seq![("Cookie"@, c)],
        None => Seq::empty(),
    }
}

/// The one video Mail.ru offers for the chosen quality: the picked entry's
/// URL made absolute, its key as quality label.
pub open spec fn spec_mailru_videos(entries: Seq<(Seq<char>, Seq<char>)>, vids: Seq<(Seq<char>, Seq<char>)>) -> Seq<
    (Seq<char>, Seq<char>, Seq<(Seq<char>, Seq<char>)>),
> {
    match spec_pick(Seq::new(vids.len(), |k: int| vids[k].0), spec_wanted_quality(entries)) {
        Some(i) => {
            let u = spec_abs_url(None, vids[i].1);
            seq![(u, vids[i].0, mailru_headers(u))]
        },
        None => Seq::empty(),
    }
}

pub fn mailru_videos(store: &ConfigStore, videos: &Vec<MailruVideo>) -> (res: Vec<Video>)
    ensures
        videos_view(res@) == spec_mailru_videos(store.entries(), mailru_view(videos@)),
        no_tracks(res@),
{
    let mut out: Vec<Video> = Vec::new();
    let want = wanted_quality(store);
    match pick(videos, want) {
        Some(i) => {
            let url = abs_url(videos[i].url.as_str());
            let mut hs: Vec<(String, String)> = Vec::new();
            hs.push(("Referer".to_owned(), "https://my.mail.ru/".to_owned()));
            if let Some(c) = mailru_cookie_of(url.as_str()) {
                hs.push(("Cookie".to_owned(), c));
            }
            assert(hs.deep_view() =~= mailru_headers(url@));
            let key = videos[i].key.clone();
            out.push(video(url, key, hs));
            assert(videos_view(out@) =~= spec_mailru_videos(store.entries(), mailru_view(videos@)));
        },
        None => {
            assert(videos_view(out@) =~= spec_mailru_videos(store.entries(), mailru_view(videos@)));
        },
    }
    out
}

/// VOE's own redirect (single quotes only).
pub const VOE_REDIRECT: &'static str = "window\\.location\\.href\\s*=\\s*'([^']+)'";

/// Where a VOE page redirects to, if it does.
pub fn voe_redirect(html: &str) -> (res: Option<String>)
    ensures
        res.deep_view() == spec_first_group(VOE_REDIRECT@, html@),
{
    first_group(VOE_REDIRECT, html)
}

pub open spec fn voe_headers() -> Seq<(Seq<char>, Seq<char>)> {
    seq![("Referer"@, "https://voe.sx/"@)]
}

/// The videos of VOE's decoded payload: its `source` (HLS), then its
/// `direct_access_url` (MP4); nothing when there was no payload.
pub open spec fn spec_voe_videos(meta: Option<JsonValue>) -> Seq<(Seq<char>, Seq<char>, Seq<(Seq<char>, Seq<char>)>)> {
    match meta {
        Some(m) => (match spec_str_member(m, "source"@) {
            Some(u) => seq![(u, "Voe HLS"@, voe_headers())],
            None => Seq::empty(),
        }) + (match spec_str_member(m, "direct_access_url"@) {
            Some(u) => seq![(u, "Voe MP4"@, voe_headers())],
            None => Seq::empty(),
        }),
        None => Seq::empty(),
    }
}

fn voe_header_list() -> (res: Vec<(String, String)>)
    ensures
        res.deep_view() == voe_headers(),
{
    let pairs: [(&str, &str); 1] = [("Referer", "https://voe.sx/")];
    let ps: &[(&str, &str)] = pairs.as_slice();
    assert(ps.deep_view() =~= voe_headers());
    headers(ps)
}

pub fn voe_videos(meta: Option<&JsonValue>) -> (res: Vec<Video>)
    ensures
        videos_view(res@) == spec_voe_videos(deref_json(meta)),
        no_tracks(res@),
{
    let mut out: Vec<Video> = Vec::new();
    if let Some(m) = meta {
        if let Some(u) = m.str_member("source") {
            out.push(video(u.clone(), "Voe HLS".to_owned(), voe_header_list()));
        }
        let ghost first = videos_view(out@);
        if let Some(u) = m.str_member("direct_access_url") {
            out.push(video(u.clone(), "Voe MP4".to_owned(), voe_header_list()));
        }
        assert(videos_view(out@) =~= spec_voe_videos(deref_json(meta)));
    } else {
        assert(videos_view(out@) =~= spec_voe_videos(deref_json(meta)));
    }
    out
}

/// The videos of a VOE page as fetched: its metadata decoded, then
/// `voe_videos`.
pub fn voe_page_videos(html: &str) -> (res: Vec<Video>)
    ensures
        videos_view(res@) == spec_voe_videos(spec_voe_from_html(html@)),
        no_tracks(res@),
{
    let meta = voe_from_html(html);
    voe_videos(meta.as_ref())
}

// ---------------------------------------------------------------------------
// Listings
// ---------------------------------------------------------------------------

/// The site offers no popular listing: an empty page.
pub fn popular(_input: &PageInput) -> (res: AnimesPage)
    ensures
        res.animes@.len() == 0,
        !res.has_next_page,
{
    AnimesPage::empty()
}

/// The site offers no latest listing: an empty page.
pub fn latest(_input: &PageInput) -> (res: AnimesPage)
    ensures
        res.animes@.len() == 0,
        !res.has_next_page,
{
    AnimesPage::empty()
}

/// The site offers no search: an empty page.
pub fn search(_input: &SearchInput) -> (res: AnimesPage)
    ensures
        res.animes@.len() == 0,
        !res.has_next_page,
{
    AnimesPage::empty()
}

} // verus!
