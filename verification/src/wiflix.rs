//! Wiflix: films and series whose players are `loadVideo('url')` handlers in
//! the page, resolved by a host-agnostic extractor.
//!
//! Every entry point here computes from what the host fetched: the request
//! functions say what to fetch, the others turn the fetched text (and the
//! JSON it holds) into catalogue values.

use vstd::prelude::*;

use crate::abi::{config, setting, ConfigStore};
use crate::api::{
    Anime, AnimesPage, Episode, Hoster, Metadata, PageInput, Preference, PreferenceKind, Request,
    SearchInput, UrlInput, Video,
};
pub use crate::common::{
    attr_text, decode_base, decode_packed, dood_page_request, dood_pass_path, dood_pass_request,
    dood_videos, fetch, first_text, headers, host_label, host_of, is_dood, pseudo_random,
    redirect_target, voe_decrypt, voe_from_html, UA,
};
use crate::common::{
    abs_url_with, contains_any, contains_any_of, defaults_are_options, deref_json, episode_numbers,
    episode_view, first_group, hosters_of, hosters_view, media_urls, no_tracks, origin_referer,
    origin_referer_of, preferences_view, request_headers, sorted_distinct, spec_abs_url,
    spec_attr_text, spec_first_group, spec_first_text, spec_host_label, spec_host_of,
    spec_hosters_of, spec_media_urls, spec_unpack_match, spec_videos_of, spec_voe_from_html, spec_voe_urls,
    strictly_increasing, unpack_match, videos_of, videos_view, voe_urls, PACKED,
};
use crate::json::JsonValue;
use crate::outside::{
    html_select, regex_captures, regex_captures_iter, regex_find_iter, spec_html_select,
    spec_regex_captures, spec_regex_captures_iter, spec_regex_find_iter,
};
use crate::text::{
    before_first, before_first_of, chars_of, contains_str, dedupe, i64_to_string, join, parse_i64,
    push_str, spec_contains, spec_dedupe, spec_i64_to_string, spec_join, spec_parse_i64, spec_trim,
    spec_trim_end_char, str_eq, string_of, trim, trim_end_char,
};

verus! {

pub const DEFAULT_BASE: &'static str = "https://flemmix.city";

pub const PREF_BASE_URL: &'static str = "base_url";

pub const PREF_LANG: &'static str = "preferred_lang";

// ---------------------------------------------------------------------------
// Settings and requests
// ---------------------------------------------------------------------------

pub fn cfg(store: &ConfigStore, key: &str) -> (res: Option<String>)
    ensures
        res.deep_view() == setting(store.entries(), key@),
{
    config(store, key)
}

/// The site URL: the `base_url` setting without trailing slashes, else the
/// default domain.
pub open spec fn spec_base_url(entries: Seq<(Seq<char>, Seq<char>)>) -> Seq<char> {
    match setting(entries, PREF_BASE_URL@) {
        Some(s) => spec_trim_end_char(s, '/'),
        None => DEFAULT_BASE@,
    }
}

/// The site URL never ends with a slash, so that a path (which starts with
/// one) appends to it.
pub proof fn law_base_url_has_no_trailing_slash(entries: Seq<(Seq<char>, Seq<char>)>)
    ensures
        spec_base_url(entries).len() > 0 ==> spec_base_url(entries).last() != '/',
{
    reveal_strlit("https://flemmix.city");
    match setting(entries, PREF_BASE_URL@) {
        Some(s) => crate::text::lemma_trim_end_char_last(s, '/'),
        None => {
            assert(DEFAULT_BASE@.last() == DEFAULT_BASE@[DEFAULT_BASE@.len() - 1]);
        },
    }
}

pub fn base_url(store: &ConfigStore) -> (res: String)
    ensures
        res@ == spec_base_url(store.entries()),
{
    match cfg(store, PREF_BASE_URL) {
        Some(s) => {
            let cs = chars_of(s.as_str());
            let t = trim_end_char(cs.as_slice(), '/');
            string_of(t.as_slice())
        },
        None => DEFAULT_BASE.to_owned(),
    }
}

/// The language tried first: the `preferred_lang` setting, else `vf`.
pub open spec fn spec_pref_lang(entries: Seq<(Seq<char>, Seq<char>)>) -> Seq<char> {
    match setting(entries, PREF_LANG@) {
        Some(s) => s,
        None => "vf"@,
    }
}

pub fn pref_lang(store: &ConfigStore) -> (res: String)
    ensures
        res@ == spec_pref_lang(store.entries()),
{
    match cfg(store, PREF_LANG) {
        Some(s) => s,
        None => "vf".to_owned(),
    }
}

/// A page of the site itself, with the site as Referer.
pub fn get(store: &ConfigStore, url: &str) -> (res: Request)
    ensures
        res.url@ == url@,
        res.headers.deep_view() == request_headers(
            seq![("Referer"@, spec_base_url(store.entries()))],
        ),
{
    let referer = base_url(store);
    let extra: [(&str, &str); 1] = [("Referer", referer.as_str())];
    let ex: &[(&str, &str)] = extra.as_slice();
    assert(ex.deep_view() =~= seq![("Referer"@, referer@)]);
    fetch(url, ex)
}

/// A link made absolute against the site URL.
pub fn abs_url(store: &ConfigStore, s: &str) -> (res: String)
    ensures
        res@ == spec_abs_url(Some(spec_base_url(store.entries())), s@),
{
    let b = base_url(store);
    abs_url_with(Some(b.as_str()), s)
}

// ---------------------------------------------------------------------------
// Catalogue
// ---------------------------------------------------------------------------

/// What the addon is.
pub fn metadata(store: &ConfigStore, version: &str) -> (res: Metadata)
    ensures
        res.id@ == "fr.wiflix"@,
        res.name@ == "Wiflix"@,
        res.lang@ == "fr"@,
        res.base_url@ == spec_base_url(store.entries()),
        res.version@ == version@,
        !res.nsfw,
{
    Metadata {
        id: "fr.wiflix".to_owned(),
        name: "Wiflix".to_owned(),
        lang: "fr".to_owned(),
        base_url: base_url(store),
        version: version.to_owned(),
        nsfw: false,
    }
}

/// The settings Wiflix declares.
pub open spec fn spec_preferences() -> Seq<
    (Seq<char>, Seq<char>, Option<Seq<char>>, Seq<char>, PreferenceKind, Seq<Seq<char>>),
> {
    seq![
        (
            PREF_BASE_URL@,
            "URL du site"@,
            Some("Domaine de Wiflix (ex : https://flemmix.best)"@),
            DEFAULT_BASE@,
            PreferenceKind::Text,
            Seq::empty(),
        ),
        (
            PREF_LANG@,
            "Langue des \u{e9}pisodes"@,
            Some("Langue essay\u{e9}e en premier (VF ou VOSTFR)."@),
            "vf"@,
            PreferenceKind::Select,
            seq!["vf"@, "vostfr"@],
        ),
    ]
}

/// The language setting offers its own default.
pub proof fn law_select_defaults_are_options()
    ensures
        defaults_are_options(spec_preferences()),
{
    let prefs = spec_preferences();
    assert(prefs[1].5[0] == prefs[1].3);
}

pub fn preferences() -> (res: Vec<Preference>)
    ensures
        preferences_view(res@) == spec_preferences(),
{
    let mut langs: Vec<String> = Vec::new();
    langs.push("vf".to_owned());
    langs.push("vostfr".to_owned());
    let mut out: Vec<Preference> = Vec::new();
    out.push(
        Preference {
            key: PREF_BASE_URL.to_owned(),
            title: "URL du site".to_owned(),
            summary: Some("Domaine de Wiflix (ex : https://flemmix.best)".to_owned()),
            default: DEFAULT_BASE.to_owned(),
            kind: PreferenceKind::Text,
            options: Vec::new(),
        },
    );
    out.push(
        Preference {
            key: PREF_LANG.to_owned(),
            title: "Langue des \u{e9}pisodes".to_owned(),
            summary: Some("Langue essay\u{e9}e en premier (VF ou VOSTFR).".to_owned()),
            default: "vf".to_owned(),
            kind: PreferenceKind::Select,
            options: langs,
        },
    );
    assert(out@[0].options.deep_view() =~= Seq::<Seq<char>>::empty());
    assert(out@[1].options.deep_view() =~= seq!["vf"@, "vostfr"@]);
    assert(preferences_view(out@) =~= spec_preferences());
    out
}

pub const TITLE: &'static str = "h1[itemprop=name]";

pub const OG_TITLE: &'static str = "meta[property='og:title']";

pub const POSTER: &'static str = "#posterimg, .mov-img img, img[itemprop=image]";

/// The show's title: the page's name heading, else the `og:title` before
/// its ` »` suffix, else `Wiflix`.
pub open spec fn spec_title(html: Seq<char>) -> Seq<char> {
    match spec_first_text(html, TITLE@) {
        Some(t) => t,
        None => match spec_attr_text(html, OG_TITLE@, "content"@) {
            Some(t) => {
                let x = spec_trim(before_first(t, " \u{bb}"@));
                if x.len() > 0 {
                    x
                } else {
                    "Wiflix"@
                }
            },
            None => "Wiflix"@,
        },
    }
}

fn title_of(html: &str) -> (res: String)
    ensures
        res@ == spec_title(html@),
{
    match first_text(html, TITLE) {
        Some(t) => t,
        None => match attr_text(html, OG_TITLE, "content") {
            Some(t) => {
                let b = before_first_of(t.as_str(), " \u{bb}");
                let x = trim(b.as_slice());
                if x.len() > 0 {
                    string_of(x.as_slice())
                } else {
                    "Wiflix".to_owned()
                }
            },
            None => "Wiflix".to_owned(),
        },
    }
}

/// A show's page turned into its details: title and poster.
pub fn anime_details(store: &ConfigStore, input: &UrlInput, html: &str) -> (res: Anime)
    ensures
        res.url@ == input.url@,
        res.title@ == spec_title(html@),
        res.poster_url.deep_view() == match spec_attr_text(html@, POSTER@, "src"@) {
            Some(p) => Some(spec_abs_url(Some(spec_base_url(store.entries())), p)),
            None => None,
        },
        res.description is None,
        res.genres@.len() == 0,
        res.status is None,
{
    let title = title_of(html);
    let poster_url = match attr_text(html, POSTER, "src") {
        Some(p) => Some(abs_url(store, p.as_str())),
        None => None,
    };
    Anime {
        url: input.url.clone(),
        title,
        poster_url,
        description: None,
        genres: Vec::new(),
        status: None,
    }
}

// ---------------------------------------------------------------------------
// Episodes
// ---------------------------------------------------------------------------

/// A `loadVideo('url')` call.
pub const LOAD_VIDEO: &'static str = "loadVideo\\(\\s*['\"]([^'\"]+)['\"]";

/// The class of an episode block: `ep<n>vf`, `ep<n>vostfr`, `ep<n>vs`.
pub const EPISODE_CLASS: &'static str = "^ep(\\d+)(vf|vostfr|vs)";

pub const EPISODE_BLOCKS: &'static str = ".hostsblock div[class]";

pub const FILM_LINKS: &'static str = ".tabs-sel.linkstab a[onclick*=loadVideo], .linkstab a[onclick*=loadVideo], .hostsblock a[onclick*=loadVideo]";

/// The `loadVideo` URLs of the handlers, made absolute, in order.
pub open spec fn handler_urls(entries: Seq<(Seq<char>, Seq<char>)>, handlers: Seq<Option<Seq<char>>>) -> Seq<Seq<char>>
    decreases handlers.len(),
{
    if handlers.len() == 0 {
        Seq::empty()
    } else {
        let init = handler_urls(entries, handlers.drop_last());
        match handlers.last() {
            Some(h) => match spec_first_group(LOAD_VIDEO@, h) {
                Some(u) => init.push(spec_abs_url(Some(spec_base_url(entries)), u)),
                None => init,
            },
            None => init,
        }
    }
}

/// The `onclick` handlers of the elements `selector` matches.
pub open spec fn onclick_handlers(html: Seq<char>, selector: Seq<char>) -> Seq<Option<Seq<char>>> {
    match spec_html_select(html, selector, "onclick"@) {
        Some(els) => Seq::new(els.len(), |i: int| els[i].0),
        None => Seq::empty(),
    }
}

/// The distinct `loadVideo` URLs of the elements `selector` matches.
pub open spec fn spec_load_urls(entries: Seq<(Seq<char>, Seq<char>)>, html: Seq<char>, selector: Seq<char>) -> Seq<Seq<char>> {
    spec_dedupe(handler_urls(entries, onclick_handlers(html, selector)))
}

fn handler_urls_of(store: &ConfigStore, handlers: &Vec<Option<String>>) -> (res: Vec<String>)
    ensures
        res.deep_view() == handler_urls(store.entries(), handlers.deep_view()),
{
    let mut out: Vec<String> = Vec::new();
    let mut i: usize = 0;
    while i < handlers.len()
        invariant
            0 <= i <= handlers@.len(),
            out.deep_view() == handler_urls(store.entries(), handlers.deep_view().take(i as int)),
        decreases handlers@.len() - i,
    {
        let ghost t = handlers.deep_view().take(i + 1);
        assert(t.drop_last() =~= handlers.deep_view().take(i as int));
        assert(t.last() == handlers.deep_view()[i as int]);
        if let Some(h) = &handlers[i] {
            if let Some(u) = first_group(LOAD_VIDEO, h.as_str()) {
                let ghost before = out.deep_view();
                let a = abs_url(store, u.as_str());
                out.push(a);
                assert(out.deep_view() =~= before.push(a@));
            }
        }
        i = i + 1;
    }
    assert(handlers.deep_view().take(handlers@.len() as int) =~= handlers.deep_view());
    out
}

/// Extracts the URLs from the `loadVideo('url')` handlers of the elements
/// `selector` matches, each once.
pub fn load_urls(store: &ConfigStore, html: &str, selector: &str) -> (res: Vec<String>)
    ensures
        res.deep_view() == spec_load_urls(store.entries(), html@, selector@),
{
    let mut handlers: Vec<Option<String>> = Vec::new();
    match html_select(html, selector, "onclick") {
        Some(els) => {
            let mut i: usize = 0;
            while i < els.len()
                invariant
                    0 <= i <= els@.len(),
                    handlers.deep_view() =~= Seq::new(
                        i as nat,
                        |j: int| els.deep_view()[j].0,
                    ),
                decreases els@.len() - i,
            {
                let h = match &els[i].0 {
                    Some(v) => Some(v.clone()),
                    None => None,
                };
                let ghost before = handlers.deep_view();
                assert(h.deep_view() == els.deep_view()[i as int].0);
                handlers.push(h);
                assert(handlers.deep_view() =~= before.push(els.deep_view()[i as int].0));
                i = i + 1;
            }
        },
        None => {},
    }
    assert(handlers.deep_view() =~= onclick_handlers(html@, selector@));
    let urls = handler_urls_of(store, &handlers);
    dedupe(&urls)
}

/// Group 1 of every `loadVideo` match of a fragment.
pub open spec fn load_groups(matches: Seq<Seq<Option<Seq<char>>>>) -> Seq<Option<Seq<char>>> {
    Seq::new(
        matches.len(),
        |i: int| if matches[i].len() > 1 {
            matches[i][1]
        } else {
            None
        },
    )
}

/// The distinct `loadVideo` URLs of an HTML fragment, made absolute.
pub open spec fn spec_load_html_urls(entries: Seq<(Seq<char>, Seq<char>)>, fragment: Seq<char>) -> Seq<Seq<char>> {
    spec_dedupe(
        handler_urls_from_groups(entries, load_groups(spec_regex_captures_iter(LOAD_VIDEO@, fragment))),
    )
}

/// The captured URLs, made absolute.
pub open spec fn handler_urls_from_groups(entries: Seq<(Seq<char>, Seq<char>)>, groups: Seq<Option<Seq<char>>>) -> Seq<Seq<char>>
    decreases groups.len(),
{
    if groups.len() == 0 {
        Seq::empty()
    } else {
        let init = handler_urls_from_groups(entries, groups.drop_last());
        match groups.last() {
            Some(u) => init.push(spec_abs_url(Some(spec_base_url(entries)), u)),
            None => init,
        }
    }
}

/// Parses the `loadVideo` URLs of a raw HTML fragment (one episode block).
pub fn load_html_urls(store: &ConfigStore, fragment: &str) -> (res: Vec<String>)
    ensures
        res.deep_view() == spec_load_html_urls(store.entries(), fragment@),
{
    let matches = regex_captures_iter(LOAD_VIDEO, fragment);
    let ghost groups = load_groups(matches.deep_view());
    let mut out: Vec<String> = Vec::new();
    let mut i: usize = 0;
    while i < matches.len()
        invariant
            0 <= i <= matches@.len(),
            groups == load_groups(matches.deep_view()),
            out.deep_view() == handler_urls_from_groups(store.entries(), groups.take(i as int)),
        decreases matches@.len() - i,
    {
        let ghost t = groups.take(i + 1);
        assert(t.drop_last() =~= groups.take(i as int));
        let c = &matches[i];
        if c.len() > 1 {
            if let Some(u) = &c[1] {
                let ghost before = out.deep_view();
                let a = abs_url(store, u.as_str());
                out.push(a);
                assert(out.deep_view() =~= before.push(a@));
            }
        }
        i = i + 1;
    }
    assert(groups.take(matches@.len() as int) =~= groups);
    dedupe(&out)
}

/// An episode block: its number, its language, its player URLs.
pub open spec fn spec_block(entries: Seq<(Seq<char>, Seq<char>)>, el: (Option<Seq<char>>, Seq<char>, Seq<char>)) -> Option<(i64, Seq<char>, Seq<Seq<char>>)> {
    let class = match el.0 {
        Some(c) => c,
        None => Seq::empty(),
    };
    match spec_regex_captures(EPISODE_CLASS@, class) {
        Some(groups) => if groups.len() > 1 && groups[1] is Some {
            let n = match spec_parse_i64(groups[1]->0) {
                Some(v) => v,
                None => 0,
            };
            let lang = if spec_contains(class, "vf"@) {
                "vf"@
            } else {
                "vostfr"@
            };
            let urls = spec_load_html_urls(entries, el.2);
            if urls.len() > 0 {
                Some((n, lang, urls))
            } else {
                None
            }
        } else {
            None
        },
        None => None,
    }
}

/// An episode block's players are filed as `vf` exactly when its class
/// contains `vf`, and as `vostfr` otherwise (`ep1vostfr`, `ep1vs`, ...).
pub proof fn law_block_language(entries: Seq<(Seq<char>, Seq<char>)>, el: (Option<Seq<char>>, Seq<char>, Seq<char>))
    ensures
        spec_block(entries, el) matches Some((_n, lang, _urls)) ==> {
            let class = match el.0 {
                Some(c) => c,
                None => Seq::empty(),
            };
            &&& spec_contains(class, "vf"@) ==> lang == "vf"@
            &&& !spec_contains(class, "vf"@) ==> lang == "vostfr"@
        },
{
}

pub open spec fn blocks_of(entries: Seq<(Seq<char>, Seq<char>)>, els: Seq<(Option<Seq<char>>, Seq<char>, Seq<char>)>) -> Seq<(i64, Seq<char>, Seq<Seq<char>>)>
    decreases els.len(),
{
    if els.len() == 0 {
        Seq::empty()
    } else {
        let init = blocks_of(entries, els.drop_last());
        match spec_block(entries, els.last()) {
            Some(b) => init.push(b),
            None => init,
        }
    }
}

/// The episode blocks of a series page, in the order the selection yields
/// them.
pub open spec fn spec_blocks(entries: Seq<(Seq<char>, Seq<char>)>, html: Seq<char>) -> Seq<(i64, Seq<char>, Seq<Seq<char>>)> {
    match spec_html_select(html, EPISODE_BLOCKS@, "class"@) {
        Some(els) => blocks_of(entries, els),
        None => Seq::empty(),
    }
}

/// The URLs of episode `n`'s blocks in language `lang`, each written
/// `lang#url`, in block order.
pub open spec fn episode_lang_urls(blocks: Seq<(i64, Seq<char>, Seq<Seq<char>>)>, n: i64, lang: Seq<char>) -> Seq<Seq<char>>
    decreases blocks.len(),
{
    if blocks.len() == 0 {
        Seq::empty()
    } else {
        let init = episode_lang_urls(blocks.drop_last(), n, lang);
        let b = blocks.last();
        if b.0 == n && b.1 == lang {
            init + b.2.map_values(|u: Seq<char>| lang + "#"@ + u)
        } else {
            init
        }
    }
}

/// Every player of an episode's block reaches that episode's list for the
/// block's language, written `lang#url`.
pub proof fn law_block_players_listed(blocks: Seq<(i64, Seq<char>, Seq<Seq<char>>)>, n: i64, lang: Seq<char>)
    ensures
        forall|j: int, i: int|
            0 <= j < blocks.len() && blocks[j].0 == n && blocks[j].1 == lang && 0 <= i
                < blocks[j].2.len() ==> episode_lang_urls(blocks, n, lang).contains(
                lang + "#"@ + (#[trigger] blocks[j].2[i]),
            ),
    decreases blocks.len(),
{
    if blocks.len() > 0 {
        let init = blocks.drop_last();
        law_block_players_listed(init, n, lang);
        let b = blocks.last();
        let prev = episode_lang_urls(init, n, lang);
        assert forall|j: int, i: int|
            0 <= j < blocks.len() && blocks[j].0 == n && blocks[j].1 == lang && 0 <= i
                < blocks[j].2.len() implies episode_lang_urls(blocks, n, lang).contains(
            lang + "#"@ + (#[trigger] blocks[j].2[i]),
        ) by {
            let x = lang + "#"@ + blocks[j].2[i];
            if j < blocks.len() - 1 {
                assert(init[j] == blocks[j]);
                assert(init[j].2[i] == blocks[j].2[i]);
                let w = choose|w: int| 0 <= w < prev.len() && prev[w] == x;
                if b.0 == n && b.1 == lang {
                    let m = b.2.map_values(|u: Seq<char>| lang + "#"@ + u);
                    assert((prev + m)[w] == x);
                }
            } else {
                let m = b.2.map_values(|u: Seq<char>| lang + "#"@ + u);
                assert(m[i] == x);
                assert((prev + m)[prev.len() + i] == x);
            }
        }
    }
}

/// Episode `n`: its `vf` players, then its `vostfr` ones.
pub open spec fn spec_block_episode(blocks: Seq<(i64, Seq<char>, Seq<Seq<char>>)>, n: i64) -> (Seq<char>, Seq<char>, i64, Option<i64>) {
    (
        spec_join(episode_lang_urls(blocks, n, "vf"@) + episode_lang_urls(blocks, n, "vostfr"@), ","@),
        "Episode "@ + spec_i64_to_string(n),
        n,
        None,
    )
}

pub open spec fn is_block_number(blocks: Seq<(i64, Seq<char>, Seq<Seq<char>>)>, n: i64) -> bool {
    exists|i: int| 0 <= i < blocks.len() && (#[trigger] blocks[i]).0 == n
}

/// The episodes of a page: one per episode number of its blocks, in
/// ascending order; without blocks, the film's `loadVideo` links as one
/// episode, or nothing.
pub open spec fn is_episode_list(eps: Seq<Episode>, entries: Seq<(Seq<char>, Seq<char>)>, html: Seq<char>) -> bool {
    let blocks = spec_blocks(entries, html);
    if blocks.len() > 0 {
        &&& strictly_increasing(episode_numbers(eps))
        &&& forall|n: i64| episode_numbers(eps).contains(n) <==> is_block_number(blocks, n)
        &&& forall|i: int|
            0 <= i < eps.len() ==> episode_view(#[trigger] eps[i]) == spec_block_episode(
                blocks,
                eps[i].number,
            )
    } else {
        let film = spec_load_urls(entries, html, FILM_LINKS@);
        if film.len() == 0 {
            eps.len() == 0
        } else {
            eps.len() == 1 && episode_view(eps[0]) == (
                spec_join(film, ","@),
                "(FILM) Film"@,
                1i64,
                None::<i64>,
            )
        }
    }
}

fn contains_vf(class: &str) -> (res: bool)
    ensures
        res == spec_contains(class@, "vf"@),
{
    let c = chars_of(class);
    contains_str(c.as_slice(), "vf")
}

fn block_of(store: &ConfigStore, el: &(Option<String>, String, String)) -> (res: Option<(i64, String, Vec<String>)>)
    ensures
        match res {
            Some(b) => spec_block(store.entries(), el.deep_view()) == Some(
                (b.0, b.1@, b.2.deep_view()),
            ),
            None => spec_block(store.entries(), el.deep_view()) is None,
        },
{
    let class: String = match &el.0 {
        Some(c) => c.clone(),
        None => String::new(),
    };
    let groups = match regex_captures(EPISODE_CLASS, class.as_str()) {
        Some(g) => g,
        None => return None,
    };
    if groups.len() <= 1 {
        return None;
    }
    let num = match &groups[1] {
        Some(g) => g,
        None => return None,
    };
    let nc = chars_of(num.as_str());
    let n: i64 = match parse_i64(nc.as_slice()) {
        Some(v) => v,
        None => 0,
    };
    let lang = if contains_vf(class.as_str()) {
        "vf".to_owned()
    } else {
        "vostfr".to_owned()
    };
    let urls = load_html_urls(store, el.2.as_str());
    if urls.len() > 0 {
        Some((n, lang, urls))
    } else {
        None
    }
}

fn blocks(store: &ConfigStore, html: &str) -> (res: Vec<(i64, String, Vec<String>)>)
    ensures
        res.deep_view() == spec_blocks(store.entries(), html@),
{
    let mut out: Vec<(i64, String, Vec<String>)> = Vec::new();
    match html_select(html, EPISODE_BLOCKS, "class") {
        Some(els) => {
            let mut i: usize = 0;
            while i < els.len()
                invariant
                    0 <= i <= els@.len(),
                    out.deep_view() == blocks_of(store.entries(), els.deep_view().take(i as int)),
                decreases els@.len() - i,
            {
                let ghost t = els.deep_view().take(i + 1);
                assert(t.drop_last() =~= els.deep_view().take(i as int));
                assert(t.last() == els.deep_view()[i as int]);
                match block_of(store, &els[i]) {
                    Some(b) => {
                        let ghost before = out.deep_view();
                        let ghost bv = (b.0, b.1@, b.2.deep_view());
                        out.push(b);
                        assert(out.deep_view() =~= before.push(bv));
                    },
                    None => {},
                }
                i = i + 1;
            }
            assert(els.deep_view().take(els@.len() as int) =~= els.deep_view());
        },
        None => {
            assert(out.deep_view() =~= Seq::<(i64, Seq<char>, Seq<Seq<char>>)>::empty());
        },
    }
    out
}

fn lang_urls(bs: &Vec<(i64, String, Vec<String>)>, n: i64, lang: &str, out: &mut Vec<String>)
    ensures
        final(out).deep_view() == old(out).deep_view() + episode_lang_urls(bs.deep_view(), n, lang@),
{
    let ghost start = out.deep_view();
    let mut i: usize = 0;
    while i < bs.len()
        invariant
            0 <= i <= bs@.len(),
            out.deep_view() == start + episode_lang_urls(bs.deep_view().take(i as int), n, lang@),
        decreases bs@.len() - i,
    {
        let ghost t = bs.deep_view().take(i + 1);
        assert(t.drop_last() =~= bs.deep_view().take(i as int));
        assert(t.last() == bs.deep_view()[i as int]);
        if bs[i].0 == n && str_eq(bs[i].1.as_str(), lang) {
            let us = &bs[i].2;
            let ghost mid = out.deep_view();
            let mut j: usize = 0;
            while j < us.len()
                invariant
                    0 <= j <= us@.len(),
                    out.deep_view() == mid + us.deep_view().take(j as int).map_values(
                        |u: Seq<char>| lang@ + "#"@ + u,
                    ),
                decreases us@.len() - j,
            {
                let mut e = chars_of(lang);
                push_str(&mut e, "#");
                push_str(&mut e, us[j].as_str());
                let ghost before = out.deep_view();
                out.push(string_of(e.as_slice()));
                assert(out.deep_view() =~= before.push(e@));
                assert(us.deep_view().take(j + 1).map_values(|u: Seq<char>| lang@ + "#"@ + u)
                    =~= us.deep_view().take(j as int).map_values(|u: Seq<char>| lang@ + "#"@ + u).push(
                    e@,
                ));
                j = j + 1;
            }
            assert(us.deep_view().take(us@.len() as int) =~= us.deep_view());
            assert(out.deep_view() =~= start + episode_lang_urls(
                bs.deep_view().take(i + 1),
                n,
                lang@,
            ));
        }
        i = i + 1;
    }
    assert(bs.deep_view().take(bs@.len() as int) =~= bs.deep_view());
}

/// The episodes of a show page: series blocks (`ep<n>vf`, `ep<n>vostfr`)
/// grouped by number, or, without any, the film's links as one episode.
pub fn episode_list(store: &ConfigStore, html: &str) -> (res: Vec<Episode>)
    ensures
        is_episode_list(res@, store.entries(), html@),
{
    let bs = blocks(store, html);
    if bs.len() > 0 {
        let mut all: Vec<i64> = Vec::new();
        let mut i: usize = 0;
        while i < bs.len()
            invariant
                0 <= i <= bs@.len(),
                forall|n: i64|
                    all@.contains(n) <==> exists|j: int|
                        0 <= j < i && (#[trigger] bs.deep_view()[j]).0 == n,
            decreases bs@.len() - i,
        {
            let ghost before = all@;
            all.push(bs[i].0);
            assert(all@ == before.push(bs.deep_view()[i as int].0));
            proof {
                assert forall|n: i64| all@.contains(n) <==> exists|j: int|
                    0 <= j < i + 1 && (#[trigger] bs.deep_view()[j]).0 == n by {
                    if all@.contains(n) {
                        let k = choose|k: int| 0 <= k < all@.len() && all@[k] == n;
                        if k < before.len() {
                            assert(before[k] == n);
                            assert(before.contains(n));
                        } else {
                            assert(bs.deep_view()[i as int].0 == n);
                        }
                    }
                    if exists|j: int| 0 <= j < i + 1 && (#[trigger] bs.deep_view()[j]).0 == n {
                        let j = choose|j: int|
                            0 <= j < i + 1 && (#[trigger] bs.deep_view()[j]).0 == n;
                        if j < i {
                            assert(before.contains(n));
                            let k = choose|k: int| 0 <= k < before.len() && before[k] == n;
                            assert(all@[k] == n);
                        } else {
                            assert(all@[before.len() as int] == n);
                        }
                    }
                }
            }
            i = i + 1;
        }
        let nums = sorted_distinct(&all);
        let mut out: Vec<Episode> = Vec::new();
        let mut k: usize = 0;
        while k < nums.len()
            invariant
                0 <= k <= nums@.len(),
                out@.len() == k,
                forall|j: int| 0 <= j < k ==> (#[trigger] out@[j]).number == nums@[j],
                forall|j: int|
                    0 <= j < k ==> episode_view(#[trigger] out@[j]) == spec_block_episode(
                        bs.deep_view(),
                        out@[j].number,
                    ),
            decreases nums@.len() - k,
        {
            let n = nums[k];
            let mut encoded: Vec<String> = Vec::new();
            lang_urls(&bs, n, "vf", &mut encoded);
            lang_urls(&bs, n, "vostfr", &mut encoded);
            assert(encoded.deep_view() =~= episode_lang_urls(bs.deep_view(), n, "vf"@)
                + episode_lang_urls(bs.deep_view(), n, "vostfr"@));
            let mut name = chars_of("Episode ");
            let nd = i64_to_string(n);
            crate::text::push_all(&mut name, nd.as_slice());
            out.push(
                Episode {
                    url: join(&encoded, ","),
                    name: string_of(name.as_slice()),
                    number: n,
                    date_upload: None,
                },
            );
            k = k + 1;
        }
        assert(episode_numbers(out@) =~= nums@);
        assert forall|n: i64| all@.contains(n) <==> is_block_number(bs.deep_view(), n) by {
            if all@.contains(n) {
                let j = choose|j: int| 0 <= j < bs@.len() && (#[trigger] bs.deep_view()[j]).0 == n;
            }
        }
        return out;
    }
    let film = load_urls(store, html, FILM_LINKS);
    if film.len() == 0 {
        return Vec::new();
    }
    let mut out: Vec<Episode> = Vec::new();
    out.push(
        Episode {
            url: join(&film, ","),
            name: "(FILM) Film".to_owned(),
            number: 1,
            date_upload: None,
        },
    );
    out
}

// ---------------------------------------------------------------------------
// Hosters and videos
// ---------------------------------------------------------------------------

/// Hosts known to be dead or ad-only: never offered.
pub open spec fn dead_hosts() -> Seq<Seq<char>> {
    seq!["upns."@, "hgcloud"@, "waaw1"@, "upns.pro"@, "upns.live"@]
}

pub open spec fn spec_is_dead(host: Seq<char>) -> bool {
    contains_any(host, dead_hosts())
}

pub fn is_dead(host: &str) -> (res: bool)
    ensures
        res == spec_is_dead(host@),
{
    let keys: [&str; 5] = ["upns.", "hgcloud", "waaw1", "upns.pro", "upns.live"];
    let ks: &[&str] = keys.as_slice();
    assert(ks.deep_view() =~= dead_hosts());
    contains_any_of(host, ks)
}

/// The hosters of an episode: `input.url` is the encoded player list
/// `episode_list` wrote (`vf#url,vostfr#url` for a series, `url,url` for a
/// film).
pub fn hoster_list(store: &ConfigStore, input: &UrlInput) -> (res: Vec<Hoster>)
    ensures
        hosters_view(res@) == spec_hosters_of(input.url@, spec_pref_lang(store.entries()), dead_hosts()),
{
    let pref = pref_lang(store);
    let keys: [&str; 5] = ["upns.", "hgcloud", "waaw1", "upns.pro", "upns.live"];
    let ks: &[&str] = keys.as_slice();
    assert(ks.deep_view() =~= dead_hosts());
    hosters_of(input.url.as_str(), pref.as_str(), ks)
}

/// How a hoster's videos are found; a failed request fails the entry point.
pub enum VideoRoute {
    /// The DoodStream token flow (`dood_page_request`, `dood_pass_path`,
    /// `dood_pass_request`, `dood_videos`).
    Dood,
    /// The universal extractor (`extract_request`, `redirect_target`,
    /// `redirect_request`, then `videos_of_page`).
    Extract,
}

pub fn video_list(input: &Hoster) -> (res: VideoRoute)
    ensures
        res is Dood <==> crate::common::spec_is_dood(spec_host_of(input.url@)),
{
    let host = host_of(input.url.as_str());
    if is_dood(host.as_str()) {
        VideoRoute::Dood
    } else {
        VideoRoute::Extract
    }
}

/// The request for an embed page, with its own origin as Referer.
pub fn extract_request(url: &str) -> (res: Request)
    ensures
        res.url@ == url@,
        res.headers.deep_view() == request_headers(
            seq![("Referer"@, origin_referer(spec_host_of(url@)))],
        ),
{
    let host = host_of(url);
    let referer = origin_referer_of(host.as_str());
    let extra: [(&str, &str); 1] = [("Referer", referer.as_str())];
    let ex: &[(&str, &str)] = extra.as_slice();
    assert(ex.deep_view() =~= seq![("Referer"@, referer@)]);
    fetch(url, ex)
}

/// The request for the page an embed redirects to: no extra header.
pub fn redirect_request(target: &str) -> (res: Request)
    ensures
        res.url@ == target@,
        res.headers.deep_view() == request_headers(Seq::empty()),
{
    let extra: [(&str, &str); 0] = [];
    let ex: &[(&str, &str)] = extra.as_slice();
    assert(ex.deep_view() =~= Seq::<(Seq<char>, Seq<char>)>::empty());
    fetch(target, ex)
}

/// An `eval(function(p,a,c,k,e,d)...))` packed script.
pub const PACKED_EVAL: &'static str = "eval\\(function\\(p,a,c,k,e,d\\).*?\\)\\)";

/// Dean Edwards' unpacker on one packed script.
pub open spec fn spec_unpack(packed: Seq<char>) -> Option<Seq<char>> {
    match spec_regex_captures(PACKED@, packed) {
        Some(caps) => spec_unpack_match(caps),
        None => None,
    }
}

pub fn unpack(packed: &str) -> (res: Option<String>)
    ensures
        res.deep_view() == spec_unpack(packed@),
{
    match regex_captures(PACKED, packed) {
        Some(caps) => unpack_match(&caps),
        None => None,
    }
}

pub open spec fn unpacked_scripts(scripts: Seq<Seq<char>>) -> Seq<char>
    decreases scripts.len(),
{
    if scripts.len() == 0 {
        Seq::empty()
    } else {
        let init = unpacked_scripts(scripts.drop_last());
        match spec_unpack(scripts.last()) {
            Some(u) => init + "\n"@ + u,
            None => init,
        }
    }
}

/// The page followed by each of its packed scripts, unpacked.
pub open spec fn spec_packed_hay(html: Seq<char>) -> Seq<char> {
    html + unpacked_scripts(spec_regex_find_iter(PACKED_EVAL@, html))
}

fn packed_hay(html: &str) -> (res: String)
    ensures
        res@ == spec_packed_hay(html@),
{
    let scripts = regex_find_iter(PACKED_EVAL, html);
    let mut hay = chars_of(html);
    let mut i: usize = 0;
    while i < scripts.len()
        invariant
            0 <= i <= scripts@.len(),
            hay@ == html@ + unpacked_scripts(scripts.deep_view().take(i as int)),
        decreases scripts@.len() - i,
    {
        assert(scripts.deep_view().take(i + 1).drop_last() =~= scripts.deep_view().take(i as int));
        assert(scripts.deep_view().take(i + 1).last() == scripts@[i as int]@);
        if let Some(u) = unpack(scripts[i].as_str()) {
            push_str(&mut hay, "\n");
            push_str(&mut hay, u.as_str());
        }
        i = i + 1;
    }
    assert(scripts.deep_view().take(scripts@.len() as int) =~= scripts.deep_view());
    string_of(hay.as_slice())
}

/// The videos of an embed page (after any redirect), given the JSON its VOE
/// payload decoded to: VOE's streams if it names any, else every distinct
/// `.m3u8`/`.mp4` URL of the page and its unpacked scripts.
pub open spec fn spec_extract_videos(url: Seq<char>, html: Seq<char>, meta: Option<JsonValue>) -> Seq<(Seq<char>, Seq<char>, Seq<(Seq<char>, Seq<char>)>)> {
    let host = spec_host_of(url);
    let label = spec_host_label(host);
    if meta is Some && spec_voe_urls(meta->0).len() > 0 {
        spec_videos_of(spec_voe_urls(meta->0), label, seq![("Referer"@, "https://voe.sx/"@)])
    } else {
        spec_videos_of(
            spec_media_urls(spec_packed_hay(html)),
            label,
            seq![("Referer"@, origin_referer(host))],
        )
    }
}

pub fn extract_videos(url: &str, html: &str, meta: Option<&JsonValue>) -> (res: Vec<Video>)
    ensures
        videos_view(res@) == spec_extract_videos(url@, html@, deref_json(meta)),
        no_tracks(res@),
{
    let host = host_of(url);
    let label = host_label(host.as_str());
    if let Some(m) = meta {
        let urls = voe_urls(m);
        if urls.len() > 0 {
            let pairs: [(&str, &str); 1] = [("Referer", "https://voe.sx/")];
            let ps: &[(&str, &str)] = pairs.as_slice();
            let vh = headers(ps);
            assert(ps.deep_view() =~= seq![("Referer"@, "https://voe.sx/"@)]);
            return videos_of(&urls, label.as_str(), &vh);
        }
    }
    let hay = packed_hay(html);
    let referer = origin_referer_of(host.as_str());
    let pairs: [(&str, &str); 1] = [("Referer", referer.as_str())];
    let ps: &[(&str, &str)] = pairs.as_slice();
    let vh = headers(ps);
    assert(ps.deep_view() =~= seq![("Referer"@, referer@)]);
    let urls = media_urls(hay.as_str());
    videos_of(&urls, label.as_str(), &vh)
}

/// The videos of an embed page as fetched: its VOE metadata, when the page
/// carries any, decoded first, then `extract_videos`.
pub fn videos_of_page(url: &str, html: &str) -> (res: Vec<Video>)
    ensures
        videos_view(res@) == spec_extract_videos(url@, html@, spec_voe_from_html(html@)),
        no_tracks(res@),
{
    let meta = voe_from_html(html);
    extract_videos(url, html, meta.as_ref())
}

// ---------------------------------------------------------------------------
// Listings
// ---------------------------------------------------------------------------

/// The site offers no popular listing: an empty page.
pub fn popular(_input: &PageInput) -> (res: AnimesPage)
    ensures
        res.animes@.len() == 0,
        !res.has_next_page,
{
    AnimesPage::empty()
}

/// The site offers no latest listing: an empty page.
pub fn latest(_input: &PageInput) -> (res: AnimesPage)
    ensures
        res.animes@.len() == 0,
        !res.has_next_page,
{
    AnimesPage::empty()
}

/// The site offers no search: an empty page.
pub fn search(_input: &SearchInput) -> (res: AnimesPage)
    ensures
        res.animes@.len() == 0,
        !res.has_next_page,
{
    AnimesPage::empty()
}

} // verus!
