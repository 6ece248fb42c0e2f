//! Pieces every site addon shares: URL and host handling, request building,
//! the header lists of the videos, the DoodStream token flow and the VOE
//! payload decoder.

use std::collections::BTreeSet;

use vstd::std_specs::btree::{increasing_seq, spec_btree_keys_iter};
use vstd::std_specs::iter::IteratorSpec;

use vstd::prelude::*;
use vstd::string::StringSliceAdditionalSpecFns;
use vstd::utf8::*;
use vstd::wrapping::u64_specs;

use crate::api::{video, Episode, Hoster, Preference, PreferenceKind, Request, Video};
use crate::json::{spec_str_member, JsonValue};
use crate::outside::{
    base64_decode, char_to_uppercase, html_select, parse_json, regex_captures, regex_find_iter,
    regex_replace_tokens, spec_base64_decode, spec_char_to_uppercase, spec_html_select, spec_json_value,
    spec_regex_captures, spec_regex_find_iter, spec_regex_split, spec_to_lowercase, to_lowercase,
};
use crate::text::{
    chars_eq, chars_of, contains_str, contains_string, dedupe, find, occurs_at, parse_unsigned,
    push_all, push_str, remove_char, replace, spec_contains, spec_dedupe, spec_join,
    spec_parse_unsigned, spec_remove_char, spec_replace, spec_split, spec_split_once, spec_trim,
    spec_trim_end_str, spec_trim_start_str, split, split_once, starts_with, str_eq, string_of, trim,
    trim_end_str, trim_start_str, views,
};

verus! {

/// The browser user agent every request carries.
pub const UA: &'static str = "Mozilla/5.0 (X11; Linux x86_64) AppleWebKit/537.36 (KHTML, like Gecko) Chrome/124.0.0.0 Safari/537.36";

// ---------------------------------------------------------------------------
// Header lists and requests
// ---------------------------------------------------------------------------

/// The header pairs as owned strings, in order.
pub fn headers(pairs: &[(&str, &str)]) -> (res: Vec<(String, String)>)
    ensures
        res.deep_view() == pairs.deep_view(),
{
    let mut out: Vec<(String, String)> = Vec::new();
    let mut i: usize = 0;
    while i < pairs.len()
        invariant
            0 <= i <= pairs@.len(),
            out.deep_view() =~= pairs.deep_view().take(i as int),
        decreases pairs@.len() - i,
    {
        let (k, v) = pairs[i];
        let ghost before = out.deep_view();
        assert(pairs.deep_view()[i as int] == (k@, v@));
        out.push((k.to_owned(), v.to_owned()));
        assert(out.deep_view() =~= before.push((k@, v@)));
        assert(pairs.deep_view().take(i + 1) =~= pairs.deep_view().take(i as int).push((k@, v@)));
        i = i + 1;
    }
    assert(pairs.deep_view().take(pairs@.len() as int) =~= pairs.deep_view());
    out
}

/// The headers of a request: the user agent first, then the given ones.
pub open spec fn request_headers(extra: Seq<(Seq<char>, Seq<char>)>) -> Seq<(Seq<char>, Seq<char>)> {
    seq![("User-Agent"@, UA@)] + extra
}

/// Fetches a URL as text through the host, with the browser user agent and
/// the given extra headers.
pub fn fetch(url: &str, extra: &[(&str, &str)]) -> (res: Request)
    ensures
        res.url@ == url@,
        res.headers.deep_view() == request_headers(extra.deep_view()),
{
    let mut hs: Vec<(String, String)> = Vec::new();
    hs.push(("User-Agent".to_owned(), UA.to_owned()));
    let rest = headers(extra);
    let mut i: usize = 0;
    while i < rest.len()
        invariant
            0 <= i <= rest@.len(),
            hs.deep_view() =~= request_headers(rest.deep_view().take(i as int)),
        decreases rest@.len() - i,
    {
        let ghost before = hs.deep_view();
        let k = rest[i].0.clone();
        let v = rest[i].1.clone();
        assert(rest.deep_view()[i as int] == (k@, v@));
        hs.push((k, v));
        assert(hs.deep_view() =~= before.push((k@, v@)));
        assert(rest.deep_view().take(i + 1) =~= rest.deep_view().take(i as int).push((k@, v@)));
        i = i + 1;
    }
    assert(rest.deep_view().take(rest@.len() as int) =~= rest.deep_view());
    Request { url: url.to_owned(), headers: hs }
}

// ---------------------------------------------------------------------------
// Hosts and URLs
// ---------------------------------------------------------------------------

/// The authority part of a URL: the third `/`-separated piece, or the whole
/// text when there is none.
pub open spec fn authority(url: Seq<char>) -> Seq<char> {
    let pieces = spec_split(url, '/');
    if pieces.len() > 2 {
        pieces[2]
    } else {
        url
    }
}

/// The host of a URL, lower-cased.
pub open spec fn spec_host_of(url: Seq<char>) -> Seq<char> {
    spec_to_lowercase(authority(url))
}

pub fn authority_of(url: &str) -> (res: Vec<char>)
    ensures
        res@ == authority(url@),
{
    let cs = chars_of(url);
    let pieces = split(cs.as_slice(), '/');
    if pieces.len() > 2 {
        crate::text::copy(pieces[2].as_slice())
    } else {
        cs
    }
}

pub fn host_of(url: &str) -> (res: String)
    ensures
        res@ == spec_host_of(url@),
{
    let a = authority_of(url);
    let s = string_of(a.as_slice());
    to_lowercase(s.as_str())
}

/// `host` contains one of `keys`.
pub open spec fn contains_any(host: Seq<char>, keys: Seq<Seq<char>>) -> bool {
    exists|k: int| 0 <= k < keys.len() && spec_contains(host, keys[k])
}

pub fn contains_any_of(host: &str, keys: &[&str]) -> (res: bool)
    ensures
        res == contains_any(host@, keys.deep_view()),
{
    let h = chars_of(host);
    let mut i: usize = 0;
    while i < keys.len()
        invariant
            0 <= i <= keys@.len(),
            h@ == host@,
            forall|k: int| 0 <= k < i ==> !spec_contains(host@, keys.deep_view()[k]),
        decreases keys@.len() - i,
    {
        if contains_str(h.as_slice(), keys[i]) {
            assert(spec_contains(host@, keys.deep_view()[i as int]));
            return true;
        }
        i = i + 1;
    }
    false
}

/// The DoodStream family of hosts.
pub open spec fn spec_is_dood(host: Seq<char>) -> bool {
    contains_any(
        host,
        seq!["dood"@, "dsvplay"@, "myvidplay"@, "playmogo"@, "ds2play"@, "d000d"@, "all3do"@],
    )
}

pub fn is_dood(host: &str) -> (res: bool)
    ensures
        res == spec_is_dood(host@),
{
    let keys: [&str; 7] = ["dood", "dsvplay", "myvidplay", "playmogo", "ds2play", "d000d", "all3do"];
    let ks: &[&str] = keys.as_slice();
    let r = contains_any_of(host, ks);
    assert(ks.deep_view() =~= seq![
        "dood"@,
        "dsvplay"@,
        "myvidplay"@,
        "playmogo"@,
        "ds2play"@,
        "d000d"@,
        "all3do"@,
    ]);
    r
}

/// An absolute URL for a link found in a page: the two slashes of a
/// protocol-relative link give way to `https:` (`//x` becomes `https:x`)
/// and, when a site base is given, `/x` becomes `base/x`.
pub open spec fn spec_abs_url(base: Option<Seq<char>>, s: Seq<char>) -> Seq<char> {
    if s.len() >= 2 && s[0] == '/' && s[1] == '/' {
        "https:"@ + s.subrange(2, s.len() as int)
    } else if base is Some && s.len() >= 1 && s[0] == '/' {
        base->0 + s
    } else {
        s
    }
}

pub fn abs_url_with(base: Option<&str>, s: &str) -> (res: String)
    ensures
        res@ == spec_abs_url(
            match base {
                Some(b) => Some(b@),
                None => None,
            },
            s@,
        ),
{
    let cs = chars_of(s);
    if cs.len() >= 2 && cs[0] == '/' && cs[1] == '/' {
        let mut out = chars_of("https:");
        let rest = crate::text::slice(cs.as_slice(), 2, cs.len());
        push_all(&mut out, rest.as_slice());
        string_of(out.as_slice())
    } else {
        match base {
            Some(b) => {
                if cs.len() >= 1 && cs[0] == '/' {
                    let mut out = chars_of(b);
                    push_all(&mut out, cs.as_slice());
                    return string_of(out.as_slice());
                }
                s.to_owned()
            },
            None => s.to_owned(),
        }
    }
}

/// A readable label from a host: its second-level name with the first
/// letter upper-cased, e.g. `uqload.net` gives `Uqload`.
pub open spec fn spec_host_label(host: Seq<char>) -> Seq<char> {
    let parts = spec_split(spec_trim_start_str(host, "www."@), '.');
    let name = if parts.len() >= 2 {
        parts[parts.len() - 2]
    } else {
        host
    };
    if name.len() == 0 {
        name
    } else {
        spec_char_to_uppercase(name[0]) + name.drop_first()
    }
}

pub fn host_label(host: &str) -> (res: String)
    ensures
        res@ == spec_host_label(host@),
{
    let h = chars_of(host);
    let www = chars_of("www.");
    let t = trim_start_str(h.as_slice(), www.as_slice());
    let parts = split(t.as_slice(), '.');
    let name: Vec<char> = if parts.len() >= 2 {
        crate::text::copy(parts[parts.len() - 2].as_slice())
    } else {
        h
    };
    if name.len() == 0 {
        return string_of(name.as_slice());
    }
    let mut out = char_to_uppercase(name[0]);
    let rest = crate::text::slice(name.as_slice(), 1, name.len());
    push_all(&mut out, rest.as_slice());
    assert(name@.drop_first() =~= name@.subrange(1, name@.len() as int));
    string_of(out.as_slice())
}

/// `https://host/`: the Referer a host's own pages expect.
pub open spec fn origin_referer(host: Seq<char>) -> Seq<char> {
    "https://"@ + host + "/"@
}

pub fn origin_referer_of(host: &str) -> (res: String)
    ensures
        res@ == origin_referer(host@),
{
    let mut out = chars_of("https://");
    push_str(&mut out, host);
    push_str(&mut out, "/");
    string_of(out.as_slice())
}

// ---------------------------------------------------------------------------
// DoodStream
// ---------------------------------------------------------------------------

/// The FNV-1a hash of a byte string (64-bit).
pub open spec fn fnv1a(bytes: Seq<u8>) -> u64
    decreases bytes.len(),
{
    if bytes.len() == 0 {
        1469598103934665603u64
    } else {
        u64_specs::wrapping_mul(fnv1a(bytes.drop_last()) ^ (bytes.last() as u64), 1099511628211u64)
    }
}

/// The generator state after `k` steps of the linear congruential generator
/// seeded with `h`; step `i` adds `1442695040888963407 + i`.
pub open spec fn lcg_state(h: u64, k: nat) -> u64
    decreases k,
{
    if k == 0 {
        h
    } else {
        let prev = lcg_state(h, (k - 1) as nat);
        u64_specs::wrapping_add(
            u64_specs::wrapping_mul(prev, 6364136223846793005u64),
            (1442695040888963407u64 + (k - 1)) as u64,
        )
    }
}

/// The `i`-th character of `A-Za-z0-9`.
pub open spec fn alphanumeric_at(i: int) -> char {
    if i < 26 {
        ((i + 'A' as int) as u32) as char
    } else if i < 52 {
        ((i - 26 + 'a' as int) as u32) as char
    } else {
        ((i - 52 + '0' as int) as u32) as char
    }
}

/// The ten-character nonce derived from a seed: FNV-1a of its UTF-8 bytes
/// seeds the generator, and each step's bits 33 and up pick a character of
/// `A-Za-z0-9`.
pub open spec fn spec_pseudo_random(seed: Seq<char>) -> Seq<char> {
    let h = fnv1a(encode_utf8(seed));
    Seq::new(10, |k: int| alphanumeric_at(((lcg_state(h, (k + 1) as nat) >> 33u64) % 62) as int))
}

fn alphanumeric(i: u64) -> (res: char)
    requires
        i < 62,
    ensures
        res == alphanumeric_at(i as int),
{
    if i < 26 {
        ((i as u8) + 65u8) as char
    } else if i < 52 {
        ((i as u8) - 26 + 97u8) as char
    } else {
        ((i as u8) - 52 + 48u8) as char
    }
}

/// A deterministic 10-character alphanumeric nonce derived from `seed`
/// (DoodStream only needs some padding, and the addon has no random source).
pub fn pseudo_random(seed: &str) -> (res: String)
    ensures
        res@ == spec_pseudo_random(seed@),
{
    let bytes = seed.as_bytes();
    let mut h: u64 = 1469598103934665603;
    let mut i: usize = 0;
    while i < bytes.len()
        invariant
            0 <= i <= bytes@.len(),
            bytes@ == seed.spec_bytes(),
            h == fnv1a(bytes@.take(i as int)),
        decreases bytes@.len() - i,
    {
        assert(bytes@.take(i + 1).drop_last() =~= bytes@.take(i as int));
        h = (h ^ (bytes[i] as u64)).wrapping_mul(1099511628211);
        i = i + 1;
    }
    assert(bytes@.take(bytes@.len() as int) =~= bytes@);
    let ghost h0 = h;
    let mut out: Vec<char> = Vec::new();
    let mut k: u64 = 0;
    while k < 10
        invariant
            0 <= k <= 10,
            h == lcg_state(h0, k as nat),
            out@.len() == k,
            forall|j: int|
                0 <= j < k ==> out@[j] == alphanumeric_at(
                    ((lcg_state(h0, (j + 1) as nat) >> 33u64) % 62) as int,
                ),
        decreases 10 - k,
    {
        h = h.wrapping_mul(6364136223846793005).wrapping_add(1442695040888963407 + k);
        assert((h >> 33u64) % 62 < 62);
        out.push(alphanumeric((h >> 33u64) % 62));
        k = k + 1;
    }
    assert(out@ =~= spec_pseudo_random(seed@));
    string_of(out.as_slice())
}

/// The nonce is ten ASCII letters or digits.
pub proof fn law_pseudo_random_is_alphanumeric(seed: Seq<char>)
    ensures
        spec_pseudo_random(seed).len() == 10,
        forall|k: int|
            0 <= k < 10 ==> {
                let c = #[trigger] spec_pseudo_random(seed)[k];
                ('A' <= c <= 'Z') || ('a' <= c <= 'z') || ('0' <= c <= '9')
            },
{
}

/// The path DoodStream's page exposes as `'/pass_md5/<path>'`: the text
/// after the first `'/pass_md5/` up to the next quote.
pub open spec fn spec_dood_pass_path(html: Seq<char>) -> Option<Seq<char>> {
    let pat = "'/pass_md5/"@;
    if spec_contains(html, pat) {
        let i = choose|i: int|
            occurs_at(html, pat, i) && forall|j: int| 0 <= j < i ==> !occurs_at(html, pat, j);
        let after = html.subrange(i + pat.len(), html.len() as int);
        Some(spec_split(after, '\'')[0])
    } else {
        None
    }
}

/// Finds DoodStream's `'/pass_md5/<path>'` in a player page.
pub fn dood_pass_path(html: &str) -> (res: Option<String>)
    ensures
        res.deep_view() == spec_dood_pass_path(html@),
{
    let h = chars_of(html);
    let hl = h.len();
    let pat = chars_of("'/pass_md5/");
    match find(h.as_slice(), pat.as_slice()) {
        Some(i) => {
            assert(i + pat@.len() <= hl);
            let after = crate::text::slice(h.as_slice(), i + pat.len(), h.len());
            let pieces = split(after.as_slice(), '\'');
            proof {
                let pi = choose|p: int|
                    occurs_at(html@, "'/pass_md5/"@, p) && forall|j: int|
                        0 <= j < p ==> !occurs_at(html@, "'/pass_md5/"@, j);
                assert(occurs_at(html@, "'/pass_md5/"@, i as int));
                assert(pi == i) by {
                    if pi < i {
                    } else if pi > i {
                    }
                }
            }
            Some(string_of(pieces[0].as_slice()))
        },
        None => None,
    }
}

/// The token: the last `/`-separated piece of the path.
pub open spec fn spec_dood_token(path: Seq<char>) -> Seq<char> {
    spec_split(path, '/').last()
}

pub fn dood_token(path: &str) -> (res: String)
    ensures
        res@ == spec_dood_token(path@),
{
    let p = chars_of(path);
    let pieces = split(p.as_slice(), '/');
    string_of(pieces[pieces.len() - 1].as_slice())
}

/// Request for a DoodStream player page.
pub open spec fn spec_dood_page_request(url: Seq<char>) -> (Seq<char>, Seq<(Seq<char>, Seq<char>)>) {
    (url, request_headers(seq![("Referer"@, origin_referer(spec_host_of(url)))]))
}

pub fn dood_page_request(url: &str) -> (res: Request)
    ensures
        (res.url@, res.headers.deep_view()) == spec_dood_page_request(url@),
{
    let host = host_of(url);
    let referer = origin_referer_of(host.as_str());
    let extra: [(&str, &str); 1] = [("Referer", referer.as_str())];
    let ex: &[(&str, &str)] = extra.as_slice();
    assert(ex.deep_view() =~= seq![("Referer"@, referer@)]);
    fetch(url, ex)
}

/// Request for the base URL behind the `pass_md5` path.
pub open spec fn spec_dood_pass_request(url: Seq<char>, path: Seq<char>) -> (
    Seq<char>,
    Seq<(Seq<char>, Seq<char>)>,
) {
    (
        "https://"@ + spec_host_of(url) + "/pass_md5/"@ + path,
        request_headers(seq![("Referer"@, url)]),
    )
}

pub fn dood_pass_request(url: &str, path: &str) -> (res: Request)
    ensures
        (res.url@, res.headers.deep_view()) == spec_dood_pass_request(url@, path@),
{
    let host = host_of(url);
    let mut u = chars_of("https://");
    push_str(&mut u, host.as_str());
    push_str(&mut u, "/pass_md5/");
    push_str(&mut u, path);
    let target = string_of(u.as_slice());
    let extra: [(&str, &str); 1] = [("Referer", url)];
    let ex: &[(&str, &str)] = extra.as_slice();
    assert(ex.deep_view() =~= seq![("Referer"@, url@)]);
    fetch(target.as_str(), ex)
}

/// The video DoodStream serves: `base + nonce + ?token=<token>&expiry=...`,
/// when the trimmed `pass_md5` answer is a URL.
pub open spec fn spec_dood_videos(url: Seq<char>, path: Seq<char>, base_body: Seq<char>) -> Seq<
    (Seq<char>, Seq<char>, Seq<(Seq<char>, Seq<char>)>),
> {
    let base = spec_trim(base_body);
    let token = spec_dood_token(path);
    let host = spec_host_of(url);
    if base.len() >= 4 && base.subrange(0, 4) == "http"@ {
        seq![
            (
                base + spec_pseudo_random(token) + "?token="@ + token + "&expiry=9999999999999"@,
                "Doodstream ("@ + spec_host_label(host) + ")"@,
                seq![("User-Agent"@, UA@), ("Referer"@, origin_referer(host))],
            ),
        ]
    } else {
        Seq::empty()
    }
}

/// The (URL, quality, headers) view of a list of videos.
pub open spec fn videos_view(v: Seq<Video>) -> Seq<(Seq<char>, Seq<char>, Seq<(Seq<char>, Seq<char>)>)> {
    Seq::new(v.len(), |i: int| (v[i].url@, v[i].quality@, v[i].headers.deep_view()))
}

/// Every video in the list carries no tracks.
pub open spec fn no_tracks(v: Seq<Video>) -> bool {
    forall|i: int| 0 <= i < v.len() ==> (#[trigger] v[i]).subtitles@.len() == 0 && v[i].audio@.len() == 0
}

pub fn dood_videos(url: &str, path: &str, base_body: &str) -> (res: Vec<Video>)
    ensures
        videos_view(res@) == spec_dood_videos(url@, path@, base_body@),
        no_tracks(res@),
{
    let b = chars_of(base_body);
    let base = trim(b.as_slice());
    let http = chars_of("http");
    proof {
        reveal_strlit("http");
    }
    if !starts_with(base.as_slice(), http.as_slice()) {
        let res: Vec<Video> = Vec::new();
        assert(videos_view(res@) =~= spec_dood_videos(url@, path@, base_body@));
        return res;
    }
    let token = dood_token(path);
    let host = host_of(url);
    let nonce = pseudo_random(token.as_str());
    let mut u = crate::text::copy(base.as_slice());
    push_str(&mut u, nonce.as_str());
    push_str(&mut u, "?token=");
    push_str(&mut u, token.as_str());
    push_str(&mut u, "&expiry=9999999999999");
    let mut q = chars_of("Doodstream (");
    let label = host_label(host.as_str());
    push_str(&mut q, label.as_str());
    push_str(&mut q, ")");
    let referer = origin_referer_of(host.as_str());
    let pairs: [(&str, &str); 2] = [("User-Agent", UA), ("Referer", referer.as_str())];
    let ps: &[(&str, &str)] = pairs.as_slice();
    let hs = headers(ps);
    assert(ps.deep_view() =~= seq![("User-Agent"@, UA@), ("Referer"@, referer@)]);
    let v = video(string_of(u.as_slice()), string_of(q.as_slice()), hs);
    let mut res: Vec<Video> = Vec::new();
    res.push(v);
    assert(videos_view(res@) =~= spec_dood_videos(url@, path@, base_body@));
    res
}

// ---------------------------------------------------------------------------
// Base-N words of packed scripts
// ---------------------------------------------------------------------------

/// The value of a base-62 digit (`0-9a-zA-Z`).
pub open spec fn base_digit(c: char) -> Option<int> {
    if '0' <= c && c <= '9' {
        Some(c as int - '0' as int)
    } else if 'a' <= c && c <= 'z' {
        Some(c as int - 'a' as int + 10)
    } else if 'A' <= c && c <= 'Z' {
        Some(c as int - 'A' as int + 36)
    } else {
        None
    }
}

/// The number a word spells in base `radix`, computed in `usize` with
/// wrap-around on overflow; `None` when a character is not a digit below
/// `radix`.
pub open spec fn spec_decode_base(s: Seq<char>, radix: usize) -> Option<usize>
    decreases s.len(),
{
    if s.len() == 0 {
        Some(0)
    } else {
        match spec_decode_base(s.drop_last(), radix) {
            Some(n) => match base_digit(s.last()) {
                Some(d) => if d < radix {
                    Some(
                        vstd::wrapping::usize_specs::wrapping_add(
                            vstd::wrapping::usize_specs::wrapping_mul(n, radix),
                            d as usize,
                        ),
                    )
                } else {
                    None
                },
                None => None,
            },
            None => None,
        }
    }
}

fn base_digit_of(c: char) -> (res: Option<usize>)
    ensures
        match res {
            Some(d) => base_digit(c) == Some(d as int),
            None => base_digit(c) is None,
        },
{
    if '0' <= c && c <= '9' {
        Some((c as u32 - '0' as u32) as usize)
    } else if 'a' <= c && c <= 'z' {
        Some((c as u32 - 'a' as u32 + 10) as usize)
    } else if 'A' <= c && c <= 'Z' {
        Some((c as u32 - 'A' as u32 + 36) as usize)
    } else {
        None
    }
}

/// Reads a word of a packed script as a number in base `radix`.
pub fn decode_base(s: &[char], radix: usize) -> (res: Option<usize>)
    ensures
        res == spec_decode_base(s@, radix),
{
    let mut n: usize = 0;
    let mut i: usize = 0;
    while i < s.len()
        invariant
            0 <= i <= s@.len(),
            spec_decode_base(s@.take(i as int), radix) == Some(n),
        decreases s@.len() - i,
    {
        assert(s@.take(i + 1).drop_last() =~= s@.take(i as int));
        match base_digit_of(s[i]) {
            Some(d) => {
                if d >= radix {
                    proof {
                        lemma_decode_base_fails_on(s@, i as int, radix);
                    }
                    return None;
                }
                n = n.wrapping_mul(radix).wrapping_add(d);
            },
            None => {
                proof {
                    lemma_decode_base_fails_on(s@, i as int, radix);
                }
                return None;
            },
        }
        i = i + 1;
    }
    assert(s@.take(s@.len() as int) =~= s@);
    Some(n)
}

/// A word with a bad character at `i` has no value.
proof fn lemma_decode_base_fails_on(s: Seq<char>, i: int, radix: usize)
    requires
        0 <= i < s.len(),
        match base_digit(s[i]) {
            Some(d) => d >= radix,
            None => true,
        },
    ensures
        spec_decode_base(s, radix) is None,
    decreases s.len(),
{
    if i < s.len() - 1 {
        assert(s.drop_last()[i] == s[i]);
        lemma_decode_base_fails_on(s.drop_last(), i, radix);
    }
}

// ---------------------------------------------------------------------------
// VOE payload
// ---------------------------------------------------------------------------

/// ROT13 of one character.
pub open spec fn rot13_char(c: char) -> char {
    if 'A' <= c && c <= 'Z' {
        ((((c as int - 'A' as int + 13) % 26) + 'A' as int) as u32) as char
    } else if 'a' <= c && c <= 'z' {
        ((((c as int - 'a' as int + 13) % 26) + 'a' as int) as u32) as char
    } else {
        c
    }
}

pub open spec fn spec_rot13(s: Seq<char>) -> Seq<char> {
    s.map_values(|c: char| rot13_char(c))
}

pub fn rot13(s: &[char]) -> (res: Vec<char>)
    ensures
        res@ == spec_rot13(s@),
{
    let mut out: Vec<char> = Vec::new();
    let mut i: usize = 0;
    while i < s.len()
        invariant
            0 <= i <= s@.len(),
            out@ =~= spec_rot13(s@.take(i as int)),
        decreases s@.len() - i,
    {
        let c = s[i];
        let r = if 'A' <= c && c <= 'Z' {
            ((((c as u32) - 65 + 13) % 26 + 65) as u8) as char
        } else if 'a' <= c && c <= 'z' {
            ((((c as u32) - 97 + 13) % 26 + 97) as u8) as char
        } else {
            c
        };
        out.push(r);
        i = i + 1;
    }
    assert(s@.take(s@.len() as int) =~= s@);
    out
}

/// ROT13 undoes itself.
pub proof fn law_rot13_involution(s: Seq<char>)
    ensures
        spec_rot13(spec_rot13(s)) == s,
{
    assert(spec_rot13(spec_rot13(s)) =~= s);
}

/// ROT13 moves each ASCII letter thirteen places along its alphabet
/// (`A`-`M` up, `N`-`Z` down, the same for lower case) and leaves every
/// other character, digits and punctuation included, as it is.
pub proof fn law_rot13_letters_only(s: Seq<char>)
    ensures
        spec_rot13(s).len() == s.len(),
        forall|i: int|
            0 <= i < s.len() ==> {
                let c = s[i];
                let r = #[trigger] spec_rot13(s)[i];
                &&& ('A' <= c && c <= 'M') || ('a' <= c && c <= 'm') ==> r as int == c as int + 13
                &&& ('N' <= c && c <= 'Z') || ('n' <= c && c <= 'z') ==> r as int == c as int - 13
                &&& !(('A' <= c && c <= 'Z') || ('a' <= c && c <= 'z')) ==> r == c
            },
{
    assert forall|i: int| 0 <= i < s.len() implies {
        let c = s[i];
        let r = #[trigger] spec_rot13(s)[i];
        &&& ('A' <= c && c <= 'M') || ('a' <= c && c <= 'm') ==> r as int == c as int + 13
        &&& ('N' <= c && c <= 'Z') || ('n' <= c && c <= 'z') ==> r as int == c as int - 13
        &&& !(('A' <= c && c <= 'Z') || ('a' <= c && c <= 'z')) ==> r == c
    } by {
        let c = s[i];
        assert(spec_rot13(s)[i] == rot13_char(c));
        if 'A' <= c && c <= 'M' {
            assert((c as int - 'A' as int + 13) % 26 == c as int - 'A' as int + 13);
        } else if 'N' <= c && c <= 'Z' {
            assert((c as int - 'A' as int + 13) % 26 == c as int - 'A' as int - 13);
        } else if 'a' <= c && c <= 'm' {
            assert((c as int - 'a' as int + 13) % 26 == c as int - 'a' as int + 13);
        } else if 'n' <= c && c <= 'z' {
            assert((c as int - 'a' as int + 13) % 26 == c as int - 'a' as int - 13);
        }
    }
}

/// The junk markers VOE sprinkles into the payload.
pub open spec fn voe_markers() -> Seq<Seq<char>> {
    seq!["@$"@, "^^"@, "~@"@, "%?"@, "*~"@, "!!"@, "#&"@]
}

/// Replaces each marker in turn (first to last) by `_`.
pub open spec fn replace_markers(s: Seq<char>, k: nat) -> Seq<char>
    decreases k,
{
    if k == 0 {
        s
    } else {
        spec_replace(replace_markers(s, (k - 1) as nat), voe_markers()[k - 1], "_"@)
    }
}

/// The cleaned payload: ROT13, markers to `_`, then every `_` dropped.
pub open spec fn voe_cleaned(input: Seq<char>) -> Seq<char> {
    spec_remove_char(replace_markers(spec_rot13(input), 7), '_')
}

/// Every byte minus 3 (wrapping), in reverse order.
pub open spec fn shift_reverse(bytes: Seq<u8>) -> Seq<u8> {
    Seq::new(
        bytes.len(),
        |i: int| vstd::wrapping::u8_specs::wrapping_sub(bytes[bytes.len() - 1 - i], 3u8),
    )
}

/// The decoded VOE payload's bytes: base64 of the cleaned text, every byte
/// minus three, reversed, base64 again.
pub open spec fn spec_voe_bytes(input: Seq<char>) -> Option<Seq<u8>> {
    match spec_base64_decode(encode_utf8(voe_cleaned(input))) {
        Some(step1) => spec_base64_decode(shift_reverse(step1)),
        None => None,
    }
}

/// The JSON value the decoded VOE payload holds.
pub open spec fn spec_voe_decrypt(input: Seq<char>) -> Option<JsonValue> {
    match spec_voe_bytes(input) {
        Some(bytes) => spec_json_value(bytes),
        None => None,
    }
}

/// Reverses VOE's obfuscation of its JSON payload (rot13, junk markers,
/// base64, byte shift, reversal, base64) and parses it: the JSON value of
/// the payload, or `None` when a base64 step or the parse fails.
pub fn voe_decrypt(input: &str) -> (res: Option<JsonValue>)
    ensures
        res == spec_voe_decrypt(input@),
{
    let cs = chars_of(input);
    let r = rot13(cs.as_slice());
    let markers: [&str; 7] = ["@$", "^^", "~@", "%?", "*~", "!!", "#&"];
    let under = chars_of("_");
    let mut cleaned = r;
    let mut k: usize = 0;
    while k < 7
        invariant
            0 <= k <= 7,
            markers@.len() == 7,
            under@ == "_"@,
            forall|j: int| 0 <= j < 7 ==> (#[trigger] markers@[j])@ == voe_markers()[j],
            cleaned@ == replace_markers(spec_rot13(input@), k as nat),
        decreases 7 - k,
    {
        let m = chars_of(markers[k]);
        proof {
            reveal_strlit("@$");
            reveal_strlit("^^");
            reveal_strlit("~@");
            reveal_strlit("%?");
            reveal_strlit("*~");
            reveal_strlit("!!");
            reveal_strlit("#&");
        }
        assert(m@.len() > 0);
        cleaned = replace(cleaned.as_slice(), m.as_slice(), under.as_slice());
        k = k + 1;
    }
    let cleaned = remove_char(cleaned.as_slice(), '_');
    let text = string_of(cleaned.as_slice());
    match base64_decode(text.as_str().as_bytes()) {
        Some(step1) => {
            let mut shifted: Vec<u8> = Vec::new();
            let n = step1.len();
            let mut i: usize = 0;
            while i < n
                invariant
                    n == step1@.len(),
                    0 <= i <= n,
                    shifted@ =~= shift_reverse(step1@).take(i as int),
                decreases n - i,
            {
                shifted.push(step1[n - 1 - i].wrapping_sub(3));
                i = i + 1;
            }
            assert(shift_reverse(step1@).take(n as int) =~= shift_reverse(step1@));
            assert(step1.deep_view() =~= step1@);
            match base64_decode(shifted.as_slice()) {
                Some(step2) => {
                    assert(step2.deep_view() =~= step2@);
                    parse_json(step2.as_slice())
                },
                None => None,
            }
        },
        None => None,
    }
}

/// A character of the base64 alphabet (with the `=` padding).
pub open spec fn is_base64_char(c: char) -> bool {
    ('A' <= c && c <= 'Z') || ('a' <= c && c <= 'z') || ('0' <= c && c <= '9') || c == '+' || c
        == '/' || c == '='
}

/// VOE's byte scramble of its inner base64 text: reversed, every byte plus
/// three (wrapping).
pub open spec fn voe_scramble(bytes: Seq<u8>) -> Seq<u8> {
    Seq::new(
        bytes.len(),
        |i: int| vstd::wrapping::u8_specs::wrapping_add(bytes[bytes.len() - 1 - i], 3u8),
    )
}

proof fn lemma_replace_absent(s: Seq<char>, pat: Seq<char>, rep: Seq<char>)
    requires
        pat.len() > 0,
        forall|i: int| 0 <= i < s.len() ==> s[i] != pat[0],
    ensures
        spec_replace(s, pat, rep) == s,
    decreases s.len(),
{
    if s.len() > 0 {
        assert(!crate::text::spec_starts_with(s, pat)) by {
            if crate::text::spec_starts_with(s, pat) {
                assert(s.subrange(0, pat.len() as int)[0] == s[0]);
            }
        }
        lemma_replace_absent(s.drop_first(), pat, rep);
        assert(seq![s[0]] + s.drop_first() =~= s);
    }
}

proof fn lemma_remove_absent(s: Seq<char>, c: char)
    requires
        forall|i: int| 0 <= i < s.len() ==> s[i] != c,
    ensures
        spec_remove_char(s, c) == s,
    decreases s.len(),
{
    reveal(Seq::filter);
    if s.len() > 0 {
        lemma_remove_absent(s.drop_last(), c);
        assert(s[s.len() - 1] != c);
        assert(s.drop_last().push(s.last()) =~= s);
    }
}

proof fn lemma_markers_absent(s: Seq<char>, k: nat)
    requires
        k <= 7,
        forall|i: int| 0 <= i < s.len() ==> is_base64_char(#[trigger] s[i]),
    ensures
        replace_markers(s, k) == s,
    decreases k,
{
    if k > 0 {
        lemma_markers_absent(s, (k - 1) as nat);
        reveal_strlit("@$");
        reveal_strlit("^^");
        reveal_strlit("~@");
        reveal_strlit("%?");
        reveal_strlit("*~");
        reveal_strlit("!!");
        reveal_strlit("#&");
        let m = voe_markers()[k - 1];
        assert(m.len() == 2);
        assert(!is_base64_char(m[0]));
        lemma_replace_absent(s, m, "_"@);
    }
}

/// VOE's own layers come off exactly: when the outer base64 text `t` (what
/// ROT13 hides) decodes to the scrambled inner base64 text, the decoder's
/// bytes are those the inner text decodes to, and its value is their JSON
/// value. ROT13, the junk markers and the byte scramble are undone here;
/// base64 and JSON themselves are the outside crates'.
pub proof fn law_voe_undoes_obfuscation(t: Seq<char>, inner: Seq<u8>)
    requires
        forall|i: int| 0 <= i < t.len() ==> is_base64_char(#[trigger] t[i]),
        spec_base64_decode(encode_utf8(t)) == Some(voe_scramble(inner)),
    ensures
        spec_voe_bytes(spec_rot13(t)) == spec_base64_decode(inner),
        spec_voe_decrypt(spec_rot13(t)) == match spec_base64_decode(inner) {
            Some(bytes) => spec_json_value(bytes),
            None => None,
        },
{
    law_rot13_involution(t);
    lemma_markers_absent(t, 7);
    lemma_remove_absent(t, '_');
    assert(voe_cleaned(spec_rot13(t)) == t);
    assert(shift_reverse(voe_scramble(inner)) =~= inner);
}

/// The selector of VOE's encrypted JSON `<script>`.
pub const VOE_SCRIPT: &'static str = "script[type=\"application/json\"]";

/// The raw text of the first element `selector` matches.
pub open spec fn first_text_raw(html: Seq<char>, selector: Seq<char>) -> Option<Seq<char>> {
    match spec_html_select(html, selector, "type"@) {
        Some(els) => if els.len() > 0 {
            Some(els[0].1)
        } else {
            None
        },
        None => None,
    }
}

/// The payload between `["` and `"]` of the JSON script's trimmed text.
pub open spec fn voe_payload(raw: Seq<char>) -> Seq<char> {
    spec_trim_end_str(spec_trim_start_str(spec_trim(raw), "[\""@), "\"]"@)
}

/// The decoded VOE payload of a page, if the page carries one.
pub open spec fn spec_voe_from_html(html: Seq<char>) -> Option<JsonValue> {
    match first_text_raw(html, VOE_SCRIPT@) {
        Some(raw) => spec_voe_decrypt(voe_payload(raw)),
        None => None,
    }
}

pub fn voe_from_html(html: &str) -> (res: Option<JsonValue>)
    ensures
        res == spec_voe_from_html(html@),
{
    let raw = match html_select(html, VOE_SCRIPT, "type") {
        Some(els) => {
            if els.len() == 0 {
                return None;
            }
            chars_of(els[0].1.as_str())
        },
        None => return None,
    };
    let t = trim(raw.as_slice());
    let open = chars_of("[\"");
    let close = chars_of("\"]");
    let a = trim_start_str(t.as_slice(), open.as_slice());
    let b = trim_end_str(a.as_slice(), close.as_slice());
    let payload = string_of(b.as_slice());
    voe_decrypt(payload.as_str())
}

// ---------------------------------------------------------------------------
// Packed scripts
// ---------------------------------------------------------------------------

/// A word of a packed script (`\b\w+\b`).
pub const WORD: &'static str = "\\b\\w+\\b";

/// The argument tail of Dean Edwards' packer:
/// `}('payload',radix,count,'words'.split('|')`.
pub const PACKED: &'static str = "\\}\\s*\\(\\s*'(.*?)'\\s*,\\s*(\\d+)\\s*,\\s*(\\d+)\\s*,\\s*'(.*?)'\\.split\\('\\|'\\)";

/// A packed word's replacement: the symbol its base-`radix` value indexes,
/// unless that symbol is missing or empty.
pub open spec fn spec_replace_token(tok: Seq<char>, radix: usize, words: Seq<Seq<char>>) -> Seq<
    char,
> {
    match spec_decode_base(tok, radix) {
        Some(i) => if i < words.len() && words[i as int].len() > 0 {
            words[i as int]
        } else {
            tok
        },
        None => tok,
    }
}

/// The first `k` gaps with the replacements between them:
/// `gaps[0] + reps[0] + gaps[1] + ... + gaps[k - 1]`.
pub open spec fn weave(gaps: Seq<Seq<char>>, reps: Seq<Seq<char>>, k: nat) -> Seq<char>
    decreases k,
{
    if k == 0 {
        Seq::empty()
    } else {
        let sep = if k >= 2 && k - 2 < reps.len() {
            reps[k - 2]
        } else {
            Seq::<char>::empty()
        };
        weave(gaps, reps, (k - 1) as nat) + sep + gaps[k - 1]
    }
}

/// Rebuilds a packed script: every word of the payload is replaced as
/// `spec_replace_token` says, the text between words is kept.
pub open spec fn spec_decode_packed(payload_raw: Seq<char>, radix_str: Seq<char>, words_str: Seq<char>) -> Option<Seq<char>> {
    let payload = spec_replace(payload_raw, "\\'"@, "'"@);
    match spec_parse_unsigned(radix_str, usize::MAX as int) {
        Some(r) => {
            let words = spec_split(words_str, '|');
            let toks = spec_regex_find_iter(WORD@, payload);
            let gaps = spec_regex_split(WORD@, payload);
            Some(weave(gaps, toks.map_values(|t: Seq<char>| spec_replace_token(t, r as usize, words)), gaps.len()))
        },
        None => None,
    }
}

fn replace_token(tok: &str, radix: usize, words: &Vec<Vec<char>>) -> (res: Vec<char>)
    ensures
        res@ == spec_replace_token(tok@, radix, views(words@)),
{
    let t = chars_of(tok);
    match decode_base(t.as_slice(), radix) {
        Some(i) => {
            if i < words.len() && words[i].len() > 0 {
                crate::text::copy(words[i].as_slice())
            } else {
                t
            }
        },
        None => t,
    }
}

/// A packed word's replacement as text.
pub fn token_replacement(tok: &str, radix: usize, words: &Vec<Vec<char>>) -> (res: String)
    ensures
        res@ == spec_replace_token(tok@, radix, views(words@)),
{
    let r = replace_token(tok, radix, words);
    string_of(r.as_slice())
}

/// What the packer decoder writes: the text between the payload's words
/// kept as it is, and each word (as the word pattern finds them, after
/// `\'` is unescaped) replaced by the table entry its base-`radix` value
/// indexes, or kept as it is when that value is not a number in the radix,
/// is past the table's end, or indexes an empty entry; no result when the
/// radix is not a number.
pub proof fn law_packed_words(payload_raw: Seq<char>, radix_str: Seq<char>, words_str: Seq<char>)
    ensures
        spec_parse_unsigned(radix_str, usize::MAX as int) is None ==> spec_decode_packed(
            payload_raw,
            radix_str,
            words_str,
        ) is None,
        spec_parse_unsigned(radix_str, usize::MAX as int) is Some ==> ({
            let payload = spec_replace(payload_raw, "\\'"@, "'"@);
            let radix = spec_parse_unsigned(radix_str, usize::MAX as int)->0 as usize;
            let table = spec_split(words_str, '|');
            let words = spec_regex_find_iter(WORD@, payload);
            let gaps = spec_regex_split(WORD@, payload);
            spec_decode_packed(payload_raw, radix_str, words_str) == Some(
                weave(
                    gaps,
                    Seq::new(
                        words.len(),
                        |k: int|
                            match spec_decode_base(words[k], radix) {
                                Some(i) => if i < table.len() && table[i as int].len() != 0 {
                                    table[i as int]
                                } else {
                                    words[k]
                                },
                                None => words[k],
                            },
                    ),
                    gaps.len(),
                ),
            )
        }),
{
    let payload = spec_replace(payload_raw, "\\'"@, "'"@);
    if spec_parse_unsigned(radix_str, usize::MAX as int) is Some {
        let radix = spec_parse_unsigned(radix_str, usize::MAX as int)->0 as usize;
        let table = spec_split(words_str, '|');
        let words = spec_regex_find_iter(WORD@, payload);
        let a = words.map_values(|t: Seq<char>| spec_replace_token(t, radix, table));
        let b = Seq::new(
            words.len(),
            |k: int|
                match spec_decode_base(words[k], radix) {
                    Some(i) => if i < table.len() && table[i as int].len() != 0 {
                        table[i as int]
                    } else {
                        words[k]
                    },
                    None => words[k],
                },
        );
        assert(a =~= b);
    }
}

/// Dean Edwards' p.a.c.k.e.d decoder: rebuilds the source from the
/// captured payload, radix and `|`-separated symbol table.
pub fn decode_packed(payload_raw: &str, radix_str: &str, words_str: &str) -> (res: Option<String>)
    ensures
        res.deep_view() == spec_decode_packed(payload_raw@, radix_str@, words_str@),
{
    let raw = chars_of(payload_raw);
    let esc = chars_of("\\'");
    let quote = chars_of("'");
    proof {
        reveal_strlit("\\'");
    }
    let payload_chars = replace(raw.as_slice(), esc.as_slice(), quote.as_slice());
    let rs = chars_of(radix_str);
    let radix = match parse_unsigned(rs.as_slice(), usize::MAX as u64) {
        Some(r) => r as usize,
        None => return None,
    };
    let wc = chars_of(words_str);
    let words = split(wc.as_slice(), '|');
    let payload = string_of(payload_chars.as_slice());
    Some(regex_replace_tokens(WORD, payload.as_str(), radix, &words))
}

// ---------------------------------------------------------------------------
// The universal extractor's pieces
// ---------------------------------------------------------------------------

/// A `window.location.href = '...'` redirect in a page.
pub const REDIRECT: &'static str = "window\\.location\\.href\\s*=\\s*['\"]([^'\"]+)['\"]";

/// A direct `.m3u8` / `.mp4` URL in text.
pub const MEDIA_URL: &'static str = "https?://[^\\s\"'\\\\<>]+\\.(?:m3u8|mp4)[^\\s\"'\\\\<>]*";

/// Group 1 of the first match of `pattern` in `text`.
pub open spec fn spec_first_group(pattern: Seq<char>, text: Seq<char>) -> Option<Seq<char>> {
    match spec_regex_captures(pattern, text) {
        Some(groups) => if groups.len() > 1 {
            groups[1]
        } else {
            None
        },
        None => None,
    }
}

/// Group 1 of the first match of `pattern` in `text`, if the pattern
/// matches (group 1 takes part in every match of the patterns used here).
pub fn first_group(pattern: &str, text: &str) -> (res: Option<String>)
    ensures
        res.deep_view() == spec_first_group(pattern@, text@),
{
    match regex_captures(pattern, text) {
        Some(groups) => {
            if groups.len() > 1 {
                match &groups[1] {
                    Some(g) => Some(g.clone()),
                    None => None,
                }
            } else {
                None
            }
        },
        None => None,
    }
}

/// Where a page redirects to, if it does.
pub open spec fn spec_redirect_target(html: Seq<char>) -> Option<Seq<char>> {
    spec_first_group(REDIRECT@, html)
}

pub fn redirect_target(html: &str) -> (res: Option<String>)
    ensures
        res.deep_view() == spec_redirect_target(html@),
{
    first_group(REDIRECT, html)
}

/// Every distinct media URL in `hay`, in order of first appearance.
pub open spec fn spec_media_urls(hay: Seq<char>) -> Seq<Seq<char>> {
    spec_dedupe(spec_regex_find_iter(MEDIA_URL@, hay))
}

pub fn media_urls(hay: &str) -> (res: Vec<String>)
    ensures
        res.deep_view() == spec_media_urls(hay@),
{
    let found = regex_find_iter(MEDIA_URL, hay);
    dedupe(&found)
}

/// The distinct stream URLs VOE's decoded payload names (`source`, then
/// `direct_access_url`).
pub open spec fn spec_voe_urls(meta: JsonValue) -> Seq<Seq<char>> {
    let a = spec_str_member(meta, "source"@);
    let b = spec_str_member(meta, "direct_access_url"@);
    let both = if a is Some {
        seq![a->0]
    } else {
        Seq::empty()
    } + if b is Some {
        seq![b->0]
    } else {
        Seq::empty()
    };
    spec_dedupe(both)
}

pub fn voe_urls(meta: &JsonValue) -> (res: Vec<String>)
    ensures
        res.deep_view() == spec_voe_urls(*meta),
{
    let mut both: Vec<String> = Vec::new();
    if let Some(a) = meta.str_member("source") {
        both.push(a.clone());
    }
    if let Some(b) = meta.str_member("direct_access_url") {
        both.push(b.clone());
    }
    proof {
        let a = spec_str_member(*meta, "source"@);
        let b = spec_str_member(*meta, "direct_access_url"@);
        assert(both.deep_view() =~= (if a is Some {
            seq![a->0]
        } else {
            Seq::empty()
        } + if b is Some {
            seq![b->0]
        } else {
            Seq::empty()
        }));
    }
    dedupe(&both)
}

/// One video per URL, all with the same quality label and headers.
pub open spec fn spec_videos_of(urls: Seq<Seq<char>>, label: Seq<char>, hs: Seq<(Seq<char>, Seq<char>)>) -> Seq<(Seq<char>, Seq<char>, Seq<(Seq<char>, Seq<char>)>)> {
    Seq::new(urls.len(), |i: int| (urls[i], label, hs))
}

pub fn videos_of(urls: &Vec<String>, label: &str, hs: &Vec<(String, String)>) -> (res: Vec<Video>)
    ensures
        videos_view(res@) == spec_videos_of(urls.deep_view(), label@, hs.deep_view()),
        no_tracks(res@),
{
    let mut out: Vec<Video> = Vec::new();
    let mut i: usize = 0;
    while i < urls.len()
        invariant
            0 <= i <= urls@.len(),
            videos_view(out@) =~= spec_videos_of(urls.deep_view(), label@, hs.deep_view()).take(
                i as int,
            ),
            no_tracks(out@),
        decreases urls@.len() - i,
    {
        let mut h2: Vec<(String, String)> = Vec::new();
        let mut j: usize = 0;
        while j < hs.len()
            invariant
                0 <= j <= hs@.len(),
                h2.deep_view() =~= hs.deep_view().take(j as int),
            decreases hs@.len() - j,
        {
            let ghost before = h2.deep_view();
            let k = hs[j].0.clone();
            let v = hs[j].1.clone();
            h2.push((k, v));
            assert(h2.deep_view() =~= before.push(hs.deep_view()[j as int]));
            j = j + 1;
        }
        assert(hs.deep_view().take(hs@.len() as int) =~= hs.deep_view());
        let ghost before = videos_view(out@);
        out.push(video(urls[i].clone(), label.to_owned(), h2));
        assert(videos_view(out@) =~= before.push((urls@[i as int]@, label@, hs.deep_view())));
        i = i + 1;
    }
    out
}

// ---------------------------------------------------------------------------
// Hoster lists from encoded player lists
// ---------------------------------------------------------------------------

/// A language tag `episode_list` writes before a player URL.
pub open spec fn is_lang_tag(l: Seq<char>) -> bool {
    l == "vf"@ || l == "vostfr"@
}

/// One item of an encoded player list: `lang#url` with a known language
/// tag, or a bare URL.
pub open spec fn spec_player_entry(item: Seq<char>) -> (Option<Seq<char>>, Seq<char>) {
    match spec_split_once(item, '#') {
        Some((lang, u)) => if is_lang_tag(lang) {
            (Some(lang), u)
        } else {
            (None, item)
        },
        None => (None, item),
    }
}

/// The non-empty comma-separated items of a list, parsed.
pub open spec fn spec_player_entries_of(items: Seq<Seq<char>>) -> Seq<(Option<Seq<char>>, Seq<char>)>
    decreases items.len(),
{
    if items.len() == 0 {
        Seq::empty()
    } else {
        let init = spec_player_entries_of(items.drop_last());
        if items.last().len() > 0 {
            init.push(spec_player_entry(items.last()))
        } else {
            init
        }
    }
}

pub open spec fn spec_player_entries(list: Seq<char>) -> Seq<(Option<Seq<char>>, Seq<char>)> {
    spec_player_entries_of(spec_split(list, ','))
}

/// The entries whose language tag satisfies `keep`.
pub open spec fn entries_where(
    entries: Seq<(Option<Seq<char>>, Seq<char>)>,
    keep: spec_fn(Option<Seq<char>>) -> bool,
) -> Seq<(Option<Seq<char>>, Seq<char>)>
    decreases entries.len(),
{
    if entries.len() == 0 {
        Seq::empty()
    } else {
        let init = entries_where(entries.drop_last(), keep);
        if keep(entries.last().0) {
            init.push(entries.last())
        } else {
            init
        }
    }
}

/// The entries to offer: those in the preferred language, else every
/// tagged one; a list without tags is offered whole.
pub open spec fn spec_select_entries(entries: Seq<(Option<Seq<char>>, Seq<char>)>, pref: Seq<char>) -> Seq<
    (Option<Seq<char>>, Seq<char>),
> {
    let tagged = entries_where(entries, |l: Option<Seq<char>>| l is Some);
    if tagged.len() > 0 {
        let preferred = entries_where(entries, |l: Option<Seq<char>>| l == Some(pref));
        if preferred.len() == 0 {
            tagged
        } else {
            preferred
        }
    } else {
        entries
    }
}

/// `VF` / `VOSTFR`: a language tag upper-cased.
pub open spec fn lang_upper(l: Seq<char>) -> Seq<char> {
    if l == "vf"@ {
        "VF"@
    } else {
        "VOSTFR"@
    }
}

/// A hoster's display name: the upper-cased language, if tagged, and the
/// host's label.
pub open spec fn spec_hoster_name(e: (Option<Seq<char>>, Seq<char>)) -> Seq<char> {
    let label = spec_host_label(spec_host_of(e.1));
    match e.0 {
        Some(l) => lang_upper(l) + " \u{b7} "@ + label,
        None => label,
    }
}

/// The hosters offered for the selected entries: those whose host is not
/// excluded, each URL once (first occurrence).
pub open spec fn spec_keep_hosters(sel: Seq<(Option<Seq<char>>, Seq<char>)>, excluded: Seq<Seq<char>>) -> Seq<
    (Seq<char>, Seq<char>),
>
    decreases sel.len(),
{
    if sel.len() == 0 {
        Seq::empty()
    } else {
        let init = spec_keep_hosters(sel.drop_last(), excluded);
        let e = sel.last();
        if contains_any(spec_host_of(e.1), excluded) || exists|j: int|
            0 <= j < sel.len() - 1 && (#[trigger] sel[j]).1 == e.1 {
            init
        } else {
            init.push((e.1, spec_hoster_name(e)))
        }
    }
}

/// The (URL, name) view of a list of hosters.
pub open spec fn hosters_view(v: Seq<Hoster>) -> Seq<(Seq<char>, Seq<char>)> {
    Seq::new(v.len(), |i: int| (v[i].url@, v[i].name@))
}

/// The hosters of an encoded player list, as `hoster_list` offers them.
pub open spec fn spec_hosters_of(list: Seq<char>, pref: Seq<char>, excluded: Seq<Seq<char>>) -> Seq<(Seq<char>, Seq<char>)> {
    spec_keep_hosters(spec_select_entries(spec_player_entries(list), pref), excluded)
}

fn player_entry(item: &[char]) -> (res: (Option<String>, String))
    ensures
        (res.0.deep_view(), res.1@) == spec_player_entry(item@),
{
    match split_once(item, '#') {
        Some((lang, u)) => {
            let vf = chars_of("vf");
            let vostfr = chars_of("vostfr");
            if chars_eq(lang.as_slice(), vf.as_slice()) || chars_eq(
                lang.as_slice(),
                vostfr.as_slice(),
            ) {
                (Some(string_of(lang.as_slice())), string_of(u.as_slice()))
            } else {
                (None, string_of(item))
            }
        },
        None => (None, string_of(item)),
    }
}

fn player_entries(list: &str) -> (res: Vec<(Option<String>, String)>)
    ensures
        res.deep_view() == spec_player_entries(list@),
{
    let cs = chars_of(list);
    let items = split(cs.as_slice(), ',');
    let mut out: Vec<(Option<String>, String)> = Vec::new();
    let mut i: usize = 0;
    while i < items.len()
        invariant
            0 <= i <= items@.len(),
            out.deep_view() == spec_player_entries_of(views(items@).take(i as int)),
        decreases items@.len() - i,
    {
        let ghost t = views(items@).take(i + 1);
        assert(t.drop_last() =~= views(items@).take(i as int));
        assert(t.last() == items@[i as int]@);
        if items[i].len() > 0 {
            let ghost before = out.deep_view();
            let e = player_entry(items[i].as_slice());
            out.push(e);
            assert(out.deep_view() =~= before.push(spec_player_entry(items@[i as int]@)));
        }
        i = i + 1;
    }
    assert(views(items@).take(items@.len() as int) =~= views(items@));
    out
}

fn copy_entry(e: &(Option<String>, String)) -> (res: (Option<String>, String))
    ensures
        res.deep_view() == e.deep_view(),
{
    let l = match &e.0 {
        Some(l) => Some(l.clone()),
        None => None,
    };
    (l, e.1.clone())
}

/// Keeps the entries whose tag is any tag (`pref` is `None`) or `pref`.
fn entries_tagged(entries: &Vec<(Option<String>, String)>, pref: Option<&str>) -> (res: Vec<
    (Option<String>, String),
>)
    ensures
        res.deep_view() == match pref {
            Some(p) => entries_where(entries.deep_view(), |l: Option<Seq<char>>| l == Some(p@)),
            None => entries_where(entries.deep_view(), |l: Option<Seq<char>>| l is Some),
        },
{
    let ghost keep = match pref {
        Some(p) => |l: Option<Seq<char>>| l == Some(p@),
        None => |l: Option<Seq<char>>| l is Some,
    };
    let mut out: Vec<(Option<String>, String)> = Vec::new();
    let mut i: usize = 0;
    while i < entries.len()
        invariant
            0 <= i <= entries@.len(),
            keep == (match pref {
                Some(p) => |l: Option<Seq<char>>| l == Some(p@),
                None => |l: Option<Seq<char>>| l is Some,
            }),
            out.deep_view() == entries_where(entries.deep_view().take(i as int), keep),
        decreases entries@.len() - i,
    {
        let ghost t = entries.deep_view().take(i + 1);
        assert(t.drop_last() =~= entries.deep_view().take(i as int));
        assert(t.last() == entries@[i as int].deep_view());
        let take = match (&entries[i].0, pref) {
            (Some(l), Some(p)) => str_eq(l.as_str(), p),
            (Some(_), None) => true,
            (None, _) => false,
        };
        assert(take == keep(entries@[i as int].deep_view().0));
        if take {
            let ghost before = out.deep_view();
            out.push(copy_entry(&entries[i]));
            assert(out.deep_view() =~= before.push(entries@[i as int].deep_view()));
        }
        i = i + 1;
    }
    assert(entries.deep_view().take(entries@.len() as int) =~= entries.deep_view());
    out
}

fn hoster_name(e: &(Option<String>, String)) -> (res: String)
    ensures
        res@ == spec_hoster_name(e.deep_view()),
{
    let host = host_of(e.1.as_str());
    let label = host_label(host.as_str());
    match &e.0 {
        Some(l) => {
            let mut out = if str_eq(l.as_str(), "vf") {
                chars_of("VF")
            } else {
                chars_of("VOSTFR")
            };
            push_str(&mut out, " \u{b7} ");
            push_str(&mut out, label.as_str());
            string_of(out.as_slice())
        },
        None => label,
    }
}

proof fn lemma_keep_hosters(sel: Seq<(Option<Seq<char>>, Seq<char>)>, excluded: Seq<Seq<char>>)
    ensures
        forall|k: int|
            0 <= k < spec_keep_hosters(sel, excluded).len() ==> !contains_any(
                spec_host_of(#[trigger] spec_keep_hosters(sel, excluded)[k].0),
                excluded,
            ),
        forall|k: int|
            0 <= k < spec_keep_hosters(sel, excluded).len() ==> exists|j: int|
                0 <= j < sel.len() && (#[trigger] sel[j]).1 == (#[trigger] spec_keep_hosters(
                    sel,
                    excluded,
                )[k]).0,
        forall|a: int, b: int|
            0 <= a < b < spec_keep_hosters(sel, excluded).len() ==> (#[trigger] spec_keep_hosters(
                sel,
                excluded,
            )[a]).0 != (#[trigger] spec_keep_hosters(sel, excluded)[b]).0,
    decreases sel.len(),
{
    if sel.len() > 0 {
        let init_sel = sel.drop_last();
        lemma_keep_hosters(init_sel, excluded);
        let init = spec_keep_hosters(init_sel, excluded);
        let out = spec_keep_hosters(sel, excluded);
        let e = sel.last();
        assert forall|k: int| 0 <= k < init.len() implies exists|j: int|
            0 <= j < sel.len() && (#[trigger] sel[j]).1 == (#[trigger] init[k]).0 by {
            let j = choose|j: int| 0 <= j < init_sel.len() && (#[trigger] init_sel[j]).1 == init[k].0;
            assert(sel[j] == init_sel[j]);
        }
        if out.len() > init.len() {
            assert(out == init.push((e.1, spec_hoster_name(e))));
            assert(!exists|j: int| 0 <= j < sel.len() - 1 && (#[trigger] sel[j]).1 == e.1);
            assert forall|k: int| 0 <= k < init.len() implies (#[trigger] init[k]).0 != e.1 by {
                let j = choose|j: int| 0 <= j < init_sel.len() && (#[trigger] init_sel[j]).1 == init[k].0;
                assert(sel[j] == init_sel[j]);
            }
            assert(sel[sel.len() - 1] == e);
        }
    }
}

/// The hosters built from a player list never sit on an excluded host and
/// never offer the same URL twice.
pub proof fn law_hosters_allowed_and_distinct(list: Seq<char>, pref: Seq<char>, excluded: Seq<Seq<char>>)
    ensures
        forall|k: int|
            0 <= k < spec_hosters_of(list, pref, excluded).len() ==> !contains_any(
                spec_host_of(#[trigger] spec_hosters_of(list, pref, excluded)[k].0),
                excluded,
            ),
        forall|a: int, b: int|
            0 <= a < b < spec_hosters_of(list, pref, excluded).len() ==> (
            #[trigger] spec_hosters_of(list, pref, excluded)[a]).0 != (
            #[trigger] spec_hosters_of(list, pref, excluded)[b]).0,
{
    lemma_keep_hosters(spec_select_entries(spec_player_entries(list), pref), excluded);
}

/// The items `lang#url` that `episode_list` writes for tagged players.
pub open spec fn tagged_items(langs: Seq<Seq<char>>, urls: Seq<Seq<char>>) -> Seq<Seq<char>> {
    Seq::new(langs.len(), |i: int| langs[i] + "#"@ + urls[i])
}

proof fn lemma_tag_chars(lang: Seq<char>)
    requires
        is_lang_tag(lang),
    ensures
        !lang.contains('#'),
        !lang.contains(','),
{
    reveal_strlit("vf");
    reveal_strlit("vostfr");
    assert(!lang.contains('#') && !lang.contains(',')) by {
        if lang == "vf"@ {
            assert(forall|k: int| 0 <= k < lang.len() ==> lang[k] != '#' && lang[k] != ',');
        } else {
            assert(forall|k: int| 0 <= k < lang.len() ==> lang[k] != '#' && lang[k] != ',');
        }
    }
}

proof fn lemma_tagged_entry(lang: Seq<char>, u: Seq<char>)
    requires
        is_lang_tag(lang),
    ensures
        spec_player_entry(lang + "#"@ + u) == (Some(lang), u),
        (lang + "#"@ + u).len() > 0,
        !u.contains(',') ==> !(lang + "#"@ + u).contains(','),
{
    reveal_strlit("#");
    lemma_tag_chars(lang);
    let item = lang + "#"@ + u;
    let n = lang.len() as int;
    assert(item[n] == '#');
    assert(item.contains('#'));
    item.index_of_first_ensures('#');
    let i = item.index_of_first('#')->0;
    assert(i == n) by {
        if i < n {
            assert(item[i] == lang[i]);
            assert(lang.contains(lang[i]));
        } else if i > n {
        }
    }
    assert(item.subrange(0, n) =~= lang);
    assert(item.subrange(n + 1, item.len() as int) =~= u);
    if !u.contains(',') {
        assert forall|k: int| 0 <= k < item.len() implies item[k] != ',' by {
            if k < n {
                assert(item[k] == lang[k]);
                if lang[k] == ',' {
                    assert(lang.contains(lang[k]));
                }
            } else if k > n {
                assert(item[k] == u[k - n - 1]);
                if u[k - n - 1] == ',' {
                    assert(u.contains(u[k - n - 1]));
                }
            }
        }
    }
}

proof fn lemma_tagged_entries(langs: Seq<Seq<char>>, urls: Seq<Seq<char>>)
    requires
        langs.len() == urls.len(),
        forall|i: int| 0 <= i < langs.len() ==> is_lang_tag(#[trigger] langs[i]),
    ensures
        spec_player_entries_of(tagged_items(langs, urls)) == Seq::new(
            langs.len(),
            |i: int| (Some(langs[i]), urls[i]),
        ),
    decreases langs.len(),
{
    let items = tagged_items(langs, urls);
    if langs.len() > 0 {
        let n = langs.len() - 1;
        lemma_tagged_entries(langs.drop_last(), urls.drop_last());
        assert(items.drop_last() =~= tagged_items(langs.drop_last(), urls.drop_last()));
        lemma_tagged_entry(langs[n], urls[n]);
        assert(items.last() == langs[n] + "#"@ + urls[n]);
        assert(spec_player_entries_of(items) =~= Seq::new(
            langs.len(),
            |i: int| (Some(langs[i]), urls[i]),
        ));
    } else {
        assert(spec_player_entries_of(items) =~= Seq::new(
            langs.len(),
            |i: int| (Some(langs[i]), urls[i]),
        ));
    }
}

/// What `episode_list` writes into an episode's URL, `hoster_list` reads
/// back: a comma-joined list of `lang#url` items parses into the same
/// languages and URLs, in order, as long as no URL holds a comma.
pub proof fn law_player_list_round_trip(langs: Seq<Seq<char>>, urls: Seq<Seq<char>>)
    requires
        langs.len() == urls.len(),
        forall|i: int| 0 <= i < langs.len() ==> is_lang_tag(#[trigger] langs[i]),
        forall|i: int| 0 <= i < urls.len() ==> !(#[trigger] urls[i]).contains(','),
    ensures
        spec_player_entries(spec_join(tagged_items(langs, urls), ","@)) == Seq::new(
            langs.len(),
            |i: int| (Some(langs[i]), urls[i]),
        ),
{
    reveal_strlit(",");
    assert(","@ =~= seq![',']);
    let items = tagged_items(langs, urls);
    lemma_tagged_entries(langs, urls);
    if langs.len() == 0 {
        assert(items.len() == 0);
        let joined = spec_join(items, ","@);
        assert(joined =~= Seq::<char>::empty());
        assert(spec_split(joined, ',') =~= seq![Seq::<char>::empty()]);
        let pieces = spec_split(joined, ',');
        assert(pieces.drop_last() =~= Seq::<Seq<char>>::empty());
        assert(spec_player_entries_of(pieces.drop_last()) =~= Seq::<
            (Option<Seq<char>>, Seq<char>),
        >::empty());
        assert(pieces.last().len() == 0);
        assert(spec_player_entries(joined) =~= Seq::<(Option<Seq<char>>, Seq<char>)>::empty());
    } else {
        assert forall|i: int| 0 <= i < items.len() implies !(#[trigger] items[i]).contains(',') by {
            lemma_tagged_entry(langs[i], urls[i]);
        }
        crate::text::lemma_split_join(items, ',');
    }
}

/// `n` copies of a language tag.
pub open spec fn repeat_lang(lang: Seq<char>, n: nat) -> Seq<Seq<char>> {
    Seq::new(n, |_i: int| lang)
}

proof fn lemma_entries_where_concat(
    x: Seq<(Option<Seq<char>>, Seq<char>)>,
    y: Seq<(Option<Seq<char>>, Seq<char>)>,
    keep: spec_fn(Option<Seq<char>>) -> bool,
)
    ensures
        entries_where(x + y, keep) == entries_where(x, keep) + entries_where(y, keep),
    decreases y.len(),
{
    if y.len() == 0 {
        assert(x + y =~= x);
        assert(entries_where(x, keep) + entries_where(y, keep) =~= entries_where(x, keep));
    } else {
        lemma_entries_where_concat(x, y.drop_last(), keep);
        assert((x + y).drop_last() =~= x + y.drop_last());
        assert((x + y).last() == y.last());
        if keep(y.last().0) {
            assert(entries_where(x + y, keep) =~= entries_where(x, keep) + entries_where(y, keep));
        } else {
            assert(entries_where(x + y, keep) =~= entries_where(x, keep) + entries_where(y, keep));
        }
    }
}

proof fn lemma_entries_where_all(
    x: Seq<(Option<Seq<char>>, Seq<char>)>,
    keep: spec_fn(Option<Seq<char>>) -> bool,
)
    requires
        forall|i: int| 0 <= i < x.len() ==> keep(#[trigger] x[i].0),
    ensures
        entries_where(x, keep) == x,
    decreases x.len(),
{
    if x.len() > 0 {
        assert forall|i: int| 0 <= i < x.drop_last().len() implies keep(
            #[trigger] x.drop_last()[i].0,
        ) by {
            assert(x.drop_last()[i] == x[i]);
        }
        lemma_entries_where_all(x.drop_last(), keep);
        assert(keep(x[x.len() - 1].0));
        assert(x.drop_last().push(x.last()) =~= x);
    }
}

proof fn lemma_entries_where_none(
    x: Seq<(Option<Seq<char>>, Seq<char>)>,
    keep: spec_fn(Option<Seq<char>>) -> bool,
)
    requires
        forall|i: int| 0 <= i < x.len() ==> !keep(#[trigger] x[i].0),
    ensures
        entries_where(x, keep) == Seq::<(Option<Seq<char>>, Seq<char>)>::empty(),
    decreases x.len(),
{
    if x.len() > 0 {
        assert forall|i: int| 0 <= i < x.drop_last().len() implies !keep(
            #[trigger] x.drop_last()[i].0,
        ) by {
            assert(x.drop_last()[i] == x[i]);
        }
        lemma_entries_where_none(x.drop_last(), keep);
        assert(!keep(x[x.len() - 1].0));
    }
}

/// The pieces of each item split at `,`, one item after the other: what
/// splitting the items joined by `,` gives.
pub open spec fn pieces_of(items: Seq<Seq<char>>) -> Seq<Seq<char>>
    decreases items.len(),
{
    if items.len() == 0 {
        Seq::empty()
    } else {
        pieces_of(items.drop_last()) + spec_split(items.last(), ',')
    }
}

/// A piece that reads as a `vf`-tagged item: it starts with `vf#`.
spec fn starts_vf(p: Seq<char>) -> bool {
    p.len() >= 3 && p[0] == 'v' && p[1] == 'f' && p[2] == '#'
}

proof fn lemma_split_first(s: Seq<char>, sep: char, i: int)
    requires
        0 <= i < s.len(),
        s[i] == sep,
        forall|t: int| 0 <= t < i ==> s[t] != sep,
    ensures
        spec_split(s, sep) == seq![s.take(i)] + spec_split(s.skip(i + 1), sep),
{
    assert(!s.take(i).contains(sep)) by {
        if s.take(i).contains(sep) {
            let t = choose|t: int| 0 <= t < s.take(i).len() && s.take(i)[t] == sep;
            assert(s[t] == sep);
        }
    }
    crate::text::lemma_split_without_sep(s.take(i), sep);
    crate::text::lemma_split_append(s.take(i), s.skip(i + 1), sep);
    assert(s.take(i) + seq![sep] + s.skip(i + 1) =~= s);
}

/// The first piece of a split is a prefix of the text.
proof fn lemma_split_head(s: Seq<char>, sep: char)
    ensures
        spec_split(s, sep)[0].len() <= s.len(),
        forall|t: int| 0 <= t < spec_split(s, sep)[0].len() ==> spec_split(s, sep)[0][t] == s[t],
{
    if s.contains(sep) {
        s.index_of_first_ensures(sep);
        let i = s.index_of_first(sep)->0;
        lemma_split_first(s, sep, i);
    } else {
        crate::text::lemma_split_without_sep(s, sep);
    }
}

/// In a text without `,vf#`, no piece after a comma starts with `vf#`.
proof fn lemma_pieces_after_comma(s: Seq<char>)
    requires
        !spec_contains(s, ",vf#"@),
    ensures
        forall|k: int|
            1 <= k < spec_split(s, ',').len() ==> !starts_vf(#[trigger] spec_split(s, ',')[k]),
    decreases s.len(),
{
    reveal_strlit(",vf#");
    if s.contains(',') {
        s.index_of_first_ensures(',');
        let i = s.index_of_first(',')->0;
        lemma_split_first(s, ',', i);
        let b = s.skip(i + 1);
        assert(!spec_contains(b, ",vf#"@)) by {
            if spec_contains(b, ",vf#"@) {
                let j = choose|j: int| occurs_at(b, ",vf#"@, j);
                assert(s.subrange(j + i + 1, j + i + 5) =~= b.subrange(j, j + 4));
                assert(occurs_at(s, ",vf#"@, j + i + 1));
            }
        }
        lemma_pieces_after_comma(b);
        lemma_split_head(b, ',');
        let q = spec_split(b, ',')[0];
        assert(!starts_vf(q)) by {
            if starts_vf(q) {
                assert(b[0] == 'v' && b[1] == 'f' && b[2] == '#');
                assert(s.subrange(i, i + 4) =~= ",vf#"@);
                assert(occurs_at(s, ",vf#"@, i));
            }
        }
        assert forall|k: int| 1 <= k < spec_split(s, ',').len() implies !starts_vf(
            #[trigger] spec_split(s, ',')[k],
        ) by {
            assert(spec_split(s, ',')[k] == spec_split(b, ',')[k - 1]);
        }
    } else {
        crate::text::lemma_split_without_sep(s, ',');
    }
}

/// No piece of a `vostfr#url` item starts with `vf#` when the URL holds no
/// `,vf#`.
proof fn lemma_vostfr_item_pieces(w: Seq<char>)
    requires
        !spec_contains(w, ",vf#"@),
    ensures
        forall|k: int|
            0 <= k < spec_split("vostfr#"@ + w, ',').len() ==> !starts_vf(
                #[trigger] spec_split("vostfr#"@ + w, ',')[k],
            ),
{
    reveal_strlit(",vf#");
    reveal_strlit("vostfr#");
    let item = "vostfr#"@ + w;
    assert(!spec_contains(item, ",vf#"@)) by {
        if spec_contains(item, ",vf#"@) {
            let j = choose|j: int| occurs_at(item, ",vf#"@, j);
            assert(item[j] == item.subrange(j, j + 4)[0]);
            assert(item[j] == ',');
            if j < 7 {
                assert(item[j] == "vostfr#"@[j]);
            } else {
                assert(w.subrange(j - 7, j - 3) =~= item.subrange(j, j + 4));
                assert(occurs_at(w, ",vf#"@, j - 7));
            }
        }
    }
    lemma_pieces_after_comma(item);
    lemma_split_head(item, ',');
    crate::text::lemma_split_nonempty(item, ',');
    let p = spec_split(item, ',')[0];
    assert(!starts_vf(p)) by {
        if starts_vf(p) {
            assert(p[1] == item[1]);
        }
    }
}

/// An item that parses as `vf`-tagged starts with `vf#`.
proof fn lemma_vf_entry_starts(p: Seq<char>)
    requires
        spec_player_entry(p).0 == Some("vf"@),
    ensures
        starts_vf(p),
{
    reveal_strlit("vf");
    p.index_of_first_ensures('#');
    let i = p.index_of_first('#')->0;
    assert(p.subrange(0, i) == "vf"@);
    assert(i == 2);
    assert(p[0] == p.subrange(0, i)[0]);
    assert(p[1] == p.subrange(0, i)[1]);
}

proof fn lemma_pieces_of_concat(a: Seq<Seq<char>>, b: Seq<Seq<char>>)
    ensures
        pieces_of(a + b) == pieces_of(a) + pieces_of(b),
    decreases b.len(),
{
    if b.len() == 0 {
        assert(a + b =~= a);
        assert(pieces_of(a) + pieces_of(b) =~= pieces_of(a));
    } else {
        lemma_pieces_of_concat(a, b.drop_last());
        assert((a + b).drop_last() =~= a + b.drop_last());
        assert((a + b).last() == b.last());
        assert(pieces_of(a + b) =~= pieces_of(a) + pieces_of(b));
    }
}

proof fn lemma_pieces_of_plain(items: Seq<Seq<char>>)
    requires
        forall|i: int| 0 <= i < items.len() ==> !(#[trigger] items[i]).contains(','),
    ensures
        pieces_of(items) == items,
    decreases items.len(),
{
    if items.len() > 0 {
        assert forall|i: int| 0 <= i < items.drop_last().len() implies !(
        #[trigger] items.drop_last()[i]).contains(',') by {
            assert(items.drop_last()[i] == items[i]);
        }
        lemma_pieces_of_plain(items.drop_last());
        assert(!items[items.len() - 1].contains(','));
        crate::text::lemma_split_without_sep(items.last(), ',');
        assert(items.drop_last() + seq![items.last()] =~= items);
    }
}

proof fn lemma_split_join_pieces(items: Seq<Seq<char>>)
    requires
        items.len() >= 1,
    ensures
        spec_split(spec_join(items, seq![',']), ',') == pieces_of(items),
    decreases items.len(),
{
    if items.len() == 1 {
        assert(pieces_of(items.drop_last()) =~= Seq::<Seq<char>>::empty());
        assert(pieces_of(items) =~= spec_split(items[0], ','));
    } else {
        lemma_split_join_pieces(items.drop_last());
        crate::text::lemma_split_append(spec_join(items.drop_last(), seq![',']), items.last(), ',');
    }
}

/// The pieces of `vostfr#url` items whose URLs hold no `,vf#`: none starts
/// with `vf#`.
proof fn lemma_vostfr_pieces(ws: Seq<Seq<char>>)
    requires
        forall|i: int| 0 <= i < ws.len() ==> !spec_contains(#[trigger] ws[i], ",vf#"@),
    ensures
        forall|k: int|
            0 <= k < pieces_of(tagged_items(repeat_lang("vostfr"@, ws.len()), ws)).len() ==> !starts_vf(
                #[trigger] pieces_of(tagged_items(repeat_lang("vostfr"@, ws.len()), ws))[k],
            ),
    decreases ws.len(),
{
    let items = tagged_items(repeat_lang("vostfr"@, ws.len()), ws);
    if ws.len() > 0 {
        let n = ws.len() - 1;
        let init = ws.drop_last();
        assert forall|i: int| 0 <= i < init.len() implies !spec_contains(#[trigger] init[i], ",vf#"@) by {
            assert(init[i] == ws[i]);
        }
        lemma_vostfr_pieces(init);
        assert(items.drop_last() =~= tagged_items(repeat_lang("vostfr"@, init.len()), init));
        reveal_strlit("vostfr");
        reveal_strlit("#");
        reveal_strlit("vostfr#");
        assert(items.last() =~= "vostfr#"@ + ws[n]);
        lemma_vostfr_item_pieces(ws[n]);
        let a = pieces_of(items.drop_last());
        let b = spec_split(items.last(), ',');
        assert forall|k: int| 0 <= k < pieces_of(items).len() implies !starts_vf(
            #[trigger] pieces_of(items)[k],
        ) by {
            if k < a.len() {
                assert(pieces_of(items)[k] == a[k]);
            } else {
                assert(pieces_of(items)[k] == b[k - a.len()]);
            }
        }
    }
}

proof fn lemma_entries_of_concat(a: Seq<Seq<char>>, b: Seq<Seq<char>>)
    ensures
        spec_player_entries_of(a + b) == spec_player_entries_of(a) + spec_player_entries_of(b),
    decreases b.len(),
{
    if b.len() == 0 {
        assert(a + b =~= a);
        assert(spec_player_entries_of(a) + spec_player_entries_of(b) =~= spec_player_entries_of(a));
    } else {
        lemma_entries_of_concat(a, b.drop_last());
        assert((a + b).drop_last() =~= a + b.drop_last());
        assert((a + b).last() == b.last());
        assert(spec_player_entries_of(a + b) =~= spec_player_entries_of(a) + spec_player_entries_of(b));
    }
}

proof fn lemma_entries_not_vf(ps: Seq<Seq<char>>)
    requires
        forall|k: int| 0 <= k < ps.len() ==> !starts_vf(#[trigger] ps[k]),
    ensures
        forall|k: int|
            0 <= k < spec_player_entries_of(ps).len() ==> (#[trigger] spec_player_entries_of(ps)[k]).0
                != Some("vf"@),
    decreases ps.len(),
{
    if ps.len() > 0 {
        let init = ps.drop_last();
        assert forall|k: int| 0 <= k < init.len() implies !starts_vf(#[trigger] init[k]) by {
            assert(init[k] == ps[k]);
        }
        lemma_entries_not_vf(init);
        if spec_player_entry(ps.last()).0 == Some("vf"@) {
            lemma_vf_entry_starts(ps.last());
            assert(!starts_vf(ps[ps.len() - 1]));
        }
    }
}

/// A series episode's list, its `vf` players then its `vostfr` ones, gives
/// back as hosters exactly its `vf` players when `vf` is the language tried
/// first (each URL once, none on an excluded host, each named `VF · ` and
/// its host), as long as there is a `vf` player, no `vf` URL holds a comma
/// and no `vostfr` URL holds `,vf#`.
pub proof fn law_preferred_language_hosters(
    vf_urls: Seq<Seq<char>>,
    vostfr_urls: Seq<Seq<char>>,
    excluded: Seq<Seq<char>>,
)
    requires
        vf_urls.len() > 0,
        forall|i: int| 0 <= i < vf_urls.len() ==> !(#[trigger] vf_urls[i]).contains(','),
        forall|i: int| 0 <= i < vostfr_urls.len() ==> !spec_contains(#[trigger] vostfr_urls[i], ",vf#"@),
    ensures
        spec_hosters_of(
            spec_join(
                tagged_items(repeat_lang("vf"@, vf_urls.len()), vf_urls) + tagged_items(
                    repeat_lang("vostfr"@, vostfr_urls.len()),
                    vostfr_urls,
                ),
                ","@,
            ),
            "vf"@,
            excluded,
        ) == spec_keep_hosters(
            Seq::new(vf_urls.len(), |i: int| (Some("vf"@), vf_urls[i])),
            excluded,
        ),
{
    reveal_strlit(",");
    reveal_strlit("vf");
    reveal_strlit("vostfr");
    assert(","@ =~= seq![',']);
    let la = repeat_lang("vf"@, vf_urls.len());
    let items_a = tagged_items(la, vf_urls);
    let items_b = tagged_items(repeat_lang("vostfr"@, vostfr_urls.len()), vostfr_urls);
    let items = items_a + items_b;
    assert forall|i: int| 0 <= i < la.len() implies is_lang_tag(#[trigger] la[i]) by {}
    assert forall|i: int| 0 <= i < items_a.len() implies !(#[trigger] items_a[i]).contains(',') by {
        lemma_tagged_entry(la[i], vf_urls[i]);
    }
    lemma_split_join_pieces(items);
    lemma_pieces_of_concat(items_a, items_b);
    lemma_pieces_of_plain(items_a);
    let rest = pieces_of(items_b);
    lemma_vostfr_pieces(vostfr_urls);
    lemma_entries_of_concat(items_a, rest);
    lemma_tagged_entries(la, vf_urls);
    let x = Seq::new(vf_urls.len(), |i: int| (Some("vf"@), vf_urls[i]));
    assert(spec_player_entries_of(items_a) =~= x);
    let y = spec_player_entries_of(rest);
    lemma_entries_not_vf(rest);
    let entries = spec_player_entries(spec_join(items, ","@));
    assert(entries == x + y);
    let tagged_keep = |l: Option<Seq<char>>| l is Some;
    let pref_keep = |l: Option<Seq<char>>| l == Some("vf"@);
    lemma_entries_where_concat(x, y, tagged_keep);
    lemma_entries_where_all(x, tagged_keep);
    lemma_entries_where_concat(x, y, pref_keep);
    lemma_entries_where_all(x, pref_keep);
    lemma_entries_where_none(y, pref_keep);
    assert(entries_where(x + y, pref_keep) =~= x);
    assert(entries_where(x + y, tagged_keep).len() >= x.len());
    assert(spec_select_entries(entries, "vf"@) == x);
}

/// The hosters of an encoded player list (`vf#url,vostfr#url` for a series,
/// `url,url` for a film): the preferred language's players when there are
/// any, every URL once, none on an excluded host.
pub fn hosters_of(list: &str, pref: &str, excluded: &[&str]) -> (res: Vec<Hoster>)
    ensures
        hosters_view(res@) == spec_hosters_of(list@, pref@, excluded.deep_view()),
{
    let entries = player_entries(list);
    let tagged = entries_tagged(&entries, None);
    let sel: Vec<(Option<String>, String)> = if tagged.len() > 0 {
        let preferred = entries_tagged(&entries, Some(pref));
        if preferred.len() == 0 {
            tagged
        } else {
            preferred
        }
    } else {
        entries
    };
    let ghost s = sel.deep_view();
    let mut out: Vec<Hoster> = Vec::new();
    let mut seen: Vec<String> = Vec::new();
    let mut i: usize = 0;
    while i < sel.len()
        invariant
            0 <= i <= sel@.len(),
            s == sel.deep_view(),
            hosters_view(out@) == spec_keep_hosters(s.take(i as int), excluded.deep_view()),
            forall|u: Seq<char>|
                #[trigger] seen.deep_view().contains(u) <==> exists|j: int|
                    0 <= j < i && (#[trigger] s[j]).1 == u && !contains_any(
                        spec_host_of(u),
                        excluded.deep_view(),
                    ),
        decreases sel@.len() - i,
    {
        let ghost t = s.take(i + 1);
        assert(t.drop_last() =~= s.take(i as int));
        assert(t.last() == s[i as int]);
        let url = &sel[i].1;
        let host = host_of(url.as_str());
        let blocked = contains_any_of(host.as_str(), excluded);
        proof {
            assert(s[i as int].1 == url@);
            // an earlier entry with this URL was skipped or kept exactly like this one
            assert((exists|j: int| 0 <= j < t.len() - 1 && (#[trigger] t[j]).1 == url@) <==> (
            exists|j: int| 0 <= j < i && (#[trigger] s[j]).1 == url@)) by {
                if exists|j: int| 0 <= j < t.len() - 1 && (#[trigger] t[j]).1 == url@ {
                    let j = choose|j: int| 0 <= j < t.len() - 1 && (#[trigger] t[j]).1 == url@;
                    assert(s[j] == t[j]);
                }
                if exists|j: int| 0 <= j < i && (#[trigger] s[j]).1 == url@ {
                    let j = choose|j: int| 0 <= j < i && (#[trigger] s[j]).1 == url@;
                    assert(s[j] == t[j]);
                }
            }
        }
        if blocked {
            i = i + 1;
            proof {
                assert forall|u: Seq<char>|
                    #[trigger] seen.deep_view().contains(u) <==> exists|j: int|
                        0 <= j < i && (#[trigger] s[j]).1 == u && !contains_any(
                            spec_host_of(u),
                            excluded.deep_view(),
                        ) by {
                    if exists|j: int|
                        0 <= j < i && (#[trigger] s[j]).1 == u && !contains_any(
                            spec_host_of(u),
                            excluded.deep_view(),
                        ) {
                        let j = choose|j: int|
                            0 <= j < i && (#[trigger] s[j]).1 == u && !contains_any(
                                spec_host_of(u),
                                excluded.deep_view(),
                            );
                        assert(j < i - 1);
                    }
                }
            }
            continue;
        }
        if contains_string(&seen, url.as_str()) {
            i = i + 1;
            continue;
        }
        let ghost before = hosters_view(out@);
        let name = hoster_name(&sel[i]);
        out.push(Hoster { url: url.clone(), name });
        assert(hosters_view(out@) =~= before.push((url@, spec_hoster_name(s[i as int]))));
        let ghost seen_before = seen.deep_view();
        seen.push(url.clone());
        assert(seen.deep_view() =~= seen_before.push(url@));
        i = i + 1;
        proof {
            assert forall|u: Seq<char>|
                #[trigger] seen.deep_view().contains(u) <==> exists|j: int|
                    0 <= j < i && (#[trigger] s[j]).1 == u && !contains_any(
                        spec_host_of(u),
                        excluded.deep_view(),
                    ) by {
                if seen.deep_view().contains(u) {
                    if u == url@ {
                        assert(s[i - 1].1 == u);
                    } else {
                        let k = choose|k: int|
                            0 <= k < seen.deep_view().len() && seen.deep_view()[k] == u;
                        assert(seen_before[k] == u);
                        assert(seen_before.contains(u));
                    }
                }
                if exists|j: int|
                    0 <= j < i && (#[trigger] s[j]).1 == u && !contains_any(
                        spec_host_of(u),
                        excluded.deep_view(),
                    ) {
                    let j = choose|j: int|
                        0 <= j < i && (#[trigger] s[j]).1 == u && !contains_any(
                            spec_host_of(u),
                            excluded.deep_view(),
                        );
                    if j == i - 1 {
                        assert(seen.deep_view()[seen.deep_view().len() - 1] == u);
                    } else {
                        assert(seen_before.contains(u));
                        let k = choose|k: int| 0 <= k < seen_before.len() && seen_before[k] == u;
                        assert(seen.deep_view()[k] == u);
                    }
                }
            }
        }
    }
    assert(s.take(sel@.len() as int) =~= s);
    out
}

// ---------------------------------------------------------------------------
// Sorted episode numbers
// ---------------------------------------------------------------------------

pub open spec fn strictly_increasing(s: Seq<i64>) -> bool {
    forall|i: int, j: int| 0 <= i < j < s.len() ==> s[i] < s[j]
}

/// The distinct values of `v` in ascending order.
/// `i64` obeys the order laws `BTreeSet` relies on.
pub open spec fn i64_ordered() -> bool {
    vstd::laws_cmp::obeys_cmp::<i64>() && vstd::laws_cmp::obeys_cmp::<&i64>()
}

proof fn lemma_i64_total_order()
    ensures
        i64_ordered(),
{
    broadcast use vstd::laws_cmp::group_laws_cmp;

}

/// The keys a `BTreeSet<i64>` yields, in increasing order, are strictly
/// increasing integers.
proof fn lemma_increasing_keys(keys: Seq<&i64>, out: Seq<i64>)
    requires
        i64_ordered(),
        increasing_seq(keys),
        out == keys.unref(),
    ensures
        strictly_increasing(out),
{
    broadcast use vstd::std_specs::btree::group_btree_axioms;

    assert forall|a: int, b: int| 0 <= a < b < out.len() implies out[a] < out[b] by {
        assert(vstd::std_specs::cmp::OrdSpec::cmp_spec(&keys[a], &keys[b]) is Less);
    }
}

pub fn sorted_distinct(v: &Vec<i64>) -> (res: Vec<i64>)
    ensures
        strictly_increasing(res@),
        forall|x: i64| res@.contains(x) <==> v@.contains(x),
{
    broadcast use vstd::std_specs::btree::group_btree_axioms;

    proof {
        lemma_i64_total_order();
    }
    let mut set: BTreeSet<i64> = BTreeSet::new();
    let mut i: usize = 0;
    while i < v.len()
        invariant
            0 <= i <= v@.len(),
            i64_ordered(),
            forall|x: i64| set@.contains(x) <==> v@.take(i as int).contains(x),
        decreases v@.len() - i,
    {
        let ghost before = set@;
        set.insert(v[i]);
        let ghost t0 = v@.take(i as int);
        let ghost t1 = v@.take(i + 1);
        assert forall|x: i64| set@.contains(x) <==> t1.contains(x) by {
            if t1.contains(x) {
                let k = choose|k: int| 0 <= k < t1.len() && t1[k] == x;
                if k < i {
                    assert(t0[k] == x);
                }
            }
            if t0.contains(x) {
                let k = choose|k: int| 0 <= k < t0.len() && t0[k] == x;
                assert(t1[k] == x);
            }
            assert(t1[i as int] == v@[i as int]);
        }
        i = i + 1;
    }
    assert(v@.take(v@.len() as int) =~= v@);
    let ghost keys = spec_btree_keys_iter(&set).remaining();
    assert(keys.unref().to_set() == set@);
    assert(increasing_seq(keys));
    let mut out: Vec<i64> = Vec::new();
    for x in it: set.iter()
        invariant
            out@.len() == it.index(),
            it.seq() == keys,
            forall|k: int| 0 <= k < out@.len() ==> out@[k] == *keys[k],
    {
        out.push(*x);
    }
    assert(out@ =~= keys.unref());
    assert forall|x: i64| out@.contains(x) <==> v@.contains(x) by {
        assert(out@.to_set().contains(x) <==> set@.contains(x));
    }
    proof {
        lemma_increasing_keys(keys, out@);
    }
    out
}

// ---------------------------------------------------------------------------
// Reading pages
// ---------------------------------------------------------------------------

/// The trimmed value of attribute `attr` of the first element `sel`
/// matches, if it is not empty.
pub open spec fn spec_attr_text(html: Seq<char>, sel: Seq<char>, attr: Seq<char>) -> Option<Seq<char>> {
    match spec_html_select(html, sel, attr) {
        Some(els) => if els.len() > 0 {
            match els[0].0 {
                Some(v) => if spec_trim(v).len() > 0 {
                    Some(spec_trim(v))
                } else {
                    None
                },
                None => None,
            }
        } else {
            None
        },
        None => None,
    }
}

/// The trimmed text of the first element `sel` matches, if it is not empty.
pub open spec fn spec_first_text(html: Seq<char>, sel: Seq<char>) -> Option<Seq<char>> {
    match spec_html_select(html, sel, ""@) {
        Some(els) => if els.len() > 0 && spec_trim(els[0].1).len() > 0 {
            Some(spec_trim(els[0].1))
        } else {
            None
        },
        None => None,
    }
}

/// The trimmed, non-empty texts of the elements, in order.
pub open spec fn nonempty_texts(els: Seq<(Option<Seq<char>>, Seq<char>, Seq<char>)>) -> Seq<Seq<char>>
    decreases els.len(),
{
    if els.len() == 0 {
        Seq::empty()
    } else {
        let init = nonempty_texts(els.drop_last());
        let t = spec_trim(els.last().1);
        if t.len() > 0 {
            init.push(t)
        } else {
            init
        }
    }
}

/// The trimmed, non-empty texts of every element `sel` matches.
pub open spec fn spec_all_texts(html: Seq<char>, sel: Seq<char>) -> Seq<Seq<char>> {
    match spec_html_select(html, sel, ""@) {
        Some(els) => nonempty_texts(els),
        None => Seq::empty(),
    }
}

pub fn attr_text(html: &str, sel: &str, attr: &str) -> (res: Option<String>)
    ensures
        res.deep_view() == spec_attr_text(html@, sel@, attr@),
{
    match html_select(html, sel, attr) {
        Some(els) => {
            if els.len() == 0 {
                return None;
            }
            match &els[0].0 {
                Some(v) => {
                    let t = crate::text::trim_str(v.as_str());
                    if t.len() > 0 {
                        Some(string_of(t.as_slice()))
                    } else {
                        None
                    }
                },
                None => None,
            }
        },
        None => None,
    }
}

pub fn first_text(html: &str, sel: &str) -> (res: Option<String>)
    ensures
        res.deep_view() == spec_first_text(html@, sel@),
{
    match html_select(html, sel, "") {
        Some(els) => {
            if els.len() == 0 {
                return None;
            }
            let t = crate::text::trim_str(els[0].1.as_str());
            if t.len() > 0 {
                Some(string_of(t.as_slice()))
            } else {
                None
            }
        },
        None => None,
    }
}

pub fn all_texts(html: &str, sel: &str) -> (res: Vec<String>)
    ensures
        res.deep_view() == spec_all_texts(html@, sel@),
{
    let mut out: Vec<String> = Vec::new();
    match html_select(html, sel, "") {
        Some(els) => {
            let mut i: usize = 0;
            while i < els.len()
                invariant
                    0 <= i <= els@.len(),
                    out.deep_view() == nonempty_texts(els.deep_view().take(i as int)),
                decreases els@.len() - i,
            {
                let ghost t = els.deep_view().take(i + 1);
                assert(t.drop_last() =~= els.deep_view().take(i as int));
                assert(t.last() == els.deep_view()[i as int]);
                let tx = crate::text::trim_str(els[i].1.as_str());
                if tx.len() > 0 {
                    let ghost before = out.deep_view();
                    out.push(string_of(tx.as_slice()));
                    assert(out.deep_view() =~= before.push(tx@));
                }
                i = i + 1;
            }
            assert(els.deep_view().take(els@.len() as int) =~= els.deep_view());
            out
        },
        None => {
            assert(out.deep_view() =~= Seq::<Seq<char>>::empty());
            out
        },
    }
}

// ---------------------------------------------------------------------------
// Views shared by the addons
// ---------------------------------------------------------------------------

/// The fields of a setting declaration.
/// Every `Select` setting's default is one of its options.
pub open spec fn defaults_are_options(
    prefs: Seq<(Seq<char>, Seq<char>, Option<Seq<char>>, Seq<char>, PreferenceKind, Seq<Seq<char>>)>,
) -> bool {
    forall|i: int|
        0 <= i < prefs.len() && (#[trigger] prefs[i]).4 == PreferenceKind::Select ==> prefs[i].5.contains(
            prefs[i].3,
        )
}

pub open spec fn preference_view(p: Preference) -> (
    Seq<char>,
    Seq<char>,
    Option<Seq<char>>,
    Seq<char>,
    PreferenceKind,
    Seq<Seq<char>>,
) {
    (p.key@, p.title@, p.summary.deep_view(), p.default@, p.kind, p.options.deep_view())
}

pub open spec fn preferences_view(v: Seq<Preference>) -> Seq<
    (Seq<char>, Seq<char>, Option<Seq<char>>, Seq<char>, PreferenceKind, Seq<Seq<char>>),
> {
    Seq::new(v.len(), |i: int| preference_view(v[i]))
}

pub open spec fn deref_json(o: Option<&JsonValue>) -> Option<JsonValue> {
    match o {
        Some(v) => Some(*v),
        None => None,
    }
}

pub open spec fn episode_view(e: Episode) -> (Seq<char>, Seq<char>, i64, Option<i64>) {
    (e.url@, e.name@, e.number, e.date_upload)
}

pub open spec fn episode_numbers(eps: Seq<Episode>) -> Seq<i64> {
    Seq::new(eps.len(), |i: int| eps[i].number)
}

/// Group `k` of a match, if it took part.
pub open spec fn group(caps: Seq<Option<Seq<char>>>, k: int) -> Option<Seq<char>> {
    if 0 <= k < caps.len() {
        caps[k]
    } else {
        None
    }
}

/// The packed script one match of `PACKED` decodes to.
pub open spec fn spec_unpack_match(caps: Seq<Option<Seq<char>>>) -> Option<Seq<char>> {
    match (group(caps, 1), group(caps, 2), group(caps, 4)) {
        (Some(p), Some(r), Some(w)) => spec_decode_packed(p, r, w),
        _ => None,
    }
}

pub fn group_of(caps: &Vec<Option<String>>, k: usize) -> (res: Option<String>)
    ensures
        res.deep_view() == group(caps.deep_view(), k as int),
{
    if k < caps.len() {
        match &caps[k] {
            Some(g) => Some(g.clone()),
            None => None,
        }
    } else {
        None
    }
}

pub fn unpack_match(caps: &Vec<Option<String>>) -> (res: Option<String>)
    ensures
        res.deep_view() == spec_unpack_match(caps.deep_view()),
{
    match (group_of(caps, 1), group_of(caps, 2), group_of(caps, 4)) {
        (Some(p), Some(r), Some(w)) => decode_packed(p.as_str(), r.as_str(), w.as_str()),
        _ => None,
    }
}

} // verus!
