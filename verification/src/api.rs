//! The values an addon hands to the host: catalogue entries, settings,
//! hosters and playable videos, plus the HTTP request an addon asks the host
//! to perform.

use vstd::prelude::*;

verus! {

/// What an addon is: its identifier, display name, language and site.
#[derive(Clone, Debug)]
pub struct Metadata {
    pub id: String,
    pub name: String,
    pub lang: String,
    pub base_url: String,
    pub version: String,
    pub nsfw: bool,
}

/// How the host renders a setting.
#[derive(Clone, Copy, Debug, PartialEq, Eq)]
pub enum PreferenceKind {
    Text,
    Select,
    Bool,
}

/// A configurable setting an addon declares; the host renders it as a
/// settings field, stores the chosen value and feeds it back as configuration.
#[derive(Clone, Debug)]
pub struct Preference {
    pub key: String,
    pub title: String,
    pub summary: Option<String>,
    pub default: String,
    pub kind: PreferenceKind,
    /// For `Select`: the allowed values (label == value).
    pub options: Vec<String>,
}

/// A show as the site describes it.
#[derive(Clone, Debug)]
pub struct Anime {
    pub url: String,
    pub title: String,
    pub poster_url: Option<String>,
    pub description: Option<String>,
    pub genres: Vec<String>,
    pub status: Option<String>,
}

/// One episode (or a film, as a single episode). `url` carries what
/// `hoster_list` needs to find the players; `number` is the episode number.
#[derive(Clone, Debug)]
pub struct Episode {
    pub url: String,
    pub name: String,
    pub number: i64,
    pub date_upload: Option<i64>,
}

/// One page of a catalogue listing.
#[derive(Clone, Debug)]
pub struct AnimesPage {
    pub animes: Vec<Anime>,
    pub has_next_page: bool,
}

impl AnimesPage {
    /// The empty page: no entries and nothing after it.
    pub fn empty() -> (res: AnimesPage)
        ensures
            res.animes@.len() == 0,
            !res.has_next_page,
    {
        AnimesPage { animes: Vec::new(), has_next_page: false }
    }
}

/// A player (embed page) that serves an episode.
#[derive(Clone, Debug)]
pub struct Hoster {
    pub url: String,
    pub name: String,
}

/// A subtitle or audio track.
#[derive(Clone, Debug)]
pub struct Track {
    pub url: String,
    pub lang: String,
}

/// A playable stream and the headers its server requires.
#[derive(Clone, Debug)]
pub struct Video {
    pub url: String,
    pub quality: String,
    /// Header name and value pairs, no name twice.
    pub headers: Vec<(String, String)>,
    pub subtitles: Vec<Track>,
    pub audio: Vec<Track>,
}

/// Argument of the catalogue listings.
#[derive(Clone, Debug)]
pub struct PageInput {
    pub page: u32,
}

/// Argument of a catalogue search.
#[derive(Clone, Debug)]
pub struct SearchInput {
    pub query: String,
    pub page: u32,
}

/// Argument of the per-show and per-episode entry points.
#[derive(Clone, Debug)]
pub struct UrlInput {
    pub url: String,
}

/// Asks the host to load a JS-rendered page in a real browser and capture
/// its media source.
#[derive(Clone, Debug)]
pub struct HeadlessRequest {
    pub url: String,
    pub timeout_secs: Option<u64>,
}

/// The captured media source (URL and the headers it requires).
#[derive(Clone, Debug)]
pub struct HeadlessResponse {
    pub url: String,
    pub headers: Vec<(String, String)>,
}

/// An HTTP GET the addon asks the host to perform.
#[derive(Clone, Debug)]
pub struct Request {
    pub url: String,
    /// Header name and value pairs, in the order they were given.
    pub headers: Vec<(String, String)>,
}

/// A video with the given URL, quality label and headers, and no tracks.
pub fn video(url: String, quality: String, headers: Vec<(String, String)>) -> (res: Video)
    ensures
        res.url@ == url@,
        res.quality@ == quality@,
        res.headers.deep_view() == headers.deep_view(),
        res.subtitles@.len() == 0,
        res.audio@.len() == 0,
{
    Video { url, quality, headers, subtitles: Vec::new(), audio: Vec::new() }
}

} // verus!
