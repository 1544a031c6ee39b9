//! Lyrics: what to ask LRCLIB for, which of its answers to take, and what to keep.

use crate::digits::{
    decimal, decimal_int, fnv, fnv1a, hex, hex16, law_hex_read_back, read_hex,
};
use crate::json::{
    as_array, as_double, from_slice, get, json_items, json_of, member_str, parsed_json, Json,
};
use crate::seconds::{law_positive_numbers, Seconds};
use crate::text::{ascii_lower, lemma_cut_unique, lower, lowercase, opt_text, same_text, trimmed};
use crate::title::{
    collapsed, copies, law_undouble_ignores_copies, law_undouble_keeps_the_rest, simplified,
    simplify_title, undouble,
};
use vstd::prelude::*;
use vstd::utf8::{encode_utf8, is_ascii_chars};

verus! {

/// The lyrics of a track, and where they come from.
pub struct Lyrics {
    pub synced: Option<String>,
    pub plain: Option<String>,
    pub source: String,
}

/// The texts of `Lyrics`.
pub struct LyricsView {
    pub synced: Option<Seq<char>>,
    pub plain: Option<Seq<char>>,
    pub source: Seq<char>,
}

impl View for Lyrics {
    type V = LyricsView;

    open spec fn view(&self) -> LyricsView {
        LyricsView {
            synced: opt_text(self.synced),
            plain: opt_text(self.plain),
            source: self.source@,
        }
    }
}

impl Default for Lyrics {
    fn default() -> (r: Lyrics)
        ensures
            r@.synced is None,
            r@.plain is None,
            r@.source == Seq::<char>::empty(),
    {
        Lyrics { synced: None, plain: None, source: String::new() }
    }
}

/// A text that is there and not empty.
pub open spec fn not_empty(s: Option<Seq<char>>) -> Option<Seq<char>> {
    match s {
        Some(t) if t.len() > 0 => Some(t),
        _ => None,
    }
}

/// The lyrics that an entry of LRCLIB holds.
pub open spec fn lyrics_of(entry: Json, source: Seq<char>) -> LyricsView {
    LyricsView {
        synced: not_empty(entry.member_text("syncedLyrics"@)),
        plain: not_empty(entry.member_text("plainLyrics"@)),
        source,
    }
}

/// A string where there is a text and it is not empty.
fn owned(s: Option<&str>) -> (r: Option<String>)
    ensures
        opt_text(r) == not_empty(
            match s {
                Some(t) => Some(t@),
                None => None,
            },
        ),
{
    match s {
        Some(t) => if t.is_empty() {
            None
        } else {
            Some(t.to_string())
        },
        None => None,
    }
}

/// The lyrics that an entry of LRCLIB holds. An empty text counts as none.
pub fn from_lrclib(v: &serde_json::Value, source: &str) -> (r: Lyrics)
    ensures
        r@ == lyrics_of(json_of(*v), source@),
{
    let s = member_str(v, "syncedLyrics");
    let p = member_str(v, "plainLyrics");
    Lyrics { synced: owned(s), plain: owned(p), source: source.to_string() }
}

/// The pattern of the double 9999.0, which ranks entries of unknown distance.
pub const UNKNOWN_GAP: u64 = 0x40c3_8780_0000_0000;

/// The entry has synced lyrics.
pub open spec fn has_synced(entry: Json) -> bool {
    not_empty(entry.member_text("syncedLyrics"@)) is Some
}

/// The duration that an entry gives; zero where it gives none.
pub open spec fn duration_of(entry: Json) -> Seconds {
    Seconds {
        bits: match entry.member_number("duration"@) {
            Some(b) => b,
            None => 0,
        },
    }
}

/// How an entry ranks: synced lyrics first, then the distance of its duration from the
/// target, where both are known. Of two ranks the lower is the better.
pub open spec fn rank(entry: Json, target: Seconds, gap: u64) -> (int, int) {
    (
        if has_synced(entry) {
            0
        } else {
            1
        },
        if target.positive() && duration_of(entry).positive() {
            gap as int
        } else {
            UNKNOWN_GAP as int
        },
    )
}

/// The first rank is lower than the second.
pub open spec fn ranks_before(a: (int, int), b: (int, int)) -> bool {
    a.0 < b.0 || (a.0 == b.0 && a.1 < b.1)
}

/// The entry at `i` ranks before those that stand before it, and none that follows it
/// ranks before it.
pub open spec fn is_best(items: Seq<Json>, target: Seconds, gaps: Seq<u64>, i: int) -> bool {
    &&& 0 <= i < items.len()
    &&& forall|j: int|
        #![trigger items[j]]
        0 <= j < i ==> ranks_before(rank(items[i], target, gaps[i]), rank(items[j], target, gaps[j]))
    &&& forall|j: int|
        #![trigger items[j]]
        i < j < items.len() ==> !ranks_before(
            rank(items[j], target, gaps[j]),
            rank(items[i], target, gaps[i]),
        )
}

/// The position of the best entry.
pub open spec fn best_of(items: Seq<Json>, target: Seconds, gaps: Seq<u64>) -> int {
    choose|i: int| is_best(items, target, gaps, i)
}

/// The duration to compare with; zero where none is known.
pub open spec fn target_of(duration: Option<Seconds>) -> Seconds {
    match duration {
        Some(d) => d,
        None => Seconds { bits: 0 },
    }
}

/// There is at most one best entry.
proof fn lemma_best_unique(items: Seq<Json>, target: Seconds, gaps: Seq<u64>, i: int, j: int)
    requires
        is_best(items, target, gaps, i),
        is_best(items, target, gaps, j),
    ensures
        i == j,
{
    let x = items[i];
    let y = items[j];
}

/// Whether an entry has synced lyrics.
fn is_synced(v: &serde_json::Value) -> (r: bool)
    ensures
        r == has_synced(json_of(*v)),
{
    match member_str(v, "syncedLyrics") {
        Some(s) => !s.is_empty(),
        None => false,
    }
}

/// The duration that an entry gives; zero where it gives none.
fn entry_duration(v: &serde_json::Value) -> (r: Seconds)
    ensures
        r == duration_of(json_of(*v)),
{
    match get(v, "duration") {
        Some(d) => match as_double(d) {
            Some(bits) => Seconds { bits },
            None => Seconds { bits: 0 },
        },
        None => Seconds { bits: 0 },
    }
}

/// The durations of the entries of an array of results; none where it is no array.
pub open spec fn durations_of(results: Json) -> Seq<Seconds> {
    match results.items() {
        Some(items) => items.map_values(|e: Json| duration_of(e)),
        None => Seq::empty(),
    }
}

/// The durations of the entries of an array of results.
pub fn result_durations(arr: &serde_json::Value) -> (r: Vec<Seconds>)
    ensures
        r@ == durations_of(json_of(*arr)),
{
    let mut out: Vec<Seconds> = Vec::new();
    if let Some(items) = as_array(arr) {
        let ghost views = json_items(items@);
        let mut i: usize = 0;
        while i < items.len()
            invariant
                0 <= i <= items@.len(),
                views == json_items(items@),
                out@ == views.take(i as int).map_values(|e: Json| duration_of(e)),
            decreases items@.len() - i,
        {
            out.push(entry_duration(&items[i]));
            i += 1;
            assert(out@ =~= views.take(i as int).map_values(|e: Json| duration_of(e)));
        }
        assert(views.take(views.len() as int) =~= views);
    }
    out
}

/// From a search-results array, prefer entries with synced lyrics and the closest
/// duration to what's playing. `gaps` gives for each entry the pattern of the distance
/// of its duration from `duration`, a number that is not negative; such patterns are
/// ordered as the numbers are.
pub fn pick_best<'a>(
    arr: &'a serde_json::Value,
    duration: Option<Seconds>,
    gaps: &Vec<u64>,
) -> (r: Option<&'a serde_json::Value>)
    requires
        json_of(*arr).items() matches Some(items) ==> gaps@.len() == items.len(),
    ensures
        match json_of(*arr).items() {
            Some(items) => if items.len() > 0 {
                &&& r matches Some(v) && json_of(*v) == items[best_of(items, target_of(duration), gaps@)]
                &&& is_best(
                    items,
                    target_of(duration),
                    gaps@,
                    best_of(items, target_of(duration), gaps@),
                )
            } else {
                r is None
            },
            None => r is None,
        },
{
    let items = match as_array(arr) {
        Some(items) => items,
        None => {
            return None;
        },
    };
    let ghost views = json_items(items@);
    if items.len() == 0 {
        return None;
    }
    let target = match duration {
        Some(d) => d,
        None => Seconds { bits: 0 },
    };
    let timed = target.is_positive();
    let mut best: usize = 0;
    let mut best_synced = is_synced(&items[0]);
    let mut best_gap: u64 = if timed && entry_duration(&items[0]).is_positive() {
        gaps[0]
    } else {
        UNKNOWN_GAP
    };
    let mut i: usize = 1;
    assert(views[0] == json_of(items@[0]));
    while i < items.len()
        invariant
            1 <= i <= items@.len(),
            best < i,
            views == json_items(items@),
            gaps@.len() == items@.len(),
            timed == target.positive(),
            rank(views[best as int], target, gaps@[best as int]) == (
                if best_synced {
                    0int
                } else {
                    1int
                },
                best_gap as int,
            ),
            forall|j: int|
                #![trigger views[j]]
                0 <= j < best ==> ranks_before(
                    rank(views[best as int], target, gaps@[best as int]),
                    rank(views[j], target, gaps@[j]),
                ),
            forall|j: int|
                #![trigger views[j]]
                best < j < i ==> !ranks_before(
                    rank(views[j], target, gaps@[j]),
                    rank(views[best as int], target, gaps@[best as int]),
                ),
        decreases items@.len() - i,
    {
        assert(views[i as int] == json_of(items@[i as int]));
        let synced = is_synced(&items[i]);
        let gap: u64 = if timed && entry_duration(&items[i]).is_positive() {
            gaps[i]
        } else {
            UNKNOWN_GAP
        };
        if (synced && !best_synced) || (synced == best_synced && gap < best_gap) {
            best = i;
            best_synced = synced;
            best_gap = gap;
        }
        i += 1;
    }
    proof {
        assert(is_best(views, target, gaps@, best as int));
        lemma_best_unique(views, target, gaps@, best as int, best_of(views, target, gaps@));
    }
    Some(&items[best])
}

/// The name of the cache file for a key: its FNV-1a hash in hexadecimal.
pub open spec fn cache_file_of(key: Seq<char>) -> Seq<char> {
    hex(fnv1a(encode_utf8(key))) + ".json"@
}

/// The name of the cache file for a key, one JSON file per track: the FNV-1a hash of
/// artist|track|album in hexadecimal.
pub fn lyrics_cache_path(key: &str) -> (r: String)
    ensures
        r@ == cache_file_of(key@),
{
    let mut name = hex16(fnv(key.as_bytes()));
    name.append(".json");
    name
}

/// What the cache knows a track by: its artist, title and album.
pub open spec fn key_of(artist: Seq<char>, track: Seq<char>, album: Seq<char>) -> Seq<char> {
    artist + "|"@ + track + "|"@ + album
}

/// The name of the cache file for a track, by the lower-case forms of its artist, title and
/// album.
pub fn track_file(artist: &str, track: &str, album: &str) -> (r: String)
    ensures
        r@ == cache_file_of(key_of(artist@, track@, album@)),
{
    let mut key = artist.to_string();
    key.append("|");
    key.append(track);
    key.append("|");
    key.append(album);
    lyrics_cache_path(key.as_str())
}

/// Lyrics that are worth keeping: a miss is not, so that it is tried again.
pub open spec fn worth_caching(l: LyricsView) -> bool {
    l.synced is Some || l.plain is Some
}

/// The lyrics, and whether to write them to the cache. Misses are not written, so that
/// they are tried again.
pub fn cache_and_return(l: Lyrics) -> (r: (Lyrics, bool))
    ensures
        r.0@ == l@,
        r.1 == worth_caching(l@),
{
    let keep = l.synced.is_some() || l.plain.is_some();
    (l, keep)
}

/// How long the track that is playing lasts: as a number, and rounded to whole seconds.
#[derive(Clone, Copy, Debug)]
pub struct Playing {
    pub seconds: Seconds,
    pub rounded: i64,
}

/// A search for the lyrics of one track.
pub struct LyricsFetch {
    artist: String,
    track: String,
    album: Option<String>,
    duration: Option<Playing>,
}

/// What a search for lyrics is about.
pub struct FetchView {
    pub artist: Seq<char>,
    pub track: Seq<char>,
    pub album: Option<Seq<char>>,
    pub duration: Option<Playing>,
}

impl View for LyricsFetch {
    type V = FetchView;

    closed spec fn view(&self) -> FetchView {
        FetchView {
            artist: self.artist@,
            track: self.track@,
            album: opt_text(self.album),
            duration: self.duration,
        }
    }
}

/// The title that a search is made with.
#[derive(Clone, Copy, Debug, PartialEq, Eq, Structural)]
pub enum Title {
    /// The title as it is.
    Full,
    /// The title without its descriptors.
    Simple,
}

/// The names and values of a query.
pub open spec fn query_texts(q: Seq<(String, String)>) -> Seq<(Seq<char>, Seq<char>)> {
    q.map_values(|p: (String, String)| (p.0@, p.1@))
}

/// What a search for lyrics has to do next.
pub enum Next {
    /// Ask for the track by all that is known of it.
    Get { query: Vec<(String, String)> },
    /// Search for the artist and a title.
    Search { title: Title, query: Vec<(String, String)> },
    /// Measure how far the durations of the results are from the target.
    Measure {
        title: Title,
        results: serde_json::Value,
        target: Seconds,
        durations: Vec<Seconds>,
    },
    /// Hand out the lyrics, and write them to the cache where `store` says so.
    Finish { lyrics: Lyrics, store: bool },
}

/// The values that `Next` holds.
pub enum NextView {
    Get(Seq<(Seq<char>, Seq<char>)>),
    Search(Title, Seq<(Seq<char>, Seq<char>)>),
    Measure(Title, Json, Seconds, Seq<Seconds>),
    Finish(LyricsView, bool),
}

impl View for Next {
    type V = NextView;

    open spec fn view(&self) -> NextView {
        match *self {
            Next::Get { query } => NextView::Get(query_texts(query@)),
            Next::Search { title, query } => NextView::Search(title, query_texts(query@)),
            Next::Measure { title, results, target, durations } => NextView::Measure(
                title,
                json_of(results),
                target,
                durations@,
            ),
            Next::Finish { lyrics, store } => NextView::Finish(lyrics@, store),
        }
    }
}

/// The lyrics where there are none.
pub open spec fn no_lyrics() -> LyricsView {
    LyricsView { synced: None, plain: None, source: "none"@ }
}

impl FetchView {
    /// The album, or an empty text.
    pub open spec fn album_text(self) -> Seq<char> {
        match self.album {
            Some(a) => a,
            None => Seq::empty(),
        }
    }

    /// What the cache knows the track by: artist, track and album in lower case.
    pub open spec fn cache_key(self) -> Seq<char> {
        key_of(lowercase(self.artist), lowercase(self.track), lowercase(self.album_text()))
    }

    /// The name of the cache file of the track.
    pub open spec fn cache_file(self) -> Seq<char> {
        cache_file_of(self.cache_key())
    }

    /// The query for the track by all that is known of it.
    pub open spec fn get_query(self, rounded: i64) -> Seq<(Seq<char>, Seq<char>)> {
        let q = seq![
            ("artist_name"@, self.artist),
            ("track_name"@, self.track),
            ("duration"@, decimal_int(rounded as int)),
        ];
        if self.album_text().len() > 0 {
            q.push(("album_name"@, self.album_text()))
        } else {
            q
        }
    }

    /// The title to search for.
    pub open spec fn search_title(self, title: Title) -> Seq<char> {
        match title {
            Title::Full => self.track,
            Title::Simple => simplified(self.track),
        }
    }

    /// The search for a title.
    pub open spec fn search(self, title: Title) -> NextView {
        NextView::Search(
            title,
            seq![("track_name"@, self.search_title(title)), ("artist_name"@, self.artist)],
        )
    }

    /// The title differs from the full one once it is simplified, and something is left.
    pub open spec fn has_simple_title(self) -> bool {
        simplified(self.track) != self.track && simplified(self.track).len() > 0
    }

    /// What comes after a search that found nothing.
    pub open spec fn after_search(self, title: Title) -> NextView {
        if title == Title::Full && self.has_simple_title() {
            self.search(Title::Simple)
        } else {
            NextView::Finish(no_lyrics(), false)
        }
    }

    /// What comes after the cache was asked.
    pub open spec fn after_cache(self, hit: Option<LyricsView>) -> NextView {
        match hit {
            Some(l) => NextView::Finish(LyricsView { source: l.source + " (cached)"@, ..l }, false),
            None => match self.duration {
                Some(d) => NextView::Get(self.get_query(d.rounded)),
                None => self.search(Title::Full),
            },
        }
    }

    /// What comes after the track was asked for, and answered with `body` or not.
    pub open spec fn after_get(self, body: Option<Seq<u8>>) -> NextView {
        match body {
            Some(b) => match parsed_json(b) {
                Some(entry) => finished(lyrics_of(entry, "lrclib/get"@)),
                None => self.search(Title::Full),
            },
            None => self.search(Title::Full),
        }
    }

    /// The duration to compare the results with.
    pub open spec fn target(self) -> Seconds {
        match self.duration {
            Some(d) => d.seconds,
            None => Seconds { bits: 0 },
        }
    }

    /// What comes after a search was answered with `body`, or not.
    pub open spec fn after_results(self, title: Title, body: Option<Seq<u8>>) -> NextView {
        match body {
            Some(b) => match parsed_json(b) {
                Some(results) => self.after_parsed(title, results),
                None => self.after_search(title),
            },
            None => self.after_search(title),
        }
    }

    /// What comes after a search gave `results`.
    pub open spec fn after_parsed(self, title: Title, results: Json) -> NextView {
        match results.items() {
            Some(items) => if items.len() > 0 {
                NextView::Measure(title, results, self.target(), durations_of(results))
            } else {
                self.after_search(title)
            },
            None => self.after_search(title),
        }
    }

    /// What comes after the results were measured.
    pub open spec fn after_measure(self, title: Title, results: Json, gaps: Seq<u64>) -> NextView {
        match results.items() {
            Some(items) => if items.len() > 0 {
                finished(
                    lyrics_of(items[best_of(items, self.target(), gaps)], search_source(title)),
                )
            } else {
                self.after_search(title)
            },
            None => self.after_search(title),
        }
    }
}

/// The source that the lyrics of a search are marked with.
pub open spec fn search_source(title: Title) -> Seq<char> {
    match title {
        Title::Full => "lrclib/search/full"@,
        Title::Simple => "lrclib/search/simple"@,
    }
}

/// The end of a search that found an entry.
pub open spec fn finished(l: LyricsView) -> NextView {
    NextView::Finish(l, worth_caching(l))
}

/// The end of a search that was answered with the entry of the track.
pub fn found_entry(v: &serde_json::Value) -> (r: Next)
    ensures
        r@ == finished(lyrics_of(json_of(*v), "lrclib/get"@)),
{
    let (lyrics, store) = cache_and_return(from_lrclib(v, "lrclib/get"));
    Next::Finish { lyrics, store }
}

/// What a search is about, by what the player shows of the track: without the repetitions that
/// a marquee makes.
pub open spec fn shown_track(
    artist: Seq<char>,
    track: Seq<char>,
    album: Option<Seq<char>>,
    duration: Option<Playing>,
) -> FetchView {
    FetchView {
        artist: collapsed(trimmed(artist)),
        track: collapsed(trimmed(track)),
        album: match album {
            Some(a) => Some(collapsed(trimmed(a))),
            None => None,
        },
        duration,
    }
}

/// A name and a value of a query.
fn pair(name: &str, value: &str) -> (r: (String, String))
    ensures
        r.0@ == name@,
        r.1@ == value@,
{
    (name.to_string(), value.to_string())
}

impl LyricsFetch {
    /// A search for the lyrics of a track, by what the player shows of it.
    pub fn new(artist: &str, track: &str, album: Option<&str>, duration: Option<Playing>) -> (r:
        LyricsFetch)
        ensures
            r@ == shown_track(
                artist@,
                track@,
                match album {
                    Some(a) => Some(a@),
                    None => None,
                },
                duration,
            ),
    {
        LyricsFetch {
            artist: undouble(artist),
            track: undouble(track),
            album: match album {
                Some(a) => Some(undouble(a)),
                None => None,
            },
            duration,
        }
    }

    /// The name of the file that holds the lyrics of the track once they were found.
    pub fn cache_file_name(&self) -> (r: String)
        ensures
            r@ == self@.cache_file(),
    {
        proof {
            reveal_strlit("");
            assert(""@ =~= Seq::<char>::empty());
        }
        let artist = lower(self.artist.as_str());
        let track = lower(self.track.as_str());
        let album = match &self.album {
            Some(a) => lower(a.as_str()),
            None => lower(""),
        };
        track_file(artist.as_str(), track.as_str(), album.as_str())
    }

    /// What to do once the cache was read: hand out what it holds, or ask for the track.
    /// A track can be asked for by all that is known of it only where its duration is.
    pub fn cache_read(&self, hit: Option<Lyrics>) -> (r: Next)
        ensures
            r@ == self@.after_cache(
                match hit {
                    Some(l) => Some(l@),
                    None => None,
                },
            ),
    {
        match hit {
            Some(l) => {
                let mut source = l.source;
                source.append(" (cached)");
                Next::Finish {
                    lyrics: Lyrics { synced: l.synced, plain: l.plain, source },
                    store: false,
                }
            },
            None => match self.duration {
                Some(d) => {
                    let mut query: Vec<(String, String)> = Vec::new();
                    query.push(pair("artist_name", self.artist.as_str()));
                    query.push(pair("track_name", self.track.as_str()));
                    let seconds = decimal(d.rounded);
                    query.push(pair("duration", seconds.as_str()));
                    if let Some(al) = &self.album {
                        if !al.as_str().is_empty() {
                            query.push(pair("album_name", al.as_str()));
                        }
                    }
                    assert(query_texts(query@) =~= self@.get_query(d.rounded));
                    Next::Get { query }
                },
                None => self.search(Title::Full),
            },
        }
    }

    /// The search for a title.
    fn search(&self, title: Title) -> (r: Next)
        ensures
            r@ == self@.search(title),
    {
        let text = match title {
            Title::Full => self.track.clone(),
            Title::Simple => simplify_title(self.track.as_str()),
        };
        let mut query: Vec<(String, String)> = Vec::new();
        query.push(pair("track_name", text.as_str()));
        query.push(pair("artist_name", self.artist.as_str()));
        assert(query_texts(query@) =~= seq![
            ("track_name"@, self@.search_title(title)),
            ("artist_name"@, self@.artist),
        ]);
        Next::Search { title, query }
    }

    /// What comes after a search that found nothing.
    fn search_failed(&self, title: Title) -> (r: Next)
        ensures
            r@ == self@.after_search(title),
    {
        if title == Title::Full {
            let simple = simplify_title(self.track.as_str());
            if !same_text(simple.as_str(), self.track.as_str()) && !simple.as_str().is_empty() {
                return self.search(Title::Simple);
            }
        }
        Next::Finish {
            lyrics: Lyrics { synced: None, plain: None, source: "none".to_string() },
            store: false,
        }
    }

    /// What to do once the track was asked for. `body` is the body of the answer, if
    /// there was one and its status was a success.
    pub fn got(&self, body: Option<&[u8]>) -> (r: Next)
        ensures
            r@ == self@.after_get(
                match body {
                    Some(b) => Some(b@),
                    None => None,
                },
            ),
    {
        if let Some(b) = body {
            if let Some(v) = from_slice(b) {
                return found_entry(&v);
            }
        }
        self.search(Title::Full)
    }

    /// What to do once a search was made. `body` is the body of the answer, if there was
    /// one and its status was a success.
    pub fn searched(&self, title: Title, body: Option<&[u8]>) -> (r: Next)
        ensures
            r@ == self@.after_results(
                title,
                match body {
                    Some(b) => Some(b@),
                    None => None,
                },
            ),
    {
        if let Some(b) = body {
            if let Some(v) = from_slice(b) {
                return self.found(title, v);
            }
        }
        self.search_failed(title)
    }

    /// What to do once a search gave `results`.
    pub fn found(&self, title: Title, results: serde_json::Value) -> (r: Next)
        ensures
            r@ == self@.after_parsed(title, json_of(results)),
    {
        let durations = result_durations(&results);
        if durations.len() > 0 {
            let target = match self.duration {
                Some(d) => d.seconds,
                None => Seconds { bits: 0 },
            };
            return Next::Measure { title, results, target, durations };
        }
        self.search_failed(title)
    }

    /// What to do once the results were measured: hand out the lyrics of the best.
    /// `gaps` holds for each result the pattern of the distance of its duration from the
    /// target.
    pub fn measured(&self, title: Title, results: &serde_json::Value, gaps: &Vec<u64>) -> (r: Next)
        requires
            json_of(*results).items() matches Some(items) ==> gaps@.len() == items.len(),
        ensures
            r@ == self@.after_measure(title, json_of(*results), gaps@),
    {
        let duration = match self.duration {
            Some(d) => Some(d.seconds),
            None => None,
        };
        match pick_best(results, duration, gaps) {
            Some(best) => {
                let source = match title {
                    Title::Full => "lrclib/search/full",
                    Title::Simple => "lrclib/search/simple",
                };
                let (lyrics, store) = cache_and_return(from_lrclib(best, source));
                Next::Finish { lyrics, store }
            },
            None => self.search_failed(title),
        }
    }
}

/// Of the first `n` entries, `n` not zero, one is the best.
proof fn lemma_best_of_first(items: Seq<Json>, target: Seconds, gaps: Seq<u64>, n: int) -> (i: int)
    requires
        0 < n <= items.len(),
        gaps.len() == items.len(),
    ensures
        is_best(items.take(n), target, gaps, i),
    decreases n,
{
    let first = items.take(n);
    if n == 1 {
        0
    } else {
        let before = items.take(n - 1);
        let b = lemma_best_of_first(items, target, gaps, n - 1);
        assert forall|j: int| 0 <= j < n - 1 implies before[j] == #[trigger] first[j] by {}
        if ranks_before(
            rank(first[n - 1], target, gaps[n - 1]),
            rank(first[b], target, gaps[b]),
        ) {
            assert forall|j: int| #![trigger first[j]] 0 <= j < n - 1 implies ranks_before(
                rank(first[n - 1], target, gaps[n - 1]),
                rank(first[j], target, gaps[j]),
            ) by {
                let x = before[j];
            }
            n - 1
        } else {
            assert forall|j: int| #![trigger first[j]] 0 <= j < b implies ranks_before(
                rank(first[b], target, gaps[b]),
                rank(first[j], target, gaps[j]),
            ) by {
                let x = before[j];
            }
            assert forall|j: int| #![trigger first[j]] b < j < n implies !ranks_before(
                rank(first[j], target, gaps[j]),
                rank(first[b], target, gaps[b]),
            ) by {
                if j < n - 1 {
                    let x = before[j];
                }
            }
            b
        }
    }
}

/// The best of some results exists and is the only one; it has synced lyrics if any of
/// them has, and of those that are its equals in this none is closer to the target.
pub proof fn law_best_is_synced_and_closest(
    items: Seq<Json>,
    target: Seconds,
    gaps: Seq<u64>,
    j: int,
)
    requires
        gaps.len() == items.len(),
        0 <= j < items.len(),
    ensures
        is_best(items, target, gaps, best_of(items, target, gaps)),
        is_best(items, target, gaps, j) ==> j == best_of(items, target, gaps),
        has_synced(items[j]) ==> has_synced(items[best_of(items, target, gaps)]),
        has_synced(items[j]) == has_synced(items[best_of(items, target, gaps)]) ==> rank(
            items[best_of(items, target, gaps)],
            target,
            gaps[best_of(items, target, gaps)],
        ).1 <= rank(items[j], target, gaps[j]).1,
{
    assert(items.take(items.len() as int) =~= items);
    let i = lemma_best_of_first(items, target, gaps, items.len() as int);
    let b = best_of(items, target, gaps);
    assert(is_best(items, target, gaps, b));
    if is_best(items, target, gaps, j) {
        lemma_best_unique(items, target, gaps, j, b);
    }
    let x = items[j];
}

/// How many steps a search for lyrics can still take.
pub open spec fn steps_left(next: NextView) -> nat {
    match next {
        NextView::Get(_) => 5,
        NextView::Search(Title::Full, _) => 4,
        NextView::Search(Title::Simple, _) => 2,
        NextView::Measure(_, _, _, _) => 1,
        NextView::Finish(_, _) => 0,
    }
}

/// A search for lyrics comes to an end: whatever is answered, each step leaves fewer.
pub proof fn law_fetch_ends(
    f: FetchView,
    hit: Option<LyricsView>,
    body: Option<Seq<u8>>,
    title: Title,
    gaps: Seq<u64>,
)
    ensures
        steps_left(f.after_cache(hit)) <= 5,
        steps_left(f.after_get(body)) < 5,
        steps_left(f.after_results(title, body)) < steps_left(f.search(title)),
        f.after_results(title, body) matches NextView::Measure(t, results, _, _) ==> steps_left(
            f.after_measure(t, results, gaps),
        ) == 0,
{
}

/// Only lyrics that were found are written to the cache: a miss never is, so that it is
/// tried again, and neither is what the cache itself gave.
pub proof fn law_only_found_lyrics_are_stored(
    f: FetchView,
    hit: Option<LyricsView>,
    body: Option<Seq<u8>>,
    title: Title,
    results: Json,
    gaps: Seq<u64>,
)
    ensures
        f.after_cache(hit) matches NextView::Finish(_, store) ==> !store,
        f.after_get(body) matches NextView::Finish(l, store) ==> store == worth_caching(l),
        f.after_results(title, body) matches NextView::Finish(l, store) ==> store == worth_caching(l),
        f.after_measure(title, results, gaps) matches NextView::Finish(l, store) ==> store
            == worth_caching(l),
{
}

/// A cached answer keeps its lyrics and is marked as such, and nothing is asked for.
pub proof fn law_cache_comes_first(f: FetchView, l: LyricsView)
    ensures
        f.after_cache(Some(l)) == NextView::Finish(
            LyricsView { synced: l.synced, plain: l.plain, source: l.source + " (cached)"@ },
            false,
        ),
{
}

/// Lower case is its own lower case, for ASCII texts.
proof fn lemma_lowercase_again(s: Seq<char>)
    requires
        is_ascii_chars(s),
    ensures
        is_ascii_chars(lowercase(s)),
        lowercase(lowercase(s)) == lowercase(s),
{
    let l = lowercase(s);
    assert forall|i: int| 0 <= i < l.len() implies 0 <= #[trigger] l[i] as nat && (l[i] as nat) < 128
        && ascii_lower(l[i]) == l[i] by {
        assert(s[i] as nat <= 127);
        assert(l[i] == ascii_lower(s[i]));
    }
    assert(lowercase(l) =~= l);
}

/// The cache does not tell upper from lower case: a track has the file of the same track
/// in lower case, where its artist, title and album are ASCII.
pub proof fn law_cache_file_ignores_case(f: FetchView)
    requires
        is_ascii_chars(f.artist),
        is_ascii_chars(f.track),
        is_ascii_chars(f.album_text()),
    ensures
        f.cache_file() == (FetchView {
            artist: lowercase(f.artist),
            track: lowercase(f.track),
            album: Some(lowercase(f.album_text())),
            duration: f.duration,
        }).cache_file(),
{
    lemma_lowercase_again(f.artist);
    lemma_lowercase_again(f.track);
    lemma_lowercase_again(f.album_text());
}

/// No lyrics that are taken from an entry are an empty text.
pub proof fn law_no_empty_lyrics(entry: Json, source: Seq<char>)
    ensures
        lyrics_of(entry, source).synced matches Some(s) ==> s.len() > 0,
        lyrics_of(entry, source).plain matches Some(s) ==> s.len() > 0,
{
}

/// The member `key` of an entry is a text, and not an empty one.
pub open spec fn holds_text(entry: Json, key: Seq<char>) -> bool {
    entry.member_text(key) matches Some(t) && t.len() > 0
}

/// An entry is read as it is: each of its two texts is taken unchanged where it is there and not
/// empty, and only there, whatever else the entry holds.
pub proof fn law_entry_is_read(entry: Json, source: Seq<char>)
    ensures
        lyrics_of(entry, source).synced is Some <==> holds_text(entry, "syncedLyrics"@),
        lyrics_of(entry, source).plain is Some <==> holds_text(entry, "plainLyrics"@),
        lyrics_of(entry, source).synced is Some ==> lyrics_of(entry, source).synced == entry.member_text(
            "syncedLyrics"@,
        ),
        lyrics_of(entry, source).plain is Some ==> lyrics_of(entry, source).plain == entry.member_text(
            "plainLyrics"@,
        ),
        lyrics_of(entry, source).source == source,
{
}

/// Synced lyrics come first: if any of the results has a text as its `syncedLyrics` that is not
/// empty, so has the one that is taken, and it is the synced lyrics that are handed out.
pub proof fn law_synced_lyrics_come_first(
    f: FetchView,
    title: Title,
    items: Seq<Json>,
    gaps: Seq<u64>,
    j: int,
)
    requires
        gaps.len() == items.len(),
        0 <= j < items.len(),
        holds_text(items[j], "syncedLyrics"@),
    ensures
        ({
            let best = best_of(items, f.target(), gaps);
            &&& 0 <= best < items.len()
            &&& holds_text(items[best], "syncedLyrics"@)
            &&& f.after_measure(title, Json::Array(items), gaps) matches NextView::Finish(l, store)
                && l.synced == items[best].member_text("syncedLyrics"@) && store
        }),
{
    law_best_is_synced_and_closest(items, f.target(), gaps, j);
}

/// The pattern stands for a number greater than zero.
pub open spec fn counts(bits: u64) -> bool {
    0 < bits <= 0x7ff0_0000_0000_0000
}

/// The duration of an entry is known: it is a number greater than zero.
pub open spec fn is_timed(entry: Json) -> bool {
    entry.member_number("duration"@) matches Some(b) && counts(b)
}

/// Of the results that are equals in having synced lyrics or not, the one that is taken is the
/// closest to the target, and the first of those that are equally close. A result of unknown
/// duration counts as 9999 seconds away, and so does every result where the target is unknown.
pub proof fn law_closest_result_is_taken(items: Seq<Json>, target: Seconds, gaps: Seq<u64>, j: int)
    requires
        gaps.len() == items.len(),
        0 <= j < items.len(),
        holds_text(items[j], "syncedLyrics"@) == holds_text(
            items[best_of(items, target, gaps)],
            "syncedLyrics"@,
        ),
    ensures
        ({
            let best = best_of(items, target, gaps);
            let far = 0x40c3_8780_0000_0000u64;
            let near = if counts(target.bits) && is_timed(items[best]) {
                gaps[best]
            } else {
                far
            };
            let other = if counts(target.bits) && is_timed(items[j]) {
                gaps[j]
            } else {
                far
            };
            &&& near <= other
            &&& near == other ==> best <= j
        }),
{
    let b = best_of(items, target, gaps);
    law_best_is_synced_and_closest(items, target, gaps, j);
    law_positive_numbers(target);
    law_positive_numbers(duration_of(items[j]));
    law_positive_numbers(duration_of(items[b]));
    let x = items[j];
}

/// What is handed out after a search are the texts of the result that is taken, marked with the
/// title that was searched for; it is stored exactly where there is one of them.
pub proof fn law_taken_result_is_handed_out(f: FetchView, title: Title, items: Seq<Json>, gaps: Seq<u64>)
    requires
        items.len() > 0,
    ensures
        f.after_measure(title, Json::Array(items), gaps) matches NextView::Finish(l, store) && {
            let entry = items[best_of(items, f.target(), gaps)];
            &&& l.synced is Some <==> holds_text(entry, "syncedLyrics"@)
            &&& l.synced is Some ==> l.synced == entry.member_text("syncedLyrics"@)
            &&& l.plain is Some <==> holds_text(entry, "plainLyrics"@)
            &&& l.plain is Some ==> l.plain == entry.member_text("plainLyrics"@)
            &&& title == Title::Full ==> l.source == "lrclib/search/full"@
            &&& title == Title::Simple ==> l.source == "lrclib/search/simple"@
            &&& store <==> l.synced is Some || l.plain is Some
        },
        f.duration matches Some(d) ==> f.target() == d.seconds,
        f.duration is None ==> f.target().bits == 0,
{
}

/// What is handed out once the track was asked for are the texts of the entry that was answered;
/// it is stored exactly where there is one of them. Whatever cannot be read counts as no answer.
pub proof fn law_answered_entry_is_handed_out(f: FetchView, body: Seq<u8>)
    ensures
        match parsed_json(body) {
            Some(entry) => f.after_get(Some(body)) matches NextView::Finish(l, store) && {
                &&& l.synced is Some <==> holds_text(entry, "syncedLyrics"@)
                &&& l.synced is Some ==> l.synced == entry.member_text("syncedLyrics"@)
                &&& l.plain is Some <==> holds_text(entry, "plainLyrics"@)
                &&& l.plain is Some ==> l.plain == entry.member_text("plainLyrics"@)
                &&& l.source == "lrclib/get"@
                &&& store <==> l.synced is Some || l.plain is Some
            },
            None => f.after_get(Some(body)) == f.after_get(None),
        },
{
}

/// A track of known duration is asked for by its artist, its title, its duration in whole
/// seconds and its album, where it has one, and by nothing else; one of unknown duration is
/// searched for.
pub proof fn law_track_is_asked_for(f: FetchView)
    ensures
        match f.duration {
            Some(d) => f.after_cache(None) matches NextView::Get(q) && {
                &&& q.contains(("artist_name"@, f.artist))
                &&& q.contains(("track_name"@, f.track))
                &&& q.contains(("duration"@, decimal_int(d.rounded as int)))
                &&& (f.album matches Some(a) && a.len() > 0) ==> q.contains(("album_name"@, f.album->0))
                    && q.len() == 4
                &&& !(f.album matches Some(a) && a.len() > 0) ==> q.len() == 3
            },
            None => f.after_cache(None) == NextView::Search(
                Title::Full,
                seq![("track_name"@, f.track), ("artist_name"@, f.artist)],
            ),
        },
{
    if let Some(d) = f.duration {
        let q = f.get_query(d.rounded);
        assert(q[0] == ("artist_name"@, f.artist));
        assert(q[1] == ("track_name"@, f.track));
        assert(q[2] == ("duration"@, decimal_int(d.rounded as int)));
        if f.album_text().len() > 0 {
            assert(q[3] == ("album_name"@, f.album_text()));
        }
    }
}

/// The searches get looser: after the track itself the full title is searched for, then the
/// simplified one where it is another and not empty, and then no lyrics are handed out, and
/// nothing is stored.
pub proof fn law_searches_get_looser(f: FetchView)
    ensures
        f.after_get(None) == NextView::Search(
            Title::Full,
            seq![("track_name"@, f.track), ("artist_name"@, f.artist)],
        ),
        simplified(f.track) != f.track && simplified(f.track).len() > 0 ==> f.after_results(
            Title::Full,
            None,
        ) == NextView::Search(
            Title::Simple,
            seq![("track_name"@, simplified(f.track)), ("artist_name"@, f.artist)],
        ),
        simplified(f.track) == f.track || simplified(f.track).len() == 0 ==> f.after_results(
            Title::Full,
            None,
        ) == f.after_results(Title::Simple, None),
        f.after_results(Title::Simple, None) == NextView::Finish(
            LyricsView { synced: None, plain: None, source: "none"@ },
            false,
        ),
{
}

/// A search that gave results has them measured against the duration of the track, each by its
/// own duration; one that gave none, or nothing that can be read, counts as unanswered.
pub proof fn law_results_are_measured(f: FetchView, title: Title, body: Seq<u8>, items: Seq<Json>)
    ensures
        parsed_json(body) is None ==> f.after_results(title, Some(body)) == f.after_results(title, None),
        parsed_json(body) matches Some(j) && (j !is Array || j->Array_0.len() == 0) ==> f.after_results(
            title,
            Some(body),
        ) == f.after_results(title, None),
        parsed_json(body) == Some(Json::Array(items)) && items.len() > 0 ==> (f.after_results(
            title,
            Some(body),
        ) matches NextView::Measure(t, results, target, durations) && {
            &&& t == title
            &&& results == Json::Array(items)
            &&& target == match f.duration {
                Some(d) => d.seconds,
                None => Seconds { bits: 0 },
            }
            &&& durations.len() == items.len()
            &&& forall|i: int|
                #![trigger durations[i]]
                0 <= i < items.len() ==> match items[i].member_number("duration"@) {
                    Some(b) => durations[i].bits == b,
                    None => durations[i].bits == 0,
                }
        }),
{
}

/// The cache tells tracks apart: what it knows them by is the same only where artist, title and
/// album are the same, but for upper and lower case.
pub proof fn law_cache_tells_tracks_apart(f: FetchView, g: FetchView)
    requires
        !lowercase(f.artist).contains('|'),
        !lowercase(g.artist).contains('|'),
        !lowercase(f.track).contains('|'),
        !lowercase(g.track).contains('|'),
        f.cache_key() == g.cache_key(),
    ensures
        lowercase(f.artist) == lowercase(g.artist),
        lowercase(f.track) == lowercase(g.track),
        f.album is Some && g.album is Some ==> lowercase(f.album->0) == lowercase(g.album->0),
        f.album is Some && g.album is None ==> lowercase(f.album->0) == lowercase(Seq::empty()),
{
    reveal_strlit("|");
    let bar = seq!['|'];
    assert("|"@ =~= bar);
    let x = lowercase(f.track) + bar + lowercase(f.album_text());
    let y = lowercase(g.track) + bar + lowercase(g.album_text());
    assert(f.cache_key() =~= lowercase(f.artist) + bar + x);
    assert(g.cache_key() =~= lowercase(g.artist) + bar + y);
    lemma_cut_unique(lowercase(f.artist), x, lowercase(g.artist), y, '|');
    lemma_cut_unique(
        lowercase(f.track),
        lowercase(f.album_text()),
        lowercase(g.track),
        lowercase(g.album_text()),
        '|',
    );
}

/// The same track has the same cache file, in whatever case it is written and whatever its
/// duration; a missing album is an empty one.
pub proof fn law_same_track_same_file(f: FetchView, g: FetchView)
    requires
        lowercase(f.artist) == lowercase(g.artist),
        lowercase(f.track) == lowercase(g.track),
        lowercase(f.album_text()) == lowercase(g.album_text()),
    ensures
        f.cache_file() == g.cache_file(),
        f.album is None ==> f.album_text().len() == 0,
        f.album matches Some(a) ==> f.album_text() == a,
{
}

/// A cache file is named by the hash of what the cache knows the track by: sixteen hexadecimal
/// digits that read as the hash, and then ".json".
pub proof fn law_cache_file_is_named_by_hash(key: Seq<char>)
    ensures
        cache_file_of(key).len() == 21,
        read_hex(cache_file_of(key).take(16)) == fnv1a(encode_utf8(key)),
        cache_file_of(key).skip(16) == ".json"@,
{
    reveal_strlit(".json");
    law_hex_read_back(fnv1a(encode_utf8(key)));
    assert(cache_file_of(key).take(16) =~= hex(fnv1a(encode_utf8(key))));
    assert(cache_file_of(key).skip(16) =~= ".json"@);
}

/// A marquee makes no difference: a track of which artist, title and album are shown two to four
/// times over, each as often as it likes, is the track of which they are shown once.
pub proof fn law_marquee_makes_no_difference(
    artist: Seq<char>,
    track: Seq<char>,
    album: Seq<char>,
    duration: Option<Playing>,
    i: nat,
    j: nat,
    k: nat,
)
    requires
        2 <= i <= 4,
        2 <= j <= 4,
        2 <= k <= 4,
        trimmed(artist) == artist,
        trimmed(track) == track,
        trimmed(album) == album,
    ensures
        shown_track(copies(artist, i), copies(track, j), Some(copies(album, k)), duration)
            == shown_track(artist, track, Some(album), duration),
        shown_track(copies(artist, i), copies(track, j), None, duration) == shown_track(
            artist,
            track,
            None,
            duration,
        ),
{
    law_undouble_ignores_copies(artist, i);
    law_undouble_ignores_copies(track, j);
    law_undouble_ignores_copies(album, k);
}

/// A text that is trimmed and is not two to four copies of one part.
pub open spec fn shown_once(s: Seq<char>) -> bool {
    &&& trimmed(s) == s
    &&& forall|part: Seq<char>, k: nat|
        2 <= k <= 4 && part.len() > 0 ==> s != #[trigger] copies(part, k)
}

/// A track that is shown once is searched for as it is shown.
pub proof fn law_track_is_searched_as_shown(
    artist: Seq<char>,
    track: Seq<char>,
    album: Option<Seq<char>>,
    duration: Option<Playing>,
)
    requires
        shown_once(artist),
        shown_once(track),
        album matches Some(a) ==> shown_once(a),
    ensures
        shown_track(artist, track, album, duration) == (FetchView { artist, track, album, duration }),
{
    law_undouble_keeps_the_rest(artist);
    law_undouble_keeps_the_rest(track);
    if let Some(a) = album {
        law_undouble_keeps_the_rest(a);
    }
}

}
