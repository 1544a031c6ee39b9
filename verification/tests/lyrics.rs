use jarlid::lyrics::{
    cache_and_return, found_entry, from_lrclib, lyrics_cache_path, pick_best, result_durations,
    track_file, Lyrics, LyricsFetch, Next, Playing, Title, UNKNOWN_GAP,
};
use jarlid::seconds::Seconds;
use serde_json::Value;

fn value(s: &str) -> Value {
    serde_json::from_str(s).unwrap()
}

fn seconds(v: f64) -> Seconds {
    Seconds { bits: v.to_bits() }
}

fn lasting(v: f64) -> Option<Playing> {
    Some(Playing { seconds: seconds(v), rounded: v.round() as i64 })
}

fn gaps(results: &Value, target: f64) -> Vec<u64> {
    result_durations(results)
        .iter()
        .map(|d| (f64::from_bits(d.bits) - target).abs().to_bits())
        .collect()
}

/// The name of the best of some results for a track of this duration.
fn best(results: &str, duration: Option<f64>) -> Option<String> {
    let v = value(results);
    let g = gaps(&v, duration.unwrap_or(0.0));
    pick_best(&v, duration.map(seconds), &g)
        .and_then(|e| e.get("n"))
        .and_then(|n| n.as_str())
        .map(|n| n.to_string())
}

fn some(s: &str) -> Option<String> {
    Some(s.to_string())
}

#[test]
fn entries_are_read() {
    let l = from_lrclib(&value(r#"{"syncedLyrics":"[00:01] a","plainLyrics":"a"}"#), "s");
    assert_eq!((l.synced, l.plain, l.source), (some("[00:01] a"), some("a"), "s".to_string()));
    let l = from_lrclib(&value(r#"{"syncedLyrics":"","plainLyrics":null}"#), "s");
    assert_eq!((l.synced, l.plain), (None, None));
    let l = from_lrclib(&value(r#"{"syncedLyrics":7,"plainLyrics":"é\n"}"#), "");
    assert_eq!((l.synced, l.plain, l.source), (None, some("é\n"), String::new()));
    let l = from_lrclib(&value("[1]"), "s");
    assert_eq!((l.synced, l.plain), (None, None));
}

#[test]
fn no_lyrics_by_default() {
    let l = Lyrics::default();
    assert_eq!((l.synced, l.plain, l.source), (None, None, String::new()));
}

#[test]
fn unknown_distance() {
    assert_eq!(UNKNOWN_GAP, 9999.0_f64.to_bits());
}

#[test]
fn synced_results_come_first() {
    let r = r#"[{"n":"a","duration":100},{"n":"b","syncedLyrics":"x","duration":300},
        {"n":"c","syncedLyrics":"","duration":100}]"#;
    assert_eq!(best(r, Some(100.0)), some("b"));
}

#[test]
fn closest_duration_comes_first() {
    let r = r#"[{"n":"a","syncedLyrics":"x","duration":90},{"n":"b","syncedLyrics":"x","duration":104.5},
        {"n":"c","syncedLyrics":"x","duration":95.4},{"n":"d","duration":100}]"#;
    assert_eq!(best(r, Some(100.0)), some("b"));
    assert_eq!(best(r, Some(95.0)), some("c"));
    assert_eq!(best(r, Some(1.0)), some("a"));
}

#[test]
fn first_of_equals_is_taken() {
    let r = r#"[{"n":"a","duration":99},{"n":"b","duration":101},{"n":"c","duration":99}]"#;
    assert_eq!(best(r, Some(100.0)), some("a"));
    assert_eq!(best(r, None), some("a"));
    assert_eq!(best(r, Some(0.0)), some("a"));
    assert_eq!(best(r, Some(-5.0)), some("a"));
}

#[test]
fn results_without_duration_are_far_away() {
    let r = r#"[{"n":"a"},{"n":"b","duration":9000},{"n":"c","duration":"100"},{"n":"d","duration":-1}]"#;
    assert_eq!(best(r, Some(100.0)), some("b"));
    assert_eq!(best(r#"[{"n":"a","duration":20000},{"n":"b"}]"#, Some(100.0)), some("b"));
}

#[test]
fn no_results() {
    assert_eq!(best("[]", Some(1.0)), None);
    assert!(pick_best(&value("{}"), None, &Vec::new()).is_none());
    assert!(pick_best(&value("null"), None, &vec![1, 2]).is_none());
}

#[test]
fn durations_of_results() {
    let d = result_durations(&value(r#"[{"duration":7},{"duration":1.5},{},3]"#));
    let d: Vec<f64> = d.iter().map(|d| f64::from_bits(d.bits)).collect();
    assert_eq!(d, vec![7.0, 1.5, 0.0, 0.0]);
    assert!(result_durations(&value("1")).is_empty());
}

#[test]
fn cache_files_are_named_by_hash() {
    assert_eq!(lyrics_cache_path(""), "cbf29ce484222325.json");
    assert_eq!(lyrics_cache_path("foobar"), "85944171f73967e8.json");
    assert_eq!(lyrics_cache_path("a"), "af63dc4c8601ec8c.json");
}

#[test]
fn cache_files_ignore_case() {
    let name = |a: &str, t: &str, al: Option<&str>| LyricsFetch::new(a, t, al, None).cache_file_name();
    assert_eq!(name("Queen", "BOHEMIAN", Some("Night")), lyrics_cache_path("queen|bohemian|night"));
    assert_eq!(name("queen", "Bohemian", Some("NIGHT")), lyrics_cache_path("queen|bohemian|night"));
    assert_eq!(name("QueenQueen", " Song ", None), lyrics_cache_path("queen|song|"));
    assert_eq!(name("Queen", "Song", Some("")), lyrics_cache_path("queen|song|"));
    assert_eq!(name("BEYONCÉ", "Halo", None), lyrics_cache_path("beyoncé|halo|"));
    assert_eq!(track_file("queen", "song", "night"), lyrics_cache_path("queen|song|night"));
}

#[test]
fn only_found_lyrics_are_kept() {
    let l = |synced: Option<&str>, plain: Option<&str>| Lyrics {
        synced: synced.map(|s| s.to_string()),
        plain: plain.map(|s| s.to_string()),
        source: "s".to_string(),
    };
    assert!(cache_and_return(l(Some("x"), None)).1);
    assert!(cache_and_return(l(None, Some("x"))).1);
    assert!(!cache_and_return(l(None, None)).1);
    let (same, _) = cache_and_return(l(Some("x"), Some("y")));
    assert_eq!((same.synced, same.plain, same.source), (some("x"), some("y"), "s".to_string()));
}

fn pairs(list: &[(&str, &str)]) -> Vec<(String, String)> {
    list.iter().map(|(a, b)| (a.to_string(), b.to_string())).collect()
}

fn expect_get(next: Next, expected: &[(&str, &str)]) {
    match next {
        Next::Get { query } => assert_eq!(query, pairs(expected)),
        _ => panic!("expected to ask for the track"),
    }
}

fn expect_search(next: Next, expected_title: Title, track: &str, artist: &str) {
    match next {
        Next::Search { title, query } => {
            assert_eq!(title, expected_title);
            assert_eq!(query, pairs(&[("track_name", track), ("artist_name", artist)]));
        }
        _ => panic!("expected to search"),
    }
}

fn expect_finish(next: Next, synced: Option<&str>, plain: Option<&str>, from: &str, stored: bool) {
    match next {
        Next::Finish { lyrics, store } => {
            assert_eq!(lyrics.synced.as_deref(), synced);
            assert_eq!(lyrics.plain.as_deref(), plain);
            assert_eq!(lyrics.source, from);
            assert_eq!(store, stored);
        }
        _ => panic!("expected to finish"),
    }
}

#[test]
fn cached_lyrics_end_the_search() {
    let f = LyricsFetch::new("A", "T", None, lasting(100.0));
    let hit = Lyrics { synced: some("x"), plain: None, source: "lrclib/get".to_string() };
    expect_finish(f.cache_read(Some(hit)), Some("x"), None, "lrclib/get (cached)", false);
}

#[test]
fn the_track_is_asked_for_by_all_that_is_known() {
    let f = LyricsFetch::new("AbcAbc", " T ", Some("Al"), lasting(154.5));
    expect_get(
        f.cache_read(None),
        &[("artist_name", "Abc"), ("track_name", "T"), ("duration", "155"), ("album_name", "Al")],
    );
    for album in [None, Some(""), Some("  ")] {
        let f = LyricsFetch::new("A", "T", album, lasting(-0.6));
        expect_get(
            f.cache_read(None),
            &[("artist_name", "A"), ("track_name", "T"), ("duration", "-1")],
        );
    }
}

#[test]
fn a_track_of_unknown_duration_is_searched_for() {
    let f = LyricsFetch::new("A", "T (Live)", None, None);
    expect_search(f.cache_read(None), Title::Full, "T (Live)", "A");
}

#[test]
fn answers_for_the_track() {
    let f = LyricsFetch::new("A", "T", None, lasting(1.0));
    expect_finish(f.got(Some(br#"{"syncedLyrics":"x"}"#)), Some("x"), None, "lrclib/get", true);
    expect_finish(f.got(Some(br#"{"instrumental":true}"#)), None, None, "lrclib/get", false);
    expect_finish(found_entry(&value(r#"{"plainLyrics":"p"}"#)), None, Some("p"), "lrclib/get", true);
    expect_search(f.got(Some(b"not json")), Title::Full, "T", "A");
    expect_search(f.got(None), Title::Full, "T", "A");
}

#[test]
fn searches_get_looser() {
    let f = LyricsFetch::new("A", "T - Live", None, None);
    expect_search(f.searched(Title::Full, None), Title::Simple, "T", "A");
    expect_search(f.searched(Title::Full, Some(b"[]")), Title::Simple, "T", "A");
    expect_search(f.searched(Title::Full, Some(b"{}")), Title::Simple, "T", "A");
    expect_search(f.searched(Title::Full, Some(b"oops")), Title::Simple, "T", "A");
    expect_finish(f.searched(Title::Simple, Some(b"[]")), None, None, "none", false);
    expect_finish(f.searched(Title::Simple, None), None, None, "none", false);
}

#[test]
fn titles_that_cannot_be_simplified_are_searched_for_once() {
    for track in ["T", "(T)"] {
        let f = LyricsFetch::new("A", track, None, None);
        expect_finish(f.searched(Title::Full, None), None, None, "none", false);
    }
}

#[test]
fn results_are_measured_and_the_best_is_taken() {
    let f = LyricsFetch::new("A", "T", None, lasting(100.0));
    let body = br#"[{"plainLyrics":"p","duration":100},{"syncedLyrics":"s","duration":130}]"#;
    match f.searched(Title::Full, Some(body)) {
        Next::Measure { title, results, target, durations } => {
            assert_eq!(title, Title::Full);
            assert_eq!(target.bits, 100.0_f64.to_bits());
            let d: Vec<f64> = durations.iter().map(|d| f64::from_bits(d.bits)).collect();
            assert_eq!(d, vec![100.0, 130.0]);
            let g = gaps(&results, 100.0);
            expect_finish(
                f.measured(Title::Full, &results, &g),
                Some("s"),
                None,
                "lrclib/search/full",
                true,
            );
            expect_finish(
                f.measured(Title::Simple, &results, &g),
                Some("s"),
                None,
                "lrclib/search/simple",
                true,
            );
        }
        _ => panic!("expected to measure"),
    }
}

#[test]
fn results_that_are_none() {
    let f = LyricsFetch::new("A", "T (x)", None, None);
    expect_search(f.found(Title::Full, value("[]")), Title::Simple, "T", "A");
    expect_search(f.measured(Title::Full, &value("[]"), &Vec::new()), Title::Simple, "T", "A");
    match f.found(Title::Full, value("[{}]")) {
        Next::Measure { target, .. } => assert_eq!(target.bits, 0),
        _ => panic!("expected to measure"),
    }
}

#[test]
fn searches_end() {
    let f = LyricsFetch::new("A", "T (x)", None, lasting(1.0));
    let mut next = f.cache_read(None);
    let mut steps = 0;
    loop {
        next = match next {
            Next::Get { .. } => f.got(None),
            Next::Search { title, .. } => f.searched(title, None),
            Next::Measure { .. } => panic!("nothing to measure"),
            Next::Finish { .. } => break,
        };
        steps += 1;
    }
    assert_eq!(steps, 3);
}
