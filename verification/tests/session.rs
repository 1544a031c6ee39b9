use jarlid::clock::{MILLISECOND, SECOND};
use jarlid::media::{
    local_metadata, playhead_position, position_in, Button, Metadata, Route, Session, GRACE, IDLE,
    LONG_AGO, NO_POSITION, REFRESH, STILL,
};
use jarlid::seconds::Seconds;
use jarlid::upnp::{command, RemoteCtl};

const START: u64 = 1000 * SECOND;

fn seconds(v: f64) -> Seconds {
    Seconds { bits: v.to_bits() }
}

fn shown(m: &Metadata) -> (Option<&str>, Option<&str>, Option<&str>, Option<&str>) {
    (m.title.as_deref(), m.artist.as_deref(), m.album.as_deref(), m.cover_url.as_deref())
}

const REMOTE: &[u8] =
    br#"{"playing":true,"title":"T","artist":"A","album":"","art":"http://x/","position":12.5}"#;

/// A session in which the network player is in use since `START`.
fn remote_session() -> Session {
    let mut s = Session::new(START);
    s.remote_event(REMOTE, START, START);
    s
}

#[test]
fn durations() {
    assert_eq!(GRACE, 2 * SECOND);
    assert_eq!(STILL, 1600 * MILLISECOND);
    assert_eq!(REFRESH, 5 * SECOND);
    assert_eq!(IDLE, 3 * SECOND);
    assert_eq!(LONG_AGO, 60 * SECOND);
    assert_eq!(NO_POSITION, f64::MIN.to_bits());
    assert_eq!(Session::new(START).last_position().bits, f64::MIN.to_bits());
}

#[test]
fn buttons_drive_the_web_player() {
    for (b, cmd, playing) in [
        (Button::Play, "play", Some(true)),
        (Button::Pause, "pause", Some(false)),
        (Button::Toggle, "toggle", Some(true)),
        (Button::Next, "skip", None),
        (Button::Previous, "replay", None),
        (Button::Stop, "pause", Some(false)),
    ] {
        let p = Session::new(START).press(b, START).unwrap();
        assert_eq!((p.route, p.command.as_str(), p.playing), (Route::Engine, cmd, playing));
    }
    assert!(Session::new(START).press(Button::Other, START).is_none());
}

#[test]
fn buttons_drive_the_network_player() {
    for (b, cmd, playing) in [
        (Button::Play, "play", Some(true)),
        (Button::Pause, "pause", Some(false)),
        (Button::Toggle, "pause", Some(false)),
        (Button::Next, "skip", None),
        (Button::Previous, "prev", None),
        (Button::Stop, "pause", Some(false)),
    ] {
        let p = remote_session().press(b, START).unwrap();
        assert_eq!((p.route, p.command.as_str(), p.playing), (Route::Remote, cmd, playing));
    }
    assert!(remote_session().press(Button::Other, START).is_none());
}

#[test]
fn toggling_alternates() {
    let mut s = Session::new(START);
    assert_eq!(s.press(Button::Toggle, START).unwrap().playing, Some(true));
    assert_eq!(s.press(Button::Toggle, START).unwrap().playing, Some(false));
    let mut s = remote_session();
    assert_eq!(s.press(Button::Toggle, START).unwrap().command, "pause");
    assert_eq!(s.press(Button::Toggle, START).unwrap().command, "play");
}

#[test]
fn the_network_player_understands_the_buttons() {
    let ctl = RemoteCtl { target: Some(("http://x/".to_string(), "Den".to_string())) };
    for (b, action) in [
        (Button::Play, "Play"),
        (Button::Pause, "Pause"),
        (Button::Toggle, "Pause"),
        (Button::Next, "Next"),
        (Button::Stop, "Pause"),
    ] {
        let p = remote_session().press(b, START).unwrap();
        assert_eq!(command(&ctl, &p.command).unwrap().action, action);
    }
    let p = remote_session().press(Button::Previous, START).unwrap();
    assert!(command(&ctl, &p.command).is_err());
}

#[test]
fn motion_decides() {
    let mut s = Session::new(START);
    let r = s.playhead(seconds(1.0), true, START).unwrap();
    assert!(r.playing);
    assert_eq!(r.position.bits, 1.0_f64.to_bits());
    assert_eq!(s.last_position().bits, 1.0_f64.to_bits());
    // Nothing new until the position has stood still for long enough.
    assert!(s.playhead(seconds(1.0), false, START + STILL).is_none());
    let r = s.playhead(seconds(1.02), false, START + STILL + 1).unwrap();
    assert!(!r.playing);
    assert_eq!(r.position.bits, 1.02_f64.to_bits());
    assert_eq!(s.last_position().bits, 1.0_f64.to_bits());
}

#[test]
fn the_state_is_refreshed() {
    let mut s = Session::new(START);
    s.playhead(seconds(1.0), true, START);
    assert!(s.playhead(seconds(2.0), true, START + REFRESH).is_none());
    assert!(s.playhead(seconds(3.0), true, START + REFRESH + 1).unwrap().playing);
    assert!(s.playhead(seconds(4.0), true, START + 2 * REFRESH).is_none());
}

#[test]
fn a_button_is_not_overruled_by_the_position() {
    let mut s = Session::new(START);
    s.playhead(seconds(1.0), true, START);
    s.press(Button::Pause, START + SECOND);
    assert!(s.playhead(seconds(2.0), true, START + SECOND).is_none());
    assert!(s.playhead(seconds(3.0), true, START + SECOND + GRACE - 1).is_none());
    assert!(s.playhead(seconds(4.0), true, START + SECOND + GRACE).unwrap().playing);
}

#[test]
fn a_button_is_not_overruled_by_the_network_player() {
    let mut s = remote_session();
    s.press(Button::Pause, START + 10 * SECOND);
    let (m, r) = s.remote_event(REMOTE, START + 11 * SECOND, START + 11 * SECOND);
    assert!(m.is_none() && r.is_none());
    let (m, r) = s.remote_event(REMOTE, START + 12 * SECOND, START + 12 * SECOND);
    assert!(m.is_none() && r.unwrap().playing);
}

#[test]
fn the_network_player_takes_over() {
    let mut s = Session::new(START);
    let (m, r) = s.remote_event(REMOTE, START, START);
    assert_eq!(shown(&m.unwrap()), (Some("T"), Some("A"), None, Some("http://x/")));
    let r = r.unwrap();
    assert!(r.playing);
    assert_eq!(r.position.bits, 12.5_f64.to_bits());
    // The local player stays out.
    assert!(s.now_playing(br#"{"title":"Local"}"#).is_none());
    assert!(s.playhead(seconds(0.0), false, START + 10 * SECOND).is_none());
}

#[test]
fn what_keeps_the_network_player_out() {
    for event in [
        br#"{"playing":false,"title":"T"}"#.as_slice(),
        br#"{"playing":true,"title":""}"#,
        br#"{"playing":true}"#,
        br#"{"playing":"true","title":"T"}"#,
        br#"{"title":"T"}"#,
        b"oops",
    ] {
        let mut s = Session::new(START);
        let (m, r) = s.remote_event(event, START, START);
        assert!(m.is_none() && r.is_none());
        assert_eq!(s.press(Button::Next, START).unwrap().route, Route::Engine);
    }
}

#[test]
fn the_local_player_comes_first() {
    let mut s = Session::new(START);
    s.playhead(seconds(1.0), true, START);
    let (m, r) = s.remote_event(REMOTE, START + IDLE - 1, START + IDLE - 1);
    assert!(m.is_none() && r.is_none());
    let (m, _) = s.remote_event(REMOTE, START + IDLE, START + IDLE);
    assert!(m.is_some());
    // It takes the session back once it moves and the network player tells anything.
    s.playhead(seconds(2.0), true, START + 5 * SECOND);
    s.remote_event(REMOTE, START + 6 * SECOND, START + 6 * SECOND);
    assert_eq!(s.press(Button::Next, START + 6 * SECOND).unwrap().route, Route::Engine);
    assert!(s.now_playing(br#"{"title":"Local"}"#).is_some());
}

#[test]
fn metadata_are_told_once() {
    let mut s = remote_session();
    let (m, r) = s.remote_event(REMOTE, START + SECOND, START + SECOND);
    assert!(m.is_none() && r.is_none());
    let other = br#"{"playing":true,"title":"U","artist":"A","album":"","art":"http://x/"}"#;
    let (m, r) = s.remote_event(other, START + 2 * SECOND, START + 2 * SECOND);
    assert_eq!(m.unwrap().title.as_deref(), Some("U"));
    assert!(r.is_none());
}

#[test]
fn the_state_of_the_network_player_is_refreshed() {
    let mut s = remote_session();
    let (_, r) = s.remote_event(REMOTE, START + REFRESH, START + REFRESH);
    assert!(r.is_none());
    let (_, r) = s.remote_event(REMOTE, START + REFRESH, START + REFRESH + 1);
    assert!(r.is_some());
}

#[test]
fn a_return_is_told() {
    let mut s = remote_session();
    s.remote_event(br#"{"playing":false}"#, START + SECOND, START + SECOND);
    let (m, r) = s.remote_event(REMOTE, START + 2 * SECOND, START + 2 * SECOND);
    assert!(m.is_some() && r.unwrap().playing);
}

#[test]
fn unreadable_events_change_nothing() {
    let mut s = remote_session();
    let (m, r) = s.remote_event(b"{", START + SECOND, START + SECOND);
    assert!(m.is_none() && r.is_none());
    assert_eq!(s.press(Button::Next, START + SECOND).unwrap().route, Route::Remote);
    assert!(Session::new(START).now_playing(b"{").is_none());
}

#[test]
fn local_tracks_are_shown() {
    let s = Session::new(START);
    let m = s.now_playing(br#"{"title":"T","artist":"","album":"B","art":"a","artFallback":"f"}"#);
    assert_eq!(shown(&m.unwrap()), (Some("T"), None, Some("B"), Some("f")));
    let m = s.now_playing(br#"{"title":1,"art":"a","artFallback":""}"#);
    assert_eq!(shown(&m.unwrap()), (None, None, None, Some("a")));
    let v = serde_json::from_str("[]").unwrap();
    assert_eq!(shown(&local_metadata(&v)), (None, None, None, None));
}

#[test]
fn positions_are_read() {
    let bits = |s: &[u8]| playhead_position(s).map(|p| f64::from_bits(p.bits));
    assert_eq!(bits(br#"{"position":3.25}"#), Some(3.25));
    assert_eq!(bits(br#"{"position":7}"#), Some(7.0));
    assert_eq!(bits(br#"{"position":"7"}"#), Some(0.0));
    assert_eq!(bits(b"3"), Some(0.0));
    assert_eq!(bits(b""), None);
    let v = serde_json::from_str(r#"{"position":-1}"#).unwrap();
    assert_eq!(position_in(&v).bits, (-1.0_f64).to_bits());
}
