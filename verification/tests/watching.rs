use jarlid::seconds::Seconds;
use jarlid::upnp::{RemoteCtl, RemoteState, Renderer};
use jarlid::watcher::{
    discovered, is_preferred, next_step, Step, Watcher, FAILURES, POLL_AGAIN, SEARCH_AGAIN,
};

fn renderers(names: &[&str]) -> Vec<Renderer> {
    names
        .iter()
        .map(|n| Renderer { control_url: format!("http://{n}/"), name: n.to_string() })
        .collect()
}

fn chosen(names: &[&str]) -> Option<String> {
    let mut ctl = RemoteCtl::new();
    let any = discovered(&mut ctl, renderers(names));
    assert_eq!(any, !names.is_empty());
    ctl.target.map(|(url, name)| {
        assert_eq!(url, format!("http://{name}/"));
        name
    })
}

#[test]
fn waiting_times() {
    assert_eq!((SEARCH_AGAIN, POLL_AGAIN, FAILURES), (30, 1, 5));
}

#[test]
fn first_renderer_is_taken() {
    assert_eq!(chosen(&["TV"]), Some("TV".to_string()));
    assert_eq!(chosen(&["TV", "Console"]), Some("TV".to_string()));
    assert_eq!(chosen(&[]), None);
}

#[test]
fn last_preferred_renderer_is_taken() {
    assert_eq!(chosen(&["TV", "WiiM Pro", "Console"]), Some("WiiM Pro".to_string()));
    assert_eq!(chosen(&["WiiM 1", "Kitchen SPEAKER", "TV"]), Some("Kitchen SPEAKER".to_string()));
    assert_eq!(chosen(&["WiiM 1", "TV"]), Some("WiiM 1".to_string()));
    assert_eq!(chosen(&["é", "Speaker é"]), Some("Speaker é".to_string()));
    assert!(is_preferred("my wiim"));
    assert!(!is_preferred("WIIM"));
}

#[test]
fn finding_nothing_keeps_the_target() {
    let mut ctl = RemoteCtl { target: Some(("u".to_string(), "n".to_string())) };
    assert!(!discovered(&mut ctl, Vec::new()));
    assert_eq!(ctl.target, Some(("u".to_string(), "n".to_string())));
}

#[test]
fn the_known_renderer_is_polled() {
    let mut ctl = RemoteCtl::new();
    assert!(matches!(next_step(&ctl), Step::Discover));
    discovered(&mut ctl, renderers(&["Den"]));
    match next_step(&ctl) {
        Step::Poll(url, name) => assert_eq!((url.as_str(), name.as_str()), ("http://Den/", "Den")),
        Step::Discover => panic!("a renderer is known"),
    }
}

fn playing(position: f64) -> RemoteState {
    RemoteState {
        device: "Den".to_string(),
        playing: true,
        title: "Song".to_string(),
        position: Seconds { bits: position.to_bits() },
        ..RemoteState::default()
    }
}

#[test]
fn only_changes_are_shown() {
    let mut ctl = RemoteCtl::new();
    discovered(&mut ctl, renderers(&["Den"]));
    let mut w = Watcher::start();
    assert!(w.polled(&mut ctl, Some(RemoteState::default())).is_none());
    let shown = w.polled(&mut ctl, Some(playing(1.0))).unwrap();
    assert!(shown.same(&playing(1.0)));
    assert!(w.polled(&mut ctl, Some(playing(1.0))).is_none());
    assert!(w.polled(&mut ctl, Some(playing(2.0))).is_some());
    assert!(w.polled(&mut ctl, Some(playing(1.0))).is_some());
    assert!(ctl.target.is_some());
}

#[test]
fn five_failures_in_a_row_give_up() {
    let mut ctl = RemoteCtl::new();
    discovered(&mut ctl, renderers(&["Den"]));
    let mut w = Watcher::start();
    w.polled(&mut ctl, Some(playing(1.0)));
    for _ in 0..4 {
        assert!(w.polled(&mut ctl, None).is_none());
        assert!(ctl.target.is_some());
    }
    let shown = w.polled(&mut ctl, None).unwrap();
    assert!(shown.same(&RemoteState::default()));
    assert!(ctl.target.is_none());
    assert!(matches!(next_step(&ctl), Step::Discover));
    // The state before is forgotten, so it is shown again.
    discovered(&mut ctl, renderers(&["Den"]));
    assert!(w.polled(&mut ctl, Some(playing(1.0))).is_some());
}

#[test]
fn an_answer_starts_the_count_anew() {
    let mut ctl = RemoteCtl::new();
    discovered(&mut ctl, renderers(&["Den"]));
    let mut w = Watcher::start();
    for _ in 0..3 {
        for _ in 0..4 {
            assert!(w.polled(&mut ctl, None).is_none());
        }
        assert!(w.polled(&mut ctl, Some(RemoteState::default())).is_none());
    }
    assert!(ctl.target.is_some());
}
