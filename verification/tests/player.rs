use jarlid::clock::{elapsed, MILLISECOND, SECOND};
use jarlid::engine::{
    engine_cmd, show_engine, toggle_engine, GeometrySaver, Watchdog, WindowChange, PLAYER_URL,
};

#[test]
fn commands_become_scripts() {
    assert_eq!(
        engine_cmd("toggle"),
        "window.__PANDORA_BRIDGE__ && window.__PANDORA_BRIDGE__.cmd(\"toggle\");"
    );
    assert_eq!(
        engine_cmd("a\"b\\c\n\u{1}\u{1f}\u{7f}é"),
        "window.__PANDORA_BRIDGE__ && window.__PANDORA_BRIDGE__.cmd(\"a\\\"b\\\\c\\n\\u0001\\u001f\u{7f}é\");"
    );
    assert_eq!(PLAYER_URL, "https://www.pandora.com");
}

#[test]
fn scripts_hold_the_command_as_one_string() {
    let all: String = (0..=0x10ffff).filter_map(char::from_u32).collect();
    for cmd in ["", "\");alert(\"", "\\\"", "\u{8}\u{c}\t\r\n", all.as_str()] {
        let script = engine_cmd(cmd);
        let arg = script
            .strip_prefix("window.__PANDORA_BRIDGE__ && window.__PANDORA_BRIDGE__.cmd(")
            .and_then(|s| s.strip_suffix(");"))
            .unwrap();
        assert_eq!(serde_json::from_str::<String>(arg).unwrap(), cmd);
    }
}

#[test]
fn windows_are_shown_and_hidden() {
    assert_eq!(toggle_engine(true), (WindowChange::Conceal, false));
    assert_eq!(toggle_engine(false), (WindowChange::Reveal, true));
    assert_eq!(show_engine(true), WindowChange::Reveal);
    assert_eq!(show_engine(false), WindowChange::Conceal);
}

#[test]
fn silent_pages_are_noticed() {
    let mut w = Watchdog::new(100 * SECOND);
    assert!(!w.is_silent(130 * SECOND));
    assert!(w.is_silent(130 * SECOND + 1));
    assert_eq!(w.silence(131 * SECOND), 31 * SECOND);
    w.beat(130 * SECOND);
    assert!(!w.is_silent(160 * SECOND));
    assert!(!w.is_silent(0));
    assert!(w.is_silent(u64::MAX));
}

#[test]
fn geometry_is_saved_once_it_settles() {
    let mut g = GeometrySaver::new();
    assert!(!g.due(u64::MAX));
    g.touch(10 * SECOND);
    assert!(!g.due(10 * SECOND + 800 * MILLISECOND));
    g.touch(11 * SECOND);
    assert!(!g.due(11 * SECOND));
    assert!(g.due(11 * SECOND + 800 * MILLISECOND + 1));
    assert!(!g.due(20 * SECOND));
}

#[test]
fn times_do_not_go_below_zero() {
    assert_eq!(elapsed(5, 3), 2);
    assert_eq!(elapsed(3, 5), 0);
}
