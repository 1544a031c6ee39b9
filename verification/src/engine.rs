//! The web player and the windows: driving the player, keeping it alive, and showing and
//! keeping its windows.

use crate::clock::{elapsed, since, MILLISECOND, SECOND};
use crate::digits::digit;
use crate::text::opt_text;
use vstd::prelude::*;

verus! {

/// The address of the web player.
pub const PLAYER_URL: &'static str = "https://www.pandora.com";

/// How a JSON string writes a character.
pub open spec fn json_char(c: char) -> Seq<char> {
    if c == '"' {
        seq!['\\', '"']
    } else if c == '\\' {
        seq!['\\', '\\']
    } else if c == '\u{8}' {
        seq!['\\', 'b']
    } else if c == '\t' {
        seq!['\\', 't']
    } else if c == '\n' {
        seq!['\\', 'n']
    } else if c == '\u{c}' {
        seq!['\\', 'f']
    } else if c == '\r' {
        seq!['\\', 'r']
    } else if c <= '\u{1f}' {
        seq!['\\', 'u', '0', '0', digit(c as int / 16), digit(c as int % 16)]
    } else {
        seq![c]
    }
}

/// How a JSON string writes a text, without its quotes.
pub open spec fn json_chars(s: Seq<char>) -> Seq<char>
    decreases s.len(),
{
    if s.len() == 0 {
        Seq::empty()
    } else {
        json_char(s.first()) + json_chars(s.drop_first())
    }
}

/// A text as a JSON string.
pub open spec fn json_string(s: Seq<char>) -> Seq<char> {
    seq!['"'] + json_chars(s) + seq!['"']
}

/// `serde_json::to_string` of a text: a JSON string in which the quote, the backslash and
/// the control characters below the blank are escaped and nothing else is. It never
/// reports an error for a text.
#[verifier::external_body]
fn to_json(s: &str) -> (r: Option<String>)
    ensures
        opt_text(r) == Some(json_string(s@)),
{
    serde_json::to_string(s).ok()
}

/// The script that hands a command to the web player.
pub open spec fn script(cmd: Seq<char>) -> Seq<char> {
    "window.__PANDORA_BRIDGE__ && window.__PANDORA_BRIDGE__.cmd("@ + json_string(cmd) + ");"@
}

/// The script that drives the web player by calling the bridge in its page.
pub fn engine_cmd(cmd: &str) -> (r: String)
    ensures
        r@ == script(cmd@),
{
    let arg = match to_json(cmd) {
        Some(a) => a,
        None => "\"\"".to_string(),
    };
    let mut js = "window.__PANDORA_BRIDGE__ && window.__PANDORA_BRIDGE__.cmd(".to_string();
    js.append(arg.as_str());
    js.append(");");
    js
}

/// What to do with a window.
#[derive(Clone, Copy, Debug, PartialEq, Eq, Structural)]
pub enum WindowChange {
    /// Show it and give it the focus.
    Reveal,
    /// Hide it.
    Conceal,
}

/// Toggle the engine window's visibility: what to do with it, and whether it is visible
/// then.
pub fn toggle_engine(visible: bool) -> (r: (WindowChange, bool))
    ensures
        r.0 == if visible {
            WindowChange::Conceal
        } else {
            WindowChange::Reveal
        },
        r.1 == !visible,
{
    (show_engine(!visible), !visible)
}

/// Show or hide the raw engine window (used for login and debugging).
pub fn show_engine(visible: bool) -> (r: WindowChange)
    ensures
        r == if visible {
            WindowChange::Reveal
        } else {
            WindowChange::Conceal
        },
{
    if visible {
        WindowChange::Reveal
    } else {
        WindowChange::Conceal
    }
}

/// How long the page of the web player may be silent before it is loaded again.
pub const SILENCE: u64 = 30 * SECOND;

/// A page that was last heard of, or loaded, at `beat` has been silent for too long.
pub open spec fn silent(beat: int, now: int) -> bool {
    since(now, beat) > SILENCE
}

/// Watches over the page of the web player, which sends a heartbeat.
#[derive(Debug)]
pub struct Watchdog {
    last_beat: u64,
}

impl View for Watchdog {
    type V = int;

    /// When the page was last heard of, or loaded.
    closed spec fn view(&self) -> int {
        self.last_beat as int
    }
}

impl Watchdog {
    /// The page was loaded at `now`.
    pub fn new(now: u64) -> (r: Watchdog)
        ensures
            r@ == now,
    {
        Watchdog { last_beat: now }
    }

    /// The page was heard of, or loaded again, at `now`.
    pub fn beat(&mut self, now: u64)
        ensures
            final(self)@ == now,
    {
        self.last_beat = now;
    }

    /// How long the page has been silent.
    pub fn silence(&self, now: u64) -> (r: u64)
        ensures
            r == since(now as int, self@),
    {
        elapsed(now, self.last_beat)
    }

    /// Whether the page has been silent for so long that it is to be loaded again.
    pub fn is_silent(&self, now: u64) -> (r: bool)
        ensures
            r == silent(self@, now as int),
    {
        self.silence(now) > SILENCE
    }
}

/// How long the geometry of a window must have been left alone before it is saved.
pub const SETTLED: u64 = 800 * MILLISECOND;

/// A geometry that last changed at `dirty`, if it has changed since it was saved, is to be
/// saved.
pub open spec fn settled(dirty: Option<int>, now: int) -> bool {
    dirty matches Some(t) && since(now, t) > SETTLED
}

/// When a geometry last changed that is still not saved, once it was asked whether to save
/// it.
pub open spec fn unsaved(dirty: Option<int>, now: int) -> Option<int> {
    if settled(dirty, now) {
        None
    } else {
        dirty
    }
}

/// Saves the geometry of a window once it has settled.
#[derive(Debug)]
pub struct GeometrySaver {
    dirty: Option<u64>,
}

impl View for GeometrySaver {
    type V = Option<int>;

    /// When the geometry last changed, if it has changed since it was saved.
    closed spec fn view(&self) -> Option<int> {
        match self.dirty {
            Some(t) => Some(t as int),
            None => None,
        }
    }
}

impl GeometrySaver {
    /// Nothing is to be saved yet.
    pub fn new() -> (r: GeometrySaver)
        ensures
            r@ is None,
    {
        GeometrySaver { dirty: None }
    }

    /// The window was moved or resized at `now`.
    pub fn touch(&mut self, now: u64)
        ensures
            final(self)@ == Some(now as int),
    {
        self.dirty = Some(now);
    }

    /// Whether to save the geometry now. Where it says so, there is nothing more to save.
    pub fn due(&mut self, now: u64) -> (r: bool)
        ensures
            r == settled(old(self)@, now as int),
            final(self)@ == unsaved(old(self)@, now as int),
    {
        match self.dirty {
            Some(t) => if elapsed(now, t) > SETTLED {
                self.dirty = None;
                true
            } else {
                false
            },
            None => false,
        }
    }
}

/// A page is loaded again exactly when it has not been heard of for more than 30 seconds;
/// a heartbeat, or loading it again, starts the count anew.
pub proof fn law_silent_page_is_reloaded(beat: int, now: int)
    ensures
        silent(beat, now) <==> now > beat + 30 * SECOND,
        !silent(now, now),
{
}

/// A change of the geometry is saved once, and not before it has settled: while it has not,
/// it stays to be saved; once it was saved, nothing is until the next change.
pub proof fn law_geometry_saved_once(dirty: Option<int>, now: int, later: int)
    ensures
        settled(dirty, now) <==> dirty is Some && now > dirty->0 + 800 * MILLISECOND,
        settled(dirty, now) ==> !settled(unsaved(dirty, now), later),
        !settled(dirty, now) ==> unsaved(dirty, now) == dirty,
{
}

/// The value of a hexadecimal digit.
pub open spec fn hex_value(c: char) -> Option<int> {
    if '0' <= c <= '9' {
        Some(c as int - '0' as int)
    } else if 'a' <= c <= 'f' {
        Some(c as int - 'a' as int + 10)
    } else if 'A' <= c <= 'F' {
        Some(c as int - 'A' as int + 10)
    } else {
        None
    }
}

/// The character that four hexadecimal digits stand for, where they stand for one.
pub open spec fn hex_char(a: char, b: char, c: char, d: char) -> Option<char> {
    match (hex_value(a), hex_value(b), hex_value(c), hex_value(d)) {
        (Some(w), Some(x), Some(y), Some(z)) => {
            let v = w * 4096 + x * 256 + y * 16 + z;
            if 0xd800 <= v <= 0xdfff {
                None
            } else {
                Some(v as char)
            }
        },
        _ => None,
    }
}

/// The character that a letter after a backslash stands for.
pub open spec fn short_escape(c: char) -> Option<char> {
    if c == '"' || c == '\\' || c == '/' {
        Some(c)
    } else if c == 'b' {
        Some('\u{8}')
    } else if c == 't' {
        Some('\t')
    } else if c == 'n' {
        Some('\n')
    } else if c == 'f' {
        Some('\u{c}')
    } else if c == 'r' {
        Some('\r')
    } else {
        None
    }
}

/// The text that a JSON string of single characters and escapes stands for, without its
/// quotes. There is none where a quote or a control character stands in it as it is, or an
/// escape is not complete.
pub open spec fn read_json_chars(t: Seq<char>) -> Option<Seq<char>>
    decreases t.len(),
{
    if t.len() == 0 {
        Some(Seq::empty())
    } else if t[0] == '\\' {
        if t.len() >= 6 && t[1] == 'u' {
            match (hex_char(t[2], t[3], t[4], t[5]), read_json_chars(t.skip(6))) {
                (Some(c), Some(rest)) => Some(seq![c] + rest),
                _ => None,
            }
        } else if t.len() >= 2 {
            match (short_escape(t[1]), read_json_chars(t.skip(2))) {
                (Some(c), Some(rest)) => Some(seq![c] + rest),
                _ => None,
            }
        } else {
            None
        }
    } else if t[0] == '"' || t[0] <= '\u{1f}' {
        None
    } else {
        match read_json_chars(t.skip(1)) {
            Some(rest) => Some(seq![t[0]] + rest),
            None => None,
        }
    }
}

/// A control character is the one that its two digits stand for.
proof fn lemma_control_char(c: char)
    requires
        c <= '\u{1f}',
    ensures
        hex_char('0', '0', digit(c as int / 16), digit(c as int % 16)) == Some(c),
{
    let y = c as int / 16;
    let z = c as int % 16;
    assert(0 <= y < 2 && 0 <= z < 16);
    assert(hex_value(digit(y)) == Some(y));
    assert(hex_value(digit(z)) == Some(z));
    assert(hex_value('0') == Some(0int));
}

/// The web player gets the command that was given: the argument in the script is one
/// string literal, which nothing in the command can end, and it reads as the command.
pub proof fn law_command_read_back(cmd: Seq<char>)
    ensures
        read_json_chars(json_chars(cmd)) == Some(cmd),
    decreases cmd.len(),
{
    if cmd.len() > 0 {
        let c = cmd.first();
        let rest = json_chars(cmd.drop_first());
        law_command_read_back(cmd.drop_first());
        let t = json_chars(cmd);
        let n = json_char(c).len() as int;
        assert(t =~= json_char(c) + rest);
        assert(t.skip(n) =~= rest);
        assert(cmd =~= seq![c] + cmd.drop_first());
        if n == 6 {
            lemma_control_char(c);
            assert(t[1] == 'u' && t[2] == '0' && t[3] == '0');
            assert(t[4] == digit(c as int / 16) && t[5] == digit(c as int % 16));
            assert(hex_char(t[2], t[3], t[4], t[5]) == Some(c));
        }
    } else {
        assert(cmd =~= Seq::empty());
    }
}

/// The script calls the bridge, if it is there, with one string literal that reads as the
/// command.
pub proof fn law_script_calls_the_bridge(cmd: Seq<char>) -> (arg: Seq<char>)
    ensures
        script(cmd) == "window.__PANDORA_BRIDGE__ && window.__PANDORA_BRIDGE__.cmd("@ + seq!['"'] + arg
            + seq!['"'] + ");"@,
        read_json_chars(arg) == Some(cmd),
{
    law_command_read_back(cmd);
    let arg = json_chars(cmd);
    let head = "window.__PANDORA_BRIDGE__ && window.__PANDORA_BRIDGE__.cmd("@;
    assert(script(cmd) =~= head + seq!['"'] + arg + seq!['"'] + ");"@);
    arg
}

}
