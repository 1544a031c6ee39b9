//! The media session of the system: what its buttons do, and what it is told of the
//! local player and of the network player.

use crate::clock::{elapsed, since, MILLISECOND, SECOND};
use crate::json::{
    as_bool, as_double, from_slice, get, json_of, member_str, parsed_json, Json,
};
use crate::lyrics::{holds_text, not_empty};
use crate::seconds::Seconds;
use crate::text::{lemma_cut_unique, opt_text, same_text};
use crate::upnp::transport_action;
use vstd::prelude::*;

verus! {

/// The buttons of the media session.
#[derive(Clone, Copy, Debug, PartialEq, Eq, Structural)]
pub enum Button {
    Play,
    Pause,
    Toggle,
    Next,
    Previous,
    Stop,
    /// Any other, which does nothing.
    Other,
}

/// Who a command goes to.
#[derive(Clone, Copy, Debug, PartialEq, Eq, Structural)]
pub enum Route {
    /// The web player.
    Engine,
    /// The network player.
    Remote,
}

/// What a button comes to.
#[derive(Debug)]
pub struct Press {
    pub route: Route,
    pub command: String,
    /// The state to show at once, if the button asks for one.
    pub playing: Option<bool>,
}

/// A state to tell the media session.
#[derive(Clone, Copy, Debug)]
pub struct Report {
    pub playing: bool,
    pub position: Seconds,
}

/// What to show of a track.
#[derive(Debug)]
pub struct Metadata {
    pub title: Option<String>,
    pub artist: Option<String>,
    pub album: Option<String>,
    pub cover_url: Option<String>,
}

/// The texts of `Metadata`.
pub struct MetadataView {
    pub title: Option<Seq<char>>,
    pub artist: Option<Seq<char>>,
    pub album: Option<Seq<char>>,
    pub cover_url: Option<Seq<char>>,
}

impl View for Metadata {
    type V = MetadataView;

    open spec fn view(&self) -> MetadataView {
        MetadataView {
            title: opt_text(self.title),
            artist: opt_text(self.artist),
            album: opt_text(self.album),
            cover_url: opt_text(self.cover_url),
        }
    }
}

/// How long the state that a button asked for is not overruled.
pub const GRACE: u64 = 2 * SECOND;

/// How long the position may stand still before the local player counts as paused.
pub const STILL: u64 = 1600 * MILLISECOND;

/// How long a state that did not change is not told again.
pub const REFRESH: u64 = 5 * SECOND;

/// How long the local player must have been idle for the network player to take over.
pub const IDLE: u64 = 3 * SECOND;

/// How far back the local player last moved, and the session was last told of the network
/// player, when the session starts.
pub const LONG_AGO: u64 = 60 * SECOND;

/// The pattern of the lowest double, which no position equals.
pub const NO_POSITION: u64 = 0xffef_ffff_ffff_ffff;

/// The media session.
#[derive(Debug)]
pub struct Session {
    playing: bool,
    grace_until: u64,
    remote_active: bool,
    last_local_move: u64,
    last_position: Seconds,
    last_move: u64,
    last_sent: u64,
    remote_meta: String,
    remote_sent: u64,
}

/// The state of the media session.
pub struct SessionView {
    /// The player in use is playing.
    pub playing: bool,
    /// Until when the state that a button asked for is not overruled.
    pub grace_until: int,
    /// The network player is in use.
    pub remote_active: bool,
    /// When the position of the local player last moved.
    pub last_local_move: int,
    /// The position that the local player last moved to.
    pub last_position: Seconds,
    /// When it moved there, or the session started.
    pub last_move: int,
    /// When the session was last told the state of the local player, or started.
    pub last_sent: int,
    /// The metadata of the network player that the session was last told.
    pub remote_meta: Seq<char>,
    /// When the session was last told the state of the network player.
    pub remote_sent: int,
}

impl View for Session {
    type V = SessionView;

    closed spec fn view(&self) -> SessionView {
        SessionView {
            playing: self.playing,
            grace_until: self.grace_until as int,
            remote_active: self.remote_active,
            last_local_move: self.last_local_move as int,
            last_position: self.last_position,
            last_move: self.last_move as int,
            last_sent: self.last_sent as int,
            remote_meta: self.remote_meta@,
            remote_sent: self.remote_sent as int,
        }
    }
}

/// The command for the web player that a button stands for.
pub open spec fn engine_command(b: Button) -> Seq<char> {
    match b {
        Button::Play => "play"@,
        Button::Pause => "pause"@,
        Button::Toggle => "toggle"@,
        Button::Next => "skip"@,
        Button::Previous => "replay"@,
        Button::Stop => "pause"@,
        Button::Other => ""@,
    }
}

/// The command for the network player that a button stands for while `playing`.
pub open spec fn remote_command(b: Button, playing: bool) -> Seq<char> {
    match b {
        Button::Play => "play"@,
        Button::Pause => "pause"@,
        Button::Toggle => if playing {
            "pause"@
        } else {
            "play"@
        },
        Button::Next => "skip"@,
        Button::Previous => "prev"@,
        Button::Stop => "pause"@,
        Button::Other => ""@,
    }
}

/// The state that a button asks for while `playing`.
pub open spec fn asked_state(b: Button, playing: bool) -> Option<bool> {
    match b {
        Button::Play => Some(true),
        Button::Pause => Some(false),
        Button::Toggle => Some(!playing),
        Button::Next => None,
        Button::Previous => None,
        Button::Stop => Some(false),
        Button::Other => None,
    }
}

/// A text, or an empty one.
pub open spec fn or_empty(s: Option<Seq<char>>) -> Seq<char> {
    match s {
        Some(t) => t,
        None => Seq::empty(),
    }
}

/// What is shown of the track that the web player tells by `j`: empty texts are left out,
/// and the second picture is shown before the first.
pub open spec fn local_metadata_of(j: Json) -> MetadataView {
    MetadataView {
        title: not_empty(j.member_text("title"@)),
        artist: not_empty(j.member_text("artist"@)),
        album: not_empty(j.member_text("album"@)),
        cover_url: match not_empty(j.member_text("artFallback"@)) {
            Some(u) => Some(u),
            None => not_empty(j.member_text("art"@)),
        },
    }
}

/// What is shown of the track that the network player tells by `j`.
pub open spec fn remote_metadata_of(j: Json) -> MetadataView {
    MetadataView {
        title: not_empty(j.member_text("title"@)),
        artist: not_empty(j.member_text("artist"@)),
        album: not_empty(j.member_text("album"@)),
        cover_url: not_empty(j.member_text("art"@)),
    }
}

/// What the metadata of the network player are known by.
pub open spec fn remote_key(j: Json) -> Seq<char> {
    or_empty(j.member_text("title"@)) + "|"@ + or_empty(j.member_text("artist"@)) + "|"@ + or_empty(
        j.member_text("album"@),
    ) + "|"@ + or_empty(j.member_text("art"@))
}

/// The position that a player tells by `j`; zero where it tells none.
pub open spec fn position_of(j: Json) -> Seconds {
    Seconds {
        bits: match j.member_number("position"@) {
            Some(b) => b,
            None => 0,
        },
    }
}

/// The network player tells by `j` that it is playing.
pub open spec fn tells_playing(j: Json) -> bool {
    j.member_truth("playing"@) == Some(true)
}

impl SessionView {
    /// Who the buttons go to.
    pub open spec fn route(self) -> Route {
        if self.remote_active {
            Route::Remote
        } else {
            Route::Engine
        }
    }

    /// The command that a button stands for.
    pub open spec fn command(self, b: Button) -> Seq<char> {
        match self.route() {
            Route::Remote => remote_command(b, self.playing),
            Route::Engine => engine_command(b),
        }
    }

    /// The session once a button was pressed.
    pub open spec fn after_press(self, b: Button, now: int) -> SessionView {
        match asked_state(b, self.playing) {
            Some(p) => SessionView { playing: p, grace_until: now + GRACE, ..self },
            None => self,
        }
    }

    /// Whether the local player is playing, by its position alone: it is if the position
    /// moved, and is not if it has stood still for long.
    pub open spec fn seen_playing(self, moved: bool, now: int) -> bool {
        if moved {
            true
        } else if since(now, self.last_move) > STILL {
            false
        } else {
            self.playing
        }
    }

    /// The session once the local player told a position.
    pub open spec fn noted(self, position: Seconds, moved: bool, now: int) -> SessionView {
        if moved {
            SessionView { last_position: position, last_move: now, last_local_move: now, ..self }
        } else {
            self
        }
    }

    /// Whether the local player counts as playing: what a button asked for is not
    /// overruled for a while.
    pub open spec fn judged_playing(self, moved: bool, now: int) -> bool {
        if now < self.grace_until {
            self.playing
        } else {
            self.seen_playing(moved, now)
        }
    }

    /// A position of the local player is told to the session: its state changed, or was
    /// last told too long ago, and the network player is not in use.
    pub open spec fn reports(self, moved: bool, now: int) -> bool {
        &&& !self.remote_active
        &&& (self.judged_playing(moved, now) != self.playing || since(now, self.last_sent) > REFRESH)
    }

    /// What a position of the local player brings: the session after it, and what to tell
    /// of it.
    pub open spec fn after_playhead(self, position: Seconds, moved: bool, now: int) -> (
        SessionView,
        Option<Report>,
    ) {
        let noted = self.noted(position, moved, now);
        if self.reports(moved, now) {
            let playing = self.judged_playing(moved, now);
            (SessionView { playing, last_sent: now, ..noted }, Some(Report { playing, position }))
        } else {
            (noted, None)
        }
    }

    /// The network player is in use, by what it tells and by how long the local player
    /// has been idle: it plays something with a title, and the local player has not moved
    /// lately.
    pub open spec fn remote_takes_over(self, j: Json, seen: int) -> bool {
        &&& tells_playing(j)
        &&& or_empty(j.member_text("title"@)).len() > 0
        &&& since(seen, self.last_local_move) >= IDLE
    }

    /// What the state of the network player is told for: it starts to play or to be in
    /// use, or its state was last told too long ago. For a while after a button it is not
    /// told that it plays.
    pub open spec fn remote_reports(self, now: int) -> bool {
        &&& self.playing || now >= self.grace_until
        &&& !self.playing || !self.remote_active || since(now, self.remote_sent) > REFRESH
    }

    /// What the state `j` of the network player brings: the session after it, and the
    /// metadata and the state to tell. `seen` is the time at which the local player is
    /// judged, and `now` that at which the state is told.
    pub open spec fn after_remote(self, j: Json, seen: int, now: int) -> (
        SessionView,
        Option<MetadataView>,
        Option<Report>,
    ) {
        if !self.remote_takes_over(j, seen) {
            (
                SessionView {
                    remote_active: false,
                    remote_meta: if self.remote_active {
                        Seq::empty()
                    } else {
                        self.remote_meta
                    },
                    ..self
                },
                None,
                None,
            )
        } else {
            let meta = if self.remote_meta != remote_key(j) {
                Some(remote_metadata_of(j))
            } else {
                None
            };
            let known = SessionView { remote_active: true, remote_meta: remote_key(j), ..self };
            if self.remote_reports(now) {
                (
                    SessionView { playing: true, remote_sent: now, ..known },
                    meta,
                    Some(Report { playing: true, position: position_of(j) }),
                )
            } else {
                (known, meta, None)
            }
        }
    }
}

/// The text of the member `key`, or an empty one.
fn member_or_empty(v: &serde_json::Value, key: &str) -> (r: String)
    ensures
        r@ == or_empty(json_of(*v).member_text(key@)),
{
    match member_str(v, key) {
        Some(s) => s.to_string(),
        None => String::new(),
    }
}

/// The text of the member `key`, if there is one and it is not empty.
fn member_not_empty(v: &serde_json::Value, key: &str) -> (r: Option<String>)
    ensures
        opt_text(r) == not_empty(json_of(*v).member_text(key@)),
{
    match member_str(v, key) {
        Some(s) => if s.is_empty() {
            None
        } else {
            Some(s.to_string())
        },
        None => None,
    }
}

/// The position that a player tells; zero where it tells none.
pub fn position_in(v: &serde_json::Value) -> (r: Seconds)
    ensures
        r == position_of(json_of(*v)),
{
    match get(v, "position") {
        Some(p) => match as_double(p) {
            Some(bits) => Seconds { bits },
            None => Seconds { bits: 0 },
        },
        None => Seconds { bits: 0 },
    }
}

/// The position in an event of the local player; nothing where the event cannot be read.
pub fn playhead_position(payload: &[u8]) -> (r: Option<Seconds>)
    ensures
        r == match parsed_json(payload@) {
            Some(j) => Some(position_of(j)),
            None => None,
        },
{
    match from_slice(payload) {
        Some(v) => Some(position_in(&v)),
        None => None,
    }
}

/// What is shown of the track that the web player tells.
pub fn local_metadata(v: &serde_json::Value) -> (r: Metadata)
    ensures
        r@ == local_metadata_of(json_of(*v)),
{
    let cover_url = match member_not_empty(v, "artFallback") {
        Some(u) => Some(u),
        None => member_not_empty(v, "art"),
    };
    Metadata {
        title: member_not_empty(v, "title"),
        artist: member_not_empty(v, "artist"),
        album: member_not_empty(v, "album"),
        cover_url,
    }
}

/// The view of metadata that may be missing.
pub open spec fn opt_metadata(m: Option<Metadata>) -> Option<MetadataView> {
    match m {
        Some(m) => Some(m@),
        None => None,
    }
}

impl Session {
    /// A session that starts at `now`.
    pub fn new(now: u64) -> (r: Session)
        requires
            now >= LONG_AGO,
        ensures
            r@ == (SessionView {
                playing: false,
                grace_until: now as int,
                remote_active: false,
                last_local_move: now - LONG_AGO,
                last_position: Seconds { bits: NO_POSITION },
                last_move: now as int,
                last_sent: now as int,
                remote_meta: Seq::empty(),
                remote_sent: now - LONG_AGO,
            }),
    {
        Session {
            playing: false,
            grace_until: now,
            remote_active: false,
            last_local_move: now - LONG_AGO,
            last_position: Seconds { bits: NO_POSITION },
            last_move: now,
            last_sent: now,
            remote_meta: String::new(),
            remote_sent: now - LONG_AGO,
        }
    }

    /// The position that the local player last moved to.
    pub fn last_position(&self) -> (r: Seconds)
        ensures
            r == self@.last_position,
    {
        self.last_position
    }

    /// A button was pressed: the command to give, and the state to show at once.
    pub fn press(&mut self, b: Button, now: u64) -> (r: Option<Press>)
        requires
            now + GRACE <= u64::MAX,
        ensures
            final(self)@ == old(self)@.after_press(b, now as int),
            r is None <==> b == Button::Other,
            r matches Some(p) ==> {
                &&& p.route == old(self)@.route()
                &&& p.command@ == old(self)@.command(b)
                &&& p.playing == asked_state(b, old(self)@.playing)
            },
    {
        let cur = self.playing;
        let (engine, remote, desired): (&str, &str, Option<bool>) = match b {
            Button::Play => ("play", "play", Some(true)),
            Button::Pause => ("pause", "pause", Some(false)),
            Button::Toggle => (
                "toggle",
                if cur {
                    "pause"
                } else {
                    "play"
                },
                Some(!cur),
            ),
            Button::Next => ("skip", "skip", None),
            Button::Previous => ("replay", "prev", None),
            Button::Stop => ("pause", "pause", Some(false)),
            Button::Other => {
                return None;
            },
        };
        let (route, command) = if self.remote_active {
            (Route::Remote, remote.to_string())
        } else {
            (Route::Engine, engine.to_string())
        };
        if let Some(p) = desired {
            self.playing = p;
            self.grace_until = now + GRACE;
        }
        Some(Press { route, command, playing: desired })
    }

    /// The web player told of a track: what to show of it, unless the network player is in
    /// use or the event cannot be read.
    pub fn now_playing(&self, payload: &[u8]) -> (r: Option<Metadata>)
        ensures
            opt_metadata(r) == if self@.remote_active {
                None
            } else {
                match parsed_json(payload@) {
                    Some(j) => Some(local_metadata_of(j)),
                    None => None,
                }
            },
    {
        if self.remote_active {
            return None;
        }
        match from_slice(payload) {
            Some(v) => Some(local_metadata(&v)),
            None => None,
        }
    }

    /// The local player told its position. `moved` says whether it is another than
    /// `last_position`. Gives the state to tell the session, if there is one.
    pub fn playhead(&mut self, position: Seconds, moved: bool, now: u64) -> (r: Option<Report>)
        ensures
            (final(self)@, r) == old(self)@.after_playhead(position, moved, now as int),
    {
        let was_playing = self.playing;
        let mut new_playing = was_playing;
        if moved {
            self.last_position = position;
            self.last_move = now;
            self.last_local_move = now;
            new_playing = true;
        } else if elapsed(now, self.last_move) > STILL {
            new_playing = false;
        }
        if self.remote_active {
            return None;
        }
        if now < self.grace_until {
            new_playing = was_playing;
        }
        if new_playing != was_playing || elapsed(now, self.last_sent) > REFRESH {
            self.playing = new_playing;
            self.last_sent = now;
            Some(Report { playing: new_playing, position })
        } else {
            None
        }
    }

    /// The network player told its state: the metadata and the state to tell the session,
    /// where there are any. `seen` is the time at which the local player is judged, and
    /// `now` that at which the state is told.
    pub fn remote_state(&mut self, v: &serde_json::Value, seen: u64, now: u64) -> (r: (
        Option<Metadata>,
        Option<Report>,
    ))
        ensures
            (final(self)@, opt_metadata(r.0), r.1) == old(self)@.after_remote(
                json_of(*v),
                seen as int,
                now as int,
            ),
    {
        let playing = match get(v, "playing") {
            Some(p) => match as_bool(p) {
                Some(b) => b,
                None => false,
            },
            None => false,
        };
        let title = member_or_empty(v, "title");
        let local_recent = elapsed(seen, self.last_local_move) < IDLE;
        let active = playing && !title.as_str().is_empty() && !local_recent;
        let was_active = self.remote_active;
        self.remote_active = active;
        if !active {
            if was_active {
                self.remote_meta = String::new();
            }
            return (None, None);
        }
        let mut key = title;
        key.append("|");
        key.append(member_or_empty(v, "artist").as_str());
        key.append("|");
        key.append(member_or_empty(v, "album").as_str());
        key.append("|");
        key.append(member_or_empty(v, "art").as_str());
        let metadata = if !same_text(self.remote_meta.as_str(), key.as_str()) {
            self.remote_meta = key;
            Some(
                Metadata {
                    title: member_not_empty(v, "title"),
                    artist: member_not_empty(v, "artist"),
                    album: member_not_empty(v, "album"),
                    cover_url: member_not_empty(v, "art"),
                },
            )
        } else {
            None
        };
        let was_playing = self.playing;
        if now < self.grace_until && playing != was_playing {
            return (metadata, None);
        }
        if playing != was_playing || !was_active || elapsed(now, self.remote_sent) > REFRESH {
            self.remote_sent = now;
            self.playing = playing;
            (metadata, Some(Report { playing, position: position_in(v) }))
        } else {
            (metadata, None)
        }
    }

    /// An event of the network player: what it brings, and nothing where it cannot be
    /// read.
    pub fn remote_event(&mut self, payload: &[u8], seen: u64, now: u64) -> (r: (
        Option<Metadata>,
        Option<Report>,
    ))
        ensures
            (final(self)@, opt_metadata(r.0), r.1) == match parsed_json(payload@) {
                Some(j) => old(self)@.after_remote(j, seen as int, now as int),
                None => (old(self)@, None, None),
            },
    {
        match from_slice(payload) {
            Some(v) => self.remote_state(&v, seen, now),
            None => (None, None),
        }
    }
}

/// A button press wins: within its grace, no position that the local player tells, moving
/// or not, changes the state that the button asked for, and what is told of it is that
/// state.
pub proof fn law_button_is_not_overruled(
    s: SessionView,
    b: Button,
    pressed: int,
    position: Seconds,
    moved: bool,
    now: int,
)
    requires
        asked_state(b, s.playing) is Some,
        now < pressed + GRACE,
    ensures
        ({
            let after = s.after_press(b, pressed);
            let (next, report) = after.after_playhead(position, moved, now);
            &&& next.playing == asked_state(b, s.playing)->0
            &&& next.grace_until == pressed + GRACE
            &&& report matches Some(r) ==> r.playing == asked_state(b, s.playing)->0
        }),
{
}

/// A button press wins over the network player too: within its grace, nothing that the
/// network player tells changes the state that the button asked for, and what is told of it
/// is that state.
pub proof fn law_button_holds_for_remote(
    s: SessionView,
    b: Button,
    pressed: int,
    j: Json,
    seen: int,
    now: int,
)
    requires
        asked_state(b, s.playing) is Some,
        now < pressed + GRACE,
    ensures
        ({
            let (next, _, report) = s.after_press(b, pressed).after_remote(j, seen, now);
            &&& next.playing == asked_state(b, s.playing)->0
            &&& next.grace_until == pressed + GRACE
            &&& report matches Some(r) ==> r.playing == asked_state(b, s.playing)->0
        }),
{
}

/// Toggling twice brings back the state before.
pub proof fn law_toggle_twice(s: SessionView, first: int, second: int)
    ensures
        s.after_press(Button::Toggle, first).after_press(Button::Toggle, second).playing == s.playing,
{
}

/// The network player understands what the buttons ask of it: each button but the one for
/// the previous track, which it has no action for, stands for an action, to play where the
/// button asks it to play and to pause where the button asks it to pause.
pub proof fn law_remote_understands_buttons(b: Button, playing: bool)
    requires
        b != Button::Previous,
        b != Button::Other,
    ensures
        transport_action(remote_command(b, playing)) matches Some(a) && {
            &&& asked_state(b, playing) == Some(true) <==> a.0 == "Play"@
            &&& asked_state(b, playing) == Some(false) <==> a.0 == "Pause"@
            &&& asked_state(b, playing) is None <==> a.0 == "Next"@
        },
{
    reveal_strlit("play");
    reveal_strlit("pause");
    reveal_strlit("skip");
    reveal_strlit("Play");
    reveal_strlit("Pause");
    reveal_strlit("Next");
    assert("play"@[0] == 'p' && "skip"@[0] == 's');
    assert("play"@.len() == 4 && "pause"@.len() == 5);
    assert("Play"@[1] == 'l' && "Pause"@[1] == 'a' && "Next"@[1] == 'e');
    assert(transport_action("play"@) == Some(("Play"@, "<Speed>1</Speed>"@)));
    assert(transport_action("pause"@) == Some(("Pause"@, ""@)));
    assert(transport_action("skip"@) == Some(("Next"@, ""@)));
}

/// While the network player is in use the local player is not told of, and the buttons go
/// to the network player; the session still notes when the local player moves.
pub proof fn law_remote_owns_the_session(
    s: SessionView,
    position: Seconds,
    moved: bool,
    now: int,
)
    requires
        s.remote_active,
    ensures
        s.after_playhead(position, moved, now).1 is None,
        s.after_playhead(position, moved, now).0.playing == s.playing,
        s.after_playhead(position, moved, now).0.route() == Route::Remote,
        moved ==> s.after_playhead(position, moved, now).0.last_local_move == now,
{
}

/// The network player takes over only while it plays something with a title and the local
/// player has been idle for three seconds, and whatever it tells within three seconds of a
/// move of the local player hands the session back.
pub proof fn law_local_player_comes_first(
    s: SessionView,
    position: Seconds,
    moved_at: int,
    j: Json,
    seen: int,
    now: int,
)
    requires
        moved_at <= seen < moved_at + IDLE,
    ensures
        ({
            let moved = s.after_playhead(position, true, moved_at).0;
            &&& !moved.after_remote(j, seen, now).0.remote_active
            &&& moved.after_remote(j, seen, now).1 is None
            &&& moved.after_remote(j, seen, now).2 is None
        }),
        s.after_remote(j, seen, now).0.remote_active <==> s.remote_takes_over(j, seen),
{
}

/// The metadata of the network player are told once: a second event with the same, while
/// the player stays in use, brings none.
pub proof fn law_metadata_told_once(s: SessionView, j: Json, seen: int, now: int, later: int, then: int)
    requires
        s.remote_takes_over(j, seen),
    ensures
        s.after_remote(j, seen, now).0.after_remote(j, later, then).1 is None,
{
}

/// The network player is told anew when it comes back into use: once it was not, its
/// metadata are forgotten and it is told to play, unless a button asked otherwise just
/// before.
pub proof fn law_return_is_told(s: SessionView, gone: Json, j: Json, seen: int, now: int, later: int, then: int)
    requires
        s.remote_active,
        !s.remote_takes_over(gone, seen),
        s.remote_takes_over(j, later),
        then >= s.grace_until,
    ensures
        ({
            let (next, meta, report) = s.after_remote(gone, seen, now).0.after_remote(j, later, then);
            &&& next.remote_active
            &&& meta == Some(remote_metadata_of(j))
            &&& report == Some(Report { playing: true, position: position_of(j) })
        }),
{
    reveal_strlit("|");
    assert(remote_key(j).len() > 0);
}

/// The local player is judged by its position alone: once no button holds the state and
/// the network player is not in use, a position that moved makes it play, and one that
/// stood still for more than 1.6 seconds makes it pause.
pub proof fn law_motion_decides(s: SessionView, position: Seconds, moved: bool, now: int)
    requires
        !s.remote_active,
        now >= s.grace_until,
    ensures
        moved ==> s.after_playhead(position, moved, now).0.playing,
        !moved && now - s.last_move > STILL ==> !s.after_playhead(position, moved, now).0.playing,
        !moved && now - s.last_move <= STILL ==> s.after_playhead(position, moved, now).0.playing
            == s.playing,
{
}

/// What the web player tells of a track is shown: its title, its artist and its album where they
/// are texts and not empty, and only then; of its pictures the fallback, or else the other.
pub proof fn law_local_track_is_shown(j: Json)
    ensures
        ({
            let m = local_metadata_of(j);
            &&& m.title is Some <==> holds_text(j, "title"@)
            &&& m.title is Some ==> m.title == j.member_text("title"@)
            &&& m.artist is Some <==> holds_text(j, "artist"@)
            &&& m.artist is Some ==> m.artist == j.member_text("artist"@)
            &&& m.album is Some <==> holds_text(j, "album"@)
            &&& m.album is Some ==> m.album == j.member_text("album"@)
            &&& holds_text(j, "artFallback"@) ==> m.cover_url == j.member_text("artFallback"@)
            &&& !holds_text(j, "artFallback"@) && holds_text(j, "art"@) ==> m.cover_url == j.member_text(
                "art"@,
            )
            &&& !holds_text(j, "artFallback"@) && !holds_text(j, "art"@) ==> m.cover_url is None
        }),
{
}

/// What the network player tells of a track is shown in the same way, with its one picture.
pub proof fn law_remote_track_is_shown(s: SessionView, j: Json, seen: int, now: int)
    ensures
        s.after_remote(j, seen, now).1 matches Some(m) ==> {
            &&& m.title is Some <==> holds_text(j, "title"@)
            &&& m.title is Some ==> m.title == j.member_text("title"@)
            &&& m.artist is Some <==> holds_text(j, "artist"@)
            &&& m.artist is Some ==> m.artist == j.member_text("artist"@)
            &&& m.album is Some <==> holds_text(j, "album"@)
            &&& m.album is Some ==> m.album == j.member_text("album"@)
            &&& m.cover_url is Some <==> holds_text(j, "art"@)
            &&& m.cover_url is Some ==> m.cover_url == j.member_text("art"@)
        },
{
}

/// The network player is in use exactly while it says that it plays, names a title, and the local
/// player has not moved for three seconds.
pub proof fn law_when_remote_takes_over(s: SessionView, j: Json, seen: int, now: int)
    ensures
        s.after_remote(j, seen, now).0.remote_active <==> j.member_truth("playing"@) == Some(true)
            && holds_text(j, "title"@) && seen - s.last_local_move >= 3_000_000_000,
{
}

/// What the network player tells of its state reaches the session when it starts to play, when it
/// comes into use, and every five seconds, but not while a button holds the session paused; it is
/// told with the position that it gives. Nothing is told while it is not in use.
pub proof fn law_remote_state_is_told(s: SessionView, j: Json, seen: int, now: int)
    ensures
        ({
            let (next, meta, report) = s.after_remote(j, seen, now);
            &&& next.remote_active ==> (report is Some <==> (s.playing || now >= s.grace_until) && (!s.playing
                || !s.remote_active || now - s.remote_sent > 5_000_000_000 && now >= s.remote_sent))
            &&& !next.remote_active ==> report is None && meta is None
            &&& report matches Some(r) ==> r.playing && match j.member_number("position"@) {
                Some(b) => r.position.bits == b,
                None => r.position.bits == 0,
            }
            &&& next.playing == (s.playing || report is Some)
            &&& next.remote_sent == if report is Some {
                now
            } else {
                s.remote_sent
            }
            &&& next.grace_until == s.grace_until
            &&& next.last_local_move == s.last_local_move
            &&& next.last_position == s.last_position
            &&& next.last_move == s.last_move
            &&& next.last_sent == s.last_sent
        }),
{
}

/// A new track of the network player is told: where title, artist, album or picture is another
/// than at the event before, and holds none of the bars that they are set apart by, the metadata
/// are told again.
pub proof fn law_new_track_is_told(
    s: SessionView,
    old: Json,
    new: Json,
    seen: int,
    now: int,
    later: int,
    then: int,
)
    requires
        s.after_remote(old, seen, now).0.remote_active,
        s.after_remote(old, seen, now).0.after_remote(new, later, then).0.remote_active,
        forall|key: Seq<char>|
            key == "title"@ || key == "artist"@ || key == "album"@ ==> !(#[trigger] or_empty(
                old.member_text(key),
            )).contains('|') && !or_empty(new.member_text(key)).contains('|'),
        or_empty(old.member_text("title"@)) != or_empty(new.member_text("title"@)) || or_empty(
            old.member_text("artist"@),
        ) != or_empty(new.member_text("artist"@)) || or_empty(old.member_text("album"@)) != or_empty(
            new.member_text("album"@),
        ) || or_empty(old.member_text("art"@)) != or_empty(new.member_text("art"@)),
    ensures
        s.after_remote(old, seen, now).0.after_remote(new, later, then).1 is Some,
{
    reveal_strlit("|");
    let bar = seq!['|'];
    assert("|"@ =~= bar);
    if remote_key(old) == remote_key(new) {
        let t = or_empty(old.member_text("title"@));
        let a = or_empty(old.member_text("artist"@));
        let b = or_empty(old.member_text("album"@));
        let c = or_empty(old.member_text("art"@));
        let u = or_empty(new.member_text("title"@));
        let d = or_empty(new.member_text("artist"@));
        let e = or_empty(new.member_text("album"@));
        let f = or_empty(new.member_text("art"@));
        assert(remote_key(old) =~= t + bar + (a + bar + (b + bar + c)));
        assert(remote_key(new) =~= u + bar + (d + bar + (e + bar + f)));
        lemma_cut_unique(t, a + bar + (b + bar + c), u, d + bar + (e + bar + f), '|');
        lemma_cut_unique(a, b + bar + c, d, e + bar + f, '|');
        lemma_cut_unique(b, c, e, f, '|');
    }
}

/// A text that is missing is an empty one.
pub proof fn law_missing_text_is_empty(t: Seq<char>)
    ensures
        or_empty(Some(t)) == t,
        or_empty(None).len() == 0,
{
}

/// The local player reaches the session when its state changes and every five seconds, unless
/// the network player is in use; it is told as it then is, with the position that it gives. While
/// a button holds the state it does not change.
pub proof fn law_local_state_is_told(s: SessionView, position: Seconds, moved: bool, now: int)
    ensures
        ({
            let (next, report) = s.after_playhead(position, moved, now);
            &&& report is Some <==> !s.remote_active && (next.playing != s.playing || now - s.last_sent
                > 5_000_000_000 && now >= s.last_sent)
            &&& report matches Some(r) ==> r.playing == next.playing && r.position == position
            &&& now < s.grace_until ==> next.playing == s.playing
            &&& next.last_sent == if report is Some {
                now
            } else {
                s.last_sent
            }
            &&& moved ==> next.last_position == position && next.last_move == now && next.last_local_move
                == now
            &&& !moved ==> next.last_position == s.last_position && next.last_move == s.last_move
                && next.last_local_move == s.last_local_move
            &&& next.grace_until == s.grace_until
            &&& next.remote_active == s.remote_active
            &&& next.remote_meta == s.remote_meta
            &&& next.remote_sent == s.remote_sent
        }),
{
}

/// A button sets the state that it is named for, and holds it for two seconds; the buttons for
/// other tracks leave the session as it is.
pub proof fn law_buttons_do_what_they_say(s: SessionView, b: Button, now: int)
    ensures
        ({
            let next = s.after_press(b, now);
            let holds = b == Button::Play || b == Button::Pause || b == Button::Toggle || b == Button::Stop;
            &&& b == Button::Play ==> next.playing
            &&& b == Button::Pause || b == Button::Stop ==> !next.playing
            &&& b == Button::Toggle ==> next.playing == !s.playing
            &&& holds ==> asked_state(b, s.playing) == Some(next.playing)
            &&& holds ==> next.grace_until == now + 2_000_000_000
            &&& !holds ==> asked_state(b, s.playing) is None && next == s
            &&& next == (SessionView { playing: next.playing, grace_until: next.grace_until, ..s })
        }),
{
}

/// The web player is given the command of the button, and the network player the one that brings
/// about the state that the button asks for; the buttons go to the one that is in use.
pub proof fn law_buttons_give_commands(s: SessionView, b: Button)
    requires
        b != Button::Other,
    ensures
        s.remote_active ==> s.route() == Route::Remote,
        !s.remote_active ==> s.route() == Route::Engine,
        s.remote_active && asked_state(b, s.playing) == Some(true) ==> s.command(b) == "play"@,
        s.remote_active && asked_state(b, s.playing) == Some(false) ==> s.command(b) == "pause"@,
        !s.remote_active && b == Button::Play ==> s.command(b) == "play"@,
        !s.remote_active && (b == Button::Pause || b == Button::Stop) ==> s.command(b) == "pause"@,
        !s.remote_active && b == Button::Toggle ==> s.command(b) == "toggle"@,
        b == Button::Next ==> s.command(b) == "skip"@,
        !s.remote_active && b == Button::Previous ==> s.command(b) == "replay"@,
        s.remote_active && b == Button::Previous ==> s.command(b) == "prev"@,
{
}

/// The position that an event tells is the number it holds, and zero where it holds none.
pub proof fn law_position_is_read(j: Json)
    ensures
        j.member_number("position"@) matches Some(b) ==> position_of(j).bits == b,
        j.member_number("position"@) is None ==> position_of(j).bits == 0,
{
}

}
