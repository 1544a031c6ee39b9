//! Network players: what to say to a media renderer, and how to read what it answers.

use crate::seconds::Seconds;
use crate::text::{
    chars_of, contains, first_at, has_text, occurs_at, same_text, split, split_on, texts,
};
use crate::url::{join, joined_url};
use crate::xml::{
    content, escaped, law_plain_element_is_found, law_unescape_undoes_escape, tag_content, unescaped,
    xml_unescape,
};
use vstd::prelude::*;

verus! {

/// The service that a renderer is controlled through.
pub const AVT: &'static str = "urn:schemas-upnp-org:service:AVTransport:1";

/// What a network player is doing.
#[derive(Debug)]
pub struct RemoteState {
    pub device: String,
    pub playing: bool,
    pub title: String,
    pub artist: String,
    pub album: String,
    pub art: String,
    pub position: Seconds,
    pub duration: Seconds,
}

/// The texts and values of `RemoteState`.
pub struct RemoteView {
    pub device: Seq<char>,
    pub playing: bool,
    pub title: Seq<char>,
    pub artist: Seq<char>,
    pub album: Seq<char>,
    pub art: Seq<char>,
    pub position: Seconds,
    pub duration: Seconds,
}

impl View for RemoteState {
    type V = RemoteView;

    open spec fn view(&self) -> RemoteView {
        RemoteView {
            device: self.device@,
            playing: self.playing,
            title: self.title@,
            artist: self.artist@,
            album: self.album@,
            art: self.art@,
            position: self.position,
            duration: self.duration,
        }
    }
}

/// The state of no player: nothing plays.
pub open spec fn idle() -> RemoteView {
    RemoteView {
        device: Seq::empty(),
        playing: false,
        title: Seq::empty(),
        artist: Seq::empty(),
        album: Seq::empty(),
        art: Seq::empty(),
        position: Seconds { bits: 0 },
        duration: Seconds { bits: 0 },
    }
}

impl Default for RemoteState {
    fn default() -> (r: RemoteState)
        ensures
            r@ == idle(),
    {
        RemoteState {
            device: String::new(),
            playing: false,
            title: String::new(),
            artist: String::new(),
            album: String::new(),
            art: String::new(),
            position: Seconds { bits: 0 },
            duration: Seconds { bits: 0 },
        }
    }
}

impl Clone for RemoteState {
    fn clone(&self) -> (r: RemoteState)
        ensures
            r@ == self@,
    {
        RemoteState {
            device: self.device.clone(),
            playing: self.playing,
            title: self.title.clone(),
            artist: self.artist.clone(),
            album: self.album.clone(),
            art: self.art.clone(),
            position: self.position,
            duration: self.duration,
        }
    }
}

/// The two states are equal: their texts are the same, and their times are equal as
/// numbers.
pub open spec fn same_state(a: RemoteView, b: RemoteView) -> bool {
    &&& a.device == b.device
    &&& a.playing == b.playing
    &&& a.title == b.title
    &&& a.artist == b.artist
    &&& a.album == b.album
    &&& a.art == b.art
    &&& a.position.equals(b.position)
    &&& a.duration.equals(b.duration)
}

impl RemoteState {
    /// Whether the two states are equal.
    pub fn same(&self, other: &RemoteState) -> (r: bool)
        ensures
            r == same_state(self@, other@),
    {
        self.device == other.device && self.playing == other.playing && self.title == other.title
            && self.artist == other.artist && self.album == other.album && self.art == other.art
            && self.position.same(other.position) && self.duration.same(other.duration)
    }
}

/// The network player in use.
#[derive(Debug)]
pub struct RemoteCtl {
    /// (control_url, device_name) once a renderer is found.
    pub target: Option<(String, String)>,
}

/// The control address and the name of the player in use.
pub open spec fn target_texts(t: Option<(String, String)>) -> Option<(Seq<char>, Seq<char>)> {
    match t {
        Some(p) => Some((p.0@, p.1@)),
        None => None,
    }
}

impl View for RemoteCtl {
    type V = Option<(Seq<char>, Seq<char>)>;

    open spec fn view(&self) -> Option<(Seq<char>, Seq<char>)> {
        target_texts(self.target)
    }
}

impl RemoteCtl {
    /// No player is known yet.
    pub fn new() -> (r: RemoteCtl)
        ensures
            r@ is None,
    {
        RemoteCtl { target: None }
    }
}

/// A media renderer on the network.
#[derive(Debug)]
pub struct Renderer {
    /// The absolute address that it is controlled through.
    pub control_url: String,
    /// The name that it goes by.
    pub name: String,
}

impl View for Renderer {
    type V = (Seq<char>, Seq<char>);

    /// The control address and the name.
    open spec fn view(&self) -> (Seq<char>, Seq<char>) {
        (self.control_url@, self.name@)
    }
}

/// The control address and the name of a renderer that may be missing.
pub open spec fn opt_renderer(r: Option<Renderer>) -> Option<(Seq<char>, Seq<char>)> {
    match r {
        Some(r) => Some(r@),
        None => None,
    }
}

/// The content of an element, or an empty text.
pub open spec fn content_or_empty(xml: Seq<char>, tag: Seq<char>) -> Seq<char> {
    match content(xml, tag) {
        Some(t) => t,
        None => Seq::empty(),
    }
}

/// The content of an element, or an empty text.
fn read(xml: &str, tag: &str) -> (r: String)
    ensures
        r@ == content_or_empty(xml@, tag@),
{
    match tag_content(xml, tag) {
        Some(t) => t,
        None => String::new(),
    }
}

/// The first of the parts that names the service `AVT`.
pub open spec fn service_in(parts: Seq<Seq<char>>) -> Option<Seq<char>>
    decreases parts.len(),
{
    if parts.len() == 0 {
        None
    } else if has_text(parts.first(), AVT@) {
        Some(parts.first())
    } else {
        service_in(parts.drop_first())
    }
}

/// What a description says of a renderer: its name, and the address of its control,
/// which may be relative. There is none where the service is not offered or has no
/// address.
pub open spec fn described(xml: Seq<char>) -> Option<(Seq<char>, Seq<char>)> {
    match service_in(split_on(xml, "<service>"@)) {
        Some(part) => match content(part, "controlURL"@) {
            Some(control) => Some(
                (
                    match content(xml, "friendlyName"@) {
                        Some(name) => name,
                        None => "Network player"@,
                    },
                    control,
                ),
            ),
            None => None,
        },
        None => None,
    }
}

/// Reads a device description: the name of the device, and the address of its control as
/// it is written there.
pub fn describe(xml: &str) -> (r: Option<(String, String)>)
    ensures
        target_texts(r) == described(xml@),
{
    let name = match tag_content(xml, "friendlyName") {
        Some(n) => n,
        None => "Network player".to_string(),
    };
    let x = chars_of(xml);
    let sep = chars_of("<service>");
    proof {
        reveal_strlit("<service>");
    }
    let parts = split(&x, &sep);
    let ghost views = texts(parts@);
    let avt = chars_of(AVT);
    let mut i: usize = 0;
    assert(views.skip(0) =~= views);
    while i < parts.len()
        invariant
            0 <= i <= parts@.len(),
            views == texts(parts@),
            views == split_on(xml@, "<service>"@),
            avt@ == AVT@,
            service_in(views) == service_in(views.skip(i as int)),
            name@ == match content(xml@, "friendlyName"@) {
                Some(n) => n,
                None => "Network player"@,
            },
        decreases parts@.len() - i,
    {
        assert(views.skip(i as int).first() == parts@[i as int]@);
        assert(views.skip(i as int).drop_first() =~= views.skip(i + 1));
        let part = chars_of(parts[i].as_str());
        if contains(&part, &avt) {
            return match tag_content(parts[i].as_str(), "controlURL") {
                Some(control) => Some((name, control)),
                None => None,
            };
        }
        i += 1;
    }
    None
}

/// The renderer that the description `xml` at the address `location` describes: its
/// control address and its name.
pub open spec fn probed(location: Seq<char>, xml: Seq<char>) -> Option<(Seq<char>, Seq<char>)> {
    match described(xml) {
        Some(d) => match joined_url(location, d.1) {
            Some(url) => Some((url, d.0)),
            None => None,
        },
        None => None,
    }
}

/// Reads a device description that was fetched from `location`.
pub fn probe_device(location: &str, xml: &str) -> (r: Option<Renderer>)
    ensures
        opt_renderer(r) == probed(location@, xml@),
{
    match describe(xml) {
        Some((name, control)) => match join(location, control.as_str()) {
            Some(control_url) => Some(Renderer { control_url, name }),
            None => None,
        },
        None => None,
    }
}

/// The body of a call of an action of the service `AVT`.
pub open spec fn envelope(action: Seq<char>, args: Seq<char>) -> Seq<char> {
    "<?xml version=\"1.0\" encoding=\"utf-8\"?><s:Envelope xmlns:s=\"http://schemas.xmlsoap.org/soap/envelope/\" s:encodingStyle=\"http://schemas.xmlsoap.org/soap/encoding/\"><s:Body><u:"@
        + action + " xmlns:u=\""@ + AVT@ + "\"><InstanceID>0</InstanceID>"@ + args + "</u:"@ + action
        + "></s:Body></s:Envelope>"@
}

/// The header that names an action of the service `AVT`.
pub open spec fn action_header(action: Seq<char>) -> Seq<char> {
    "\""@ + AVT@ + "#"@ + action + "\""@
}

/// The body of a call of an action of the service `AVT`.
pub fn soap_envelope(action: &str, args: &str) -> (r: String)
    ensures
        r@ == envelope(action@, args@),
{
    let mut s =
        "<?xml version=\"1.0\" encoding=\"utf-8\"?><s:Envelope xmlns:s=\"http://schemas.xmlsoap.org/soap/envelope/\" s:encodingStyle=\"http://schemas.xmlsoap.org/soap/encoding/\"><s:Body><u:".to_string();
    s.append(action);
    s.append(" xmlns:u=\"");
    s.append(AVT);
    s.append("\"><InstanceID>0</InstanceID>");
    s.append(args);
    s.append("</u:");
    s.append(action);
    s.append("></s:Body></s:Envelope>");
    s
}

/// The header that names an action of the service `AVT`.
pub fn soap_action(action: &str) -> (r: String)
    ensures
        r@ == action_header(action@),
{
    let mut s = "\"".to_string();
    s.append(AVT);
    s.append("#");
    s.append(action);
    s.append("\"");
    s
}

/// A call of an action of a renderer.
#[derive(Debug)]
pub struct SoapCall {
    /// Where the call goes.
    pub url: String,
    /// The action that is called.
    pub action: String,
    /// The header that names it.
    pub header: String,
    /// The body of the call.
    pub body: String,
}

/// The call of `action` with `args` at `url`.
pub open spec fn is_call(c: SoapCall, url: Seq<char>, action: Seq<char>, args: Seq<char>) -> bool {
    &&& c.url@ == url
    &&& c.action@ == action
    &&& c.header@ == action_header(action)
    &&& c.body@ == envelope(action, args)
}

/// The call of `action` with `args` at `url`.
pub fn soap(url: &str, action: &str, args: &str) -> (r: SoapCall)
    ensures
        is_call(r, url@, action@, args@),
{
    SoapCall {
        url: url.to_string(),
        action: action.to_string(),
        header: soap_action(action),
        body: soap_envelope(action, args),
    }
}

/// The action and the arguments that a command stands for.
pub open spec fn transport_action(cmd: Seq<char>) -> Option<(Seq<char>, Seq<char>)> {
    if cmd == "play"@ {
        Some(("Play"@, "<Speed>1</Speed>"@))
    } else if cmd == "pause"@ {
        Some(("Pause"@, ""@))
    } else if cmd == "skip"@ {
        Some(("Next"@, ""@))
    } else {
        None
    }
}

/// Issue a transport command ("play" | "pause" | "skip") to the current device: the call
/// to make.
pub fn command(ctl: &RemoteCtl, cmd: &str) -> (r: Result<SoapCall, String>)
    ensures
        match ctl@ {
            None => r matches Err(e) && e@ == "no network player found"@,
            Some(target) => match transport_action(cmd@) {
                None => r matches Err(e) && e@ == "unknown remote command: "@ + cmd@,
                Some(action) => r matches Ok(c) && is_call(c, target.0, action.0, action.1),
            },
        },
{
    let url = match &ctl.target {
        Some(t) => t.0.as_str(),
        None => {
            return Err("no network player found".to_string());
        },
    };
    let (action, args) = if same_text(cmd, "play") {
        ("Play", "<Speed>1</Speed>")
    } else if same_text(cmd, "pause") {
        ("Pause", "")
    } else if same_text(cmd, "skip") {
        ("Next", "")
    } else {
        let mut e = "unknown remote command: ".to_string();
        e.append(cmd);
        return Err(e);
    };
    Ok(soap(url, action, args))
}

/// What a command comes to: a failure where its call was not answered.
pub fn command_outcome(action: &str, answered: bool) -> (r: Result<(), String>)
    ensures
        answered == r is Ok,
        r matches Err(e) ==> e@ == action@ + " failed"@,
{
    if answered {
        Ok(())
    } else {
        let mut e = action.to_string();
        e.append(" failed");
        Err(e)
    }
}

/// The state that a renderer tells by its transport information `transport` and its
/// position information `pos`.
pub open spec fn told_state(
    device: Seq<char>,
    transport: Seq<char>,
    pos: Seq<char>,
    position: Seconds,
    duration: Seconds,
) -> RemoteView {
    let state = content_or_empty(transport, "CurrentTransportState"@);
    let didl = unescaped(content_or_empty(pos, "TrackMetaData"@));
    RemoteView {
        device,
        playing: state == "PLAYING"@ || state == "TRANSITIONING"@,
        title: unescaped(content_or_empty(didl, "title"@)),
        artist: unescaped(
            match content(didl, "artist"@) {
                Some(a) => a,
                None => content_or_empty(didl, "creator"@),
            },
        ),
        album: unescaped(content_or_empty(didl, "album"@)),
        art: unescaped(content_or_empty(didl, "albumArtURI"@)),
        position,
        duration,
    }
}

/// The times in the position information of a renderer, as they are written there:
/// how far the track has played, and how long it lasts.
pub fn track_times(pos: &str) -> (r: (String, String))
    ensures
        r.0@ == content_or_empty(pos@, "RelTime"@),
        r.1@ == content_or_empty(pos@, "TrackDuration"@),
{
    (read(pos, "RelTime"), read(pos, "TrackDuration"))
}

/// The fields of a time such as "0:02:35", hours first.
pub fn hms_fields(s: &str) -> (r: Vec<String>)
    ensures
        texts(r@) == split_on(s@, ":"@),
{
    proof {
        reveal_strlit(":");
    }
    let v = chars_of(s);
    let colon = chars_of(":");
    split(&v, &colon)
}

/// The state that a renderer tells. `position` and `duration` are the times that
/// `track_times` gives, in seconds.
pub fn poll_state(device: &str, transport: &str, pos: &str, position: Seconds, duration: Seconds) -> (r:
    RemoteState)
    ensures
        r@ == told_state(device@, transport@, pos@, position, duration),
{
    let state = read(transport, "CurrentTransportState");
    let playing = same_text(state.as_str(), "PLAYING") || same_text(state.as_str(), "TRANSITIONING");
    let meta = read(pos, "TrackMetaData");
    let didl = xml_unescape(meta.as_str());
    let artist = match tag_content(didl.as_str(), "artist") {
        Some(a) => a,
        None => read(didl.as_str(), "creator"),
    };
    RemoteState {
        device: device.to_string(),
        playing,
        title: xml_unescape(read(didl.as_str(), "title").as_str()),
        artist: xml_unescape(artist.as_str()),
        album: xml_unescape(read(didl.as_str(), "album").as_str()),
        art: xml_unescape(read(didl.as_str(), "albumArtURI").as_str()),
        position,
        duration,
    }
}

/// What a renderer tells of its track is read back: where its position information holds
/// the metadata `didl`, escaped, and the metadata hold a title, an artist, an album and
/// the address of a picture, escaped in turn, these are the state.
pub proof fn law_metadata_read_back(
    device: Seq<char>,
    transport: Seq<char>,
    pos: Seq<char>,
    position: Seconds,
    duration: Seconds,
    didl: Seq<char>,
    title: Seq<char>,
    artist: Seq<char>,
    album: Seq<char>,
    art: Seq<char>,
)
    requires
        content(pos, "TrackMetaData"@) == Some(escaped(didl)),
        content(didl, "title"@) == Some(escaped(title)),
        content(didl, "artist"@) == Some(escaped(artist)),
        content(didl, "album"@) == Some(escaped(album)),
        content(didl, "albumArtURI"@) == Some(escaped(art)),
    ensures
        ({
            let s = told_state(device, transport, pos, position, duration);
            s.title == title && s.artist == artist && s.album == album && s.art == art
        }),
{
    law_unescape_undoes_escape(didl);
    law_unescape_undoes_escape(title);
    law_unescape_undoes_escape(artist);
    law_unescape_undoes_escape(album);
    law_unescape_undoes_escape(art);
}

/// A renderer is playing exactly where the state that it tells reads PLAYING or TRANSITIONING;
/// one that tells no state is not.
pub proof fn law_playing_is_told(
    device: Seq<char>,
    transport: Seq<char>,
    pos: Seq<char>,
    position: Seconds,
    duration: Seconds,
)
    ensures
        match content(transport, "CurrentTransportState"@) {
            Some(state) => told_state(device, transport, pos, position, duration).playing <==> state
                == seq!['P', 'L', 'A', 'Y', 'I', 'N', 'G'] || state == seq![
                'T',
                'R',
                'A',
                'N',
                'S',
                'I',
                'T',
                'I',
                'O',
                'N',
                'I',
                'N',
                'G',
            ],
            None => !told_state(device, transport, pos, position, duration).playing,
        },
{
    reveal_strlit("PLAYING");
    reveal_strlit("TRANSITIONING");
    assert("PLAYING"@ =~= seq!['P', 'L', 'A', 'Y', 'I', 'N', 'G']);
    assert("TRANSITIONING"@ =~= seq![
        'T',
        'R',
        'A',
        'N',
        'S',
        'I',
        'T',
        'I',
        'O',
        'N',
        'I',
        'N',
        'G',
    ]);
}

/// A renderer that answers with its state, whatever it writes around it, is playing exactly
/// where that reads PLAYING or TRANSITIONING, and so not where it is stopped, paused or has
/// nothing to play.
pub proof fn law_transport_answer_is_read(
    device: Seq<char>,
    before: Seq<char>,
    state: Seq<char>,
    after: Seq<char>,
    pos: Seq<char>,
    position: Seconds,
    duration: Seconds,
)
    requires
        !has_text(before, "CurrentTransportState"@ + seq!['>']),
        !state.contains('<'),
    ensures
        ({
            let tag = "CurrentTransportState"@;
            let transport = before + seq!['<'] + tag + seq!['>'] + state + (seq!['<', '/'] + tag + seq![
                '>',
            ]) + after;
            let told = told_state(device, transport, pos, position, duration);
            &&& told.playing <==> state == "PLAYING"@ || state == "TRANSITIONING"@
            &&& state == "STOPPED"@ || state == "PAUSED_PLAYBACK"@ || state == "NO_MEDIA_PRESENT"@
                ==> !told.playing
        }),
{
    let tag = "CurrentTransportState"@;
    reveal_strlit("CurrentTransportState");
    reveal_strlit("PLAYING");
    reveal_strlit("TRANSITIONING");
    reveal_strlit("STOPPED");
    reveal_strlit("PAUSED_PLAYBACK");
    reveal_strlit("NO_MEDIA_PRESENT");
    assert("PLAYING"@[0] == 'P' && "STOPPED"@[0] == 'S');
    assert("PLAYING"@.len() == 7 && "TRANSITIONING"@.len() == 13 && "STOPPED"@.len() == 7);
    assert("PAUSED_PLAYBACK"@.len() == 15 && "NO_MEDIA_PRESENT"@.len() == 16);
    let close = seq!['<', '/'] + tag + seq!['>'];
    if has_text(state, close) {
        let i = choose|i: int| occurs_at(state, close, i);
        assert(state.subrange(i, i + close.len())[0] == '<');
        assert(state[i] == '<');
    }
    law_plain_element_is_found(before, tag, state, after);
}

/// The state carries the name of the device and the times as they are given, and nothing else
/// changes with them.
pub proof fn law_times_are_carried(
    device: Seq<char>,
    transport: Seq<char>,
    pos: Seq<char>,
    position: Seconds,
    duration: Seconds,
)
    ensures
        ({
            let told = told_state(device, transport, pos, position, duration);
            let other = told_state(Seq::empty(), transport, pos, Seconds { bits: 0 }, Seconds { bits: 0 });
            &&& told.device == device
            &&& told.position == position
            &&& told.duration == duration
            &&& told == (RemoteView { device, position, duration, ..other })
        }),
{
}

/// Where the metadata name no artist, their creator stands in; what they do not name at all is
/// empty.
pub proof fn law_missing_metadata(
    device: Seq<char>,
    transport: Seq<char>,
    pos: Seq<char>,
    position: Seconds,
    duration: Seconds,
    didl: Seq<char>,
    creator: Seq<char>,
)
    requires
        content(pos, "TrackMetaData"@) == Some(escaped(didl)),
    ensures
        ({
            let told = told_state(device, transport, pos, position, duration);
            &&& content(didl, "artist"@) is None && content(didl, "creator"@) == Some(escaped(creator))
                ==> told.artist == creator
            &&& content(didl, "artist"@) is None && content(didl, "creator"@) is None ==> told.artist.len()
                == 0
            &&& content(didl, "title"@) is None ==> told.title.len() == 0
            &&& content(didl, "album"@) is None ==> told.album.len() == 0
            &&& content(didl, "albumArtURI"@) is None ==> told.art.len() == 0
        }),
{
    law_unescape_undoes_escape(didl);
    law_unescape_undoes_escape(creator);
    law_unescape_undoes_escape(Seq::empty());
}

/// The part that is searched is the first that names the service.
proof fn lemma_service_in(parts: Seq<Seq<char>>, i: int)
    requires
        0 <= i < parts.len(),
        has_text(parts[i], AVT@),
        forall|j: int| 0 <= j < i ==> !has_text(#[trigger] parts[j], AVT@),
    ensures
        service_in(parts) == Some(parts[i]),
    decreases i,
{
    if i > 0 {
        assert(!has_text(parts[0], AVT@));
        let rest = parts.drop_first();
        assert forall|j: int| 0 <= j < i - 1 implies !has_text(#[trigger] rest[j], AVT@) by {
            assert(rest[j] == parts[j + 1]);
        }
        lemma_service_in(rest, i - 1);
    }
}

/// Where no part names the service there is none to search.
proof fn lemma_no_service(parts: Seq<Seq<char>>)
    requires
        forall|j: int| 0 <= j < parts.len() ==> !has_text(#[trigger] parts[j], AVT@),
    ensures
        service_in(parts) is None,
    decreases parts.len(),
{
    if parts.len() > 0 {
        assert(!has_text(parts[0], AVT@));
        let rest = parts.drop_first();
        assert forall|j: int| 0 <= j < rest.len() implies !has_text(#[trigger] rest[j], AVT@) by {
            assert(rest[j] == parts[j + 1]);
        }
        lemma_no_service(rest);
    }
}

/// The control address is that of the AVTransport service: it comes from the first of the parts
/// between the `<service>` marks that names that service, and from no other.
pub proof fn law_control_is_that_of_the_service(xml: Seq<char>, i: int)
    requires
        0 <= i < split_on(xml, "<service>"@).len(),
        has_text(split_on(xml, "<service>"@)[i], "urn:schemas-upnp-org:service:AVTransport:1"@),
        forall|j: int|
            0 <= j < i ==> !has_text(
                #[trigger] split_on(xml, "<service>"@)[j],
                "urn:schemas-upnp-org:service:AVTransport:1"@,
            ),
    ensures
        match content(split_on(xml, "<service>"@)[i], "controlURL"@) {
            Some(control) => described(xml) matches Some(d) && d.1 == control && (content(
                xml,
                "friendlyName"@,
            ) matches Some(name) ==> d.0 == name) && (content(xml, "friendlyName"@) is None ==> d.0
                == "Network player"@),
            None => described(xml) is None,
        },
{
    lemma_service_in(split_on(xml, "<service>"@), i);
}

/// A description that does not name the AVTransport service in any part describes no renderer.
pub proof fn law_other_devices_are_no_renderers(xml: Seq<char>)
    requires
        forall|j: int|
            0 <= j < split_on(xml, "<service>"@).len() ==> !has_text(
                #[trigger] split_on(xml, "<service>"@)[j],
                "urn:schemas-upnp-org:service:AVTransport:1"@,
            ),
    ensures
        described(xml) is None,
{
    lemma_no_service(split_on(xml, "<service>"@));
}

/// A service of another type in front changes nothing: the control address is that of the rest
/// of the description.
pub proof fn law_other_service_in_front(front: Seq<char>, rest: Seq<char>)
    requires
        first_at(front + "<service>"@ + rest, "<service>"@, 0) == Some(front.len() as int),
        !has_text(front, "urn:schemas-upnp-org:service:AVTransport:1"@),
    ensures
        match (described(front + "<service>"@ + rest), described(rest)) {
            (Some(whole), Some(part)) => whole.1 == part.1,
            (None, None) => true,
            _ => false,
        },
{
    reveal_strlit("<service>");
    let s = front + "<service>"@ + rest;
    let n = front.len() as int;
    assert(s.take(n) =~= front);
    assert(s.skip(n + 9) =~= rest);
    let parts = split_on(s, "<service>"@);
    assert(parts[0] == front);
    assert(parts.drop_first() =~= split_on(rest, "<service>"@));
}

/// A renderer that is described is controlled at the address that its control address comes to,
/// seen from where the description was fetched, and goes by the name that the description gives.
pub proof fn law_control_is_absolute(location: Seq<char>, xml: Seq<char>)
    ensures
        described(xml) is None ==> probed(location, xml) is None,
        described(xml) matches Some(d) ==> match joined_url(location, d.1) {
            Some(url) => probed(location, xml) == Some((url, d.0)),
            None => probed(location, xml) is None,
        },
{
}

/// A call names its action, twice, and carries its arguments: they stand between the instance
/// and the end of the action.
pub proof fn law_call_carries_arguments(action: Seq<char>, args: Seq<char>)
    ensures
        has_text(
            envelope(action, args),
            "<u:"@ + action + " xmlns:u=\"urn:schemas-upnp-org:service:AVTransport:1\"><InstanceID>0</InstanceID>"@
                + args + "</u:"@ + action + "></s:Body></s:Envelope>"@,
        ),
        action_header(action) == "\"urn:schemas-upnp-org:service:AVTransport:1#"@ + action + "\""@,
{
    let head =
        "<?xml version=\"1.0\" encoding=\"utf-8\"?><s:Envelope xmlns:s=\"http://schemas.xmlsoap.org/soap/envelope/\" s:encodingStyle=\"http://schemas.xmlsoap.org/soap/encoding/\"><s:Body><u:"@;
    reveal_strlit(
        "<?xml version=\"1.0\" encoding=\"utf-8\"?><s:Envelope xmlns:s=\"http://schemas.xmlsoap.org/soap/envelope/\" s:encodingStyle=\"http://schemas.xmlsoap.org/soap/encoding/\"><s:Body><u:",
    );
    reveal_strlit("<u:");
    reveal_strlit(" xmlns:u=\"");
    reveal_strlit("urn:schemas-upnp-org:service:AVTransport:1");
    reveal_strlit("\"><InstanceID>0</InstanceID>");
    reveal_strlit(
        " xmlns:u=\"urn:schemas-upnp-org:service:AVTransport:1\"><InstanceID>0</InstanceID>",
    );
    reveal_strlit("\"");
    reveal_strlit("#");
    reveal_strlit("\"urn:schemas-upnp-org:service:AVTransport:1#");
    let inner =
        " xmlns:u=\"urn:schemas-upnp-org:service:AVTransport:1\"><InstanceID>0</InstanceID>"@;
    assert(inner =~= " xmlns:u=\""@ + AVT@ + "\"><InstanceID>0</InstanceID>"@);
    assert("\"urn:schemas-upnp-org:service:AVTransport:1#"@ =~= "\""@ + AVT@ + "#"@);
    let n = head.len() - 3;
    assert(head =~= head.take(n) + "<u:"@);
    let body = "<u:"@ + action + inner + args + "</u:"@ + action + "></s:Body></s:Envelope>"@;
    let s = envelope(action, args);
    assert(s =~= head.take(n) + body);
    assert(s.subrange(n, n + body.len()) =~= body);
    assert(occurs_at(s, body, n));
}

/// A renderer is told to play, to pause or to go to the next track by just these commands.
pub proof fn law_commands_are_known(cmd: Seq<char>)
    ensures
        transport_action(cmd) is Some <==> cmd == "play"@ || cmd == "pause"@ || cmd == "skip"@,
        transport_action(cmd) matches Some(a) ==> {
            &&& cmd == "play"@ <==> a.0 == "Play"@
            &&& cmd == "pause"@ <==> a.0 == "Pause"@
            &&& cmd == "skip"@ <==> a.0 == "Next"@
            &&& cmd == "play"@ ==> a.1 == "<Speed>1</Speed>"@
            &&& cmd != "play"@ ==> a.1.len() == 0
        },
{
    reveal_strlit("");
    reveal_strlit("play");
    reveal_strlit("pause");
    reveal_strlit("skip");
    reveal_strlit("Play");
    reveal_strlit("Pause");
    reveal_strlit("Next");
    assert("play"@[0] == 'p' && "skip"@[0] == 's');
    assert("play"@.len() == 4 && "pause"@.len() == 5);
    assert("Play"@[1] == 'l' && "Pause"@[1] == 'a' && "Next"@[1] == 'e');
}

/// A call has all that it needs: it goes to the address that was given, under a header that names
/// the action, with a body that names it and carries the arguments.
pub proof fn law_call_is_complete(c: SoapCall, url: Seq<char>, action: Seq<char>, args: Seq<char>)
    requires
        is_call(c, url, action, args),
    ensures
        c.url@ == url,
        c.action@ == action,
        c.header@ == "\"urn:schemas-upnp-org:service:AVTransport:1#"@ + action + "\""@,
        has_text(
            c.body@,
            "<u:"@ + action + " xmlns:u=\"urn:schemas-upnp-org:service:AVTransport:1\"><InstanceID>0</InstanceID>"@
                + args + "</u:"@ + action + "></s:Body></s:Envelope>"@,
        ),
{
    law_call_carries_arguments(action, args);
}

/// What is missing from an answer is an empty text, and what is there is as it is.
pub proof fn law_missing_element_is_empty(xml: Seq<char>, tag: Seq<char>)
    ensures
        content(xml, tag) matches Some(t) ==> content_or_empty(xml, tag) == t,
        content(xml, tag) is None ==> content_or_empty(xml, tag).len() == 0,
{
}

}
