//! Watching the network player: which renderer to take, when to ask it, what to show of
//! its answers, and when to give it up.

use crate::seconds::law_equal_numbers;
use crate::text::{chars_of, contains, has_text, lower, lowercase};
use crate::upnp::{idle, same_state, RemoteCtl, RemoteState, RemoteView, Renderer};
use vstd::prelude::*;

verus! {

/// How long to wait after a search that found no renderer, in seconds.
pub const SEARCH_AGAIN: u64 = 30;

/// How long to wait between two polls, in seconds.
pub const POLL_AGAIN: u64 = 1;

/// How many polls in a row may go unanswered before the renderer is given up.
pub const FAILURES: u32 = 5;

/// What to do with the network player.
#[derive(Debug)]
pub enum Step {
    /// Look for renderers.
    Discover,
    /// Ask the renderer with this control address and name for its state.
    Poll(String, String),
}

/// What to do next: poll the renderer that is known, or look for one.
pub fn next_step(ctl: &RemoteCtl) -> (r: Step)
    ensures
        match ctl@ {
            Some(t) => r matches Step::Poll(url, name) && url@ == t.0 && name@ == t.1,
            None => r is Discover,
        },
{
    match &ctl.target {
        Some(t) => Step::Poll(t.0.clone(), t.1.clone()),
        None => Step::Discover,
    }
}

/// The renderers as texts: control address and name.
pub open spec fn renderer_texts(v: Seq<Renderer>) -> Seq<(Seq<char>, Seq<char>)> {
    v.map_values(|r: Renderer| r@)
}

/// A name by which a renderer is preferred, in any case.
pub open spec fn preferred(name: Seq<char>) -> bool {
    has_text(lowercase(name), "wiim"@) || has_text(lowercase(name), "speaker"@)
}

/// The last of the renderers that is preferred.
pub open spec fn last_preferred(found: Seq<(Seq<char>, Seq<char>)>) -> Option<int>
    decreases found.len(),
{
    if found.len() == 0 {
        None
    } else if preferred(found.last().1) {
        Some(found.len() - 1)
    } else {
        last_preferred(found.drop_last())
    }
}

/// The renderer to take: the last that is preferred, or the first if none is.
pub open spec fn chosen(found: Seq<(Seq<char>, Seq<char>)>) -> (Seq<char>, Seq<char>) {
    match last_preferred(found) {
        Some(i) => found[i],
        None => found[0],
    }
}

/// Whether a renderer is preferred whose name has the lower-case form `low`.
pub fn is_preferred(low: &str) -> (r: bool)
    ensures
        r == (has_text(low@, "wiim"@) || has_text(low@, "speaker"@)),
{
    let l = chars_of(low);
    let wiim = chars_of("wiim");
    let speaker = chars_of("speaker");
    contains(&l, &wiim) || contains(&l, &speaker)
}

/// Takes one of the renderers that answered, if any did. A WiiM is preferred if several
/// answer. Tells whether there is one to poll now.
pub fn discovered(ctl: &mut RemoteCtl, found: Vec<Renderer>) -> (r: bool)
    ensures
        r == (found@.len() > 0),
        r ==> final(ctl)@ == Some(chosen(renderer_texts(found@))),
        !r ==> *final(ctl) == *old(ctl),
{
    let ghost views = renderer_texts(found@);
    let mut best: Option<usize> = None;
    let mut i: usize = 0;
    while i < found.len()
        invariant
            0 <= i <= found@.len(),
            views == renderer_texts(found@),
            match best {
                Some(b) => 0 < i && b < i && (last_preferred(views.take(i as int)) == Some(b as int)
                    || (last_preferred(views.take(i as int)) is None && b == 0)),
                None => i == 0,
            },
        decreases found@.len() - i,
    {
        let low = lower(found[i].name.as_str());
        assert(views.take(i + 1).drop_last() =~= views.take(i as int));
        assert(views.take(i + 1).last() == found@[i as int]@);
        if best.is_none() || is_preferred(low.as_str()) {
            best = Some(i);
        }
        i += 1;
    }
    assert(views.take(views.len() as int) =~= views);
    match best {
        Some(b) => {
            ctl.target = Some((found[b].control_url.clone(), found[b].name.clone()));
            true
        },
        None => false,
    }
}

/// What is known while a renderer is watched.
#[derive(Debug)]
pub struct Watcher {
    last: RemoteState,
    failures: u32,
}

/// The state shown last, and how many polls in a row have gone unanswered.
pub struct WatcherView {
    pub last: RemoteView,
    pub failures: int,
}

impl View for Watcher {
    type V = WatcherView;

    closed spec fn view(&self) -> WatcherView {
        WatcherView { last: self.last@, failures: self.failures as int }
    }
}

impl WatcherView {
    /// Fewer polls have gone unanswered than make a renderer be given up.
    pub open spec fn valid(self) -> bool {
        0 <= self.failures < FAILURES
    }

    /// What a poll brings, answered with `reply` or not: the watcher and the target after
    /// it, and the state to show, if there is a new one.
    pub open spec fn after_poll(
        self,
        target: Option<(Seq<char>, Seq<char>)>,
        reply: Option<RemoteView>,
    ) -> (WatcherView, Option<(Seq<char>, Seq<char>)>, Option<RemoteView>) {
        match reply {
            Some(st) => if same_state(st, self.last) {
                (WatcherView { failures: 0, ..self }, target, None)
            } else {
                (WatcherView { last: st, failures: 0 }, target, Some(st))
            },
            None => if self.failures + 1 >= FAILURES {
                (WatcherView { last: idle(), failures: 0 }, None, Some(idle()))
            } else {
                (WatcherView { failures: self.failures + 1, ..self }, target, None)
            },
        }
    }
}

/// The view of a state that may be missing.
pub open spec fn opt_state(s: Option<RemoteState>) -> Option<RemoteView> {
    match s {
        Some(s) => Some(s@),
        None => None,
    }
}

impl Watcher {
    /// The start of the watch: nothing was shown yet.
    pub fn start() -> (r: Watcher)
        ensures
            r@.valid(),
            r@ == (WatcherView { last: idle(), failures: 0 }),
    {
        Watcher { last: RemoteState::default(), failures: 0 }
    }

    /// Takes note of what a poll was answered, or that it was not, and gives the state to
    /// show if it is a new one. A renderer that does not answer five polls in a row is
    /// given up.
    pub fn polled(&mut self, ctl: &mut RemoteCtl, reply: Option<RemoteState>) -> (r: Option<RemoteState>)
        requires
            old(self)@.valid(),
        ensures
            final(self)@.valid(),
            (final(self)@, final(ctl)@, opt_state(r)) == old(self)@.after_poll(
                old(ctl)@,
                opt_state(reply),
            ),
    {
        match reply {
            Some(st) => {
                self.failures = 0;
                if st.same(&self.last) {
                    None
                } else {
                    self.last = st.clone();
                    Some(st)
                }
            },
            None => {
                self.failures = self.failures + 1;
                if self.failures >= FAILURES {
                    ctl.target = None;
                    self.failures = 0;
                    self.last = RemoteState::default();
                    Some(RemoteState::default())
                } else {
                    None
                }
            },
        }
    }
}

/// A renderer that answered is always taken if there is one, and a preferred one if one
/// of those that answered is.
pub proof fn law_preferred_renderer_is_chosen(found: Seq<(Seq<char>, Seq<char>)>)
    requires
        found.len() > 0,
    ensures
        found.contains(chosen(found)),
        (exists|i: int| 0 <= i < found.len() && preferred(#[trigger] found[i].1)) ==> preferred(
            chosen(found).1,
        ),
{
    lemma_last_preferred(found);
    match last_preferred(found) {
        Some(i) => {
            assert(found[i] == chosen(found));
        },
        None => {
            assert(found[0] == chosen(found));
        },
    }
}

proof fn lemma_last_preferred(found: Seq<(Seq<char>, Seq<char>)>)
    ensures
        match last_preferred(found) {
            Some(i) => 0 <= i < found.len() && preferred(found[i].1) && forall|j: int|
                i < j < found.len() ==> !preferred(#[trigger] found[j].1),
            None => forall|j: int| 0 <= j < found.len() ==> !preferred(#[trigger] found[j].1),
        },
    decreases found.len(),
{
    if found.len() > 0 && !preferred(found.last().1) {
        lemma_last_preferred(found.drop_last());
        assert forall|j: int| 0 <= j < found.len() - 1 implies #[trigger] found[j]
            == found.drop_last()[j] by {}
    }
}

/// What was shown last is what the watcher holds: a state is shown exactly when it
/// becomes the last, and else the last stays.
pub proof fn law_shown_state_is_last(
    w: WatcherView,
    target: Option<(Seq<char>, Seq<char>)>,
    reply: Option<RemoteView>,
)
    ensures
        w.after_poll(target, reply).2 matches Some(s) ==> w.after_poll(target, reply).0.last == s,
        w.after_poll(target, reply).2 is None ==> w.after_poll(target, reply).0.last == w.last,
{
}

/// An answer that tells nothing new is not shown, and one that does is; either way the
/// count of failures starts anew and the renderer is kept.
pub proof fn law_answers(
    w: WatcherView,
    target: Option<(Seq<char>, Seq<char>)>,
    st: RemoteView,
)
    ensures
        w.after_poll(target, Some(st)).2 is None <==> same_state(st, w.last),
        w.after_poll(target, Some(st)).0.failures == 0,
        w.after_poll(target, Some(st)).1 == target,
{
}

/// What is left after `n` polls in a row without an answer.
pub open spec fn after_silence(
    w: WatcherView,
    target: Option<(Seq<char>, Seq<char>)>,
    n: nat,
) -> (WatcherView, Option<(Seq<char>, Seq<char>)>)
    decreases n,
{
    if n == 0 {
        (w, target)
    } else {
        let (v, t) = after_silence(w, target, (n - 1) as nat);
        let next = v.after_poll(t, None);
        (next.0, next.1)
    }
}

/// A renderer that has just answered survives four polls without an answer, each with
/// nothing new to show, and is given up at the fifth; the state shown then is that of no
/// player.
pub proof fn law_five_failures_give_up(
    w: WatcherView,
    target: Option<(Seq<char>, Seq<char>)>,
    n: nat,
)
    requires
        w.failures == 0,
        n <= 5,
    ensures
        n < 5 ==> after_silence(w, target, n) == (WatcherView { last: w.last, failures: n as int }, target),
        n == 5 ==> after_silence(w, target, n) == (
            WatcherView { last: idle(), failures: 0 },
            None::<(Seq<char>, Seq<char>)>,
        ),
        n < 4 ==> after_silence(w, target, n).0.after_poll(target, None).2 is None,
        n == 4 ==> after_silence(w, target, n).0.after_poll(target, None).2 == Some(idle()),
    decreases n,
{
    if n > 0 {
        law_five_failures_give_up(w, target, (n - 1) as nat);
    }
}

/// No poll, answered or not, makes a watcher invalid.
pub proof fn law_watcher_stays_valid(
    w: WatcherView,
    target: Option<(Seq<char>, Seq<char>)>,
    reply: Option<RemoteView>,
)
    requires
        w.valid(),
    ensures
        w.after_poll(target, reply).0.valid(),
{
}

/// The two patterns stand for different numbers, or for none.
pub open spec fn times_differ(a: u64, b: u64) -> bool {
    a != b && !(a == 0 && b == 0x8000_0000_0000_0000) && !(a == 0x8000_0000_0000_0000 && b == 0)
}

/// Any change is shown: an answer that differs from the state shown last in its device, in
/// whether it plays, in its title, artist, album or art, in its position or in its duration is
/// shown as it is.
pub proof fn law_any_change_is_shown(
    w: WatcherView,
    target: Option<(Seq<char>, Seq<char>)>,
    st: RemoteView,
)
    requires
        st.device != w.last.device || st.playing != w.last.playing || st.title != w.last.title || st.artist
            != w.last.artist || st.album != w.last.album || st.art != w.last.art || times_differ(
            st.position.bits,
            w.last.position.bits,
        ) || times_differ(st.duration.bits, w.last.duration.bits),
    ensures
        w.after_poll(target, Some(st)).2 == Some(st),
        w.after_poll(target, Some(st)).0.last == st,
{
    law_equal_numbers(st.position, w.last.position);
    law_equal_numbers(st.duration, w.last.duration);
}

/// Nothing is shown twice: an answer that is the state shown last, with times that are numbers
/// and not negative, is not shown again.
pub proof fn law_same_answer_is_not_shown(w: WatcherView, target: Option<(Seq<char>, Seq<char>)>)
    requires
        w.last.position.bits <= 0x7ff0_0000_0000_0000,
        w.last.duration.bits <= 0x7ff0_0000_0000_0000,
    ensures
        w.after_poll(target, Some(w.last)).2 is None,
        w.after_poll(target, Some(w.last)).0.last == w.last,
{
    law_equal_numbers(w.last.position, w.last.position);
    law_equal_numbers(w.last.duration, w.last.duration);
}

/// A poll without an answer is counted and shows nothing, up to the fourth in a row; at the fifth
/// the renderer is given up, and a state is shown in which nothing plays and all is empty.
pub proof fn law_lost_player_is_shown_as_none(w: WatcherView, target: Option<(Seq<char>, Seq<char>)>)
    requires
        0 <= w.failures <= 4,
    ensures
        ({
            let (next, to, shown) = w.after_poll(target, None);
            &&& w.failures < 4 ==> next.failures == w.failures + 1 && next.last == w.last && to == target
                && shown is None
            &&& w.failures == 4 ==> next.failures == 0 && to is None && shown == Some(next.last)
            &&& w.failures == 4 ==> !next.last.playing && next.last.device.len() == 0
                && next.last.title.len() == 0 && next.last.artist.len() == 0 && next.last.album.len() == 0
                && next.last.art.len() == 0 && next.last.position.bits == 0 && next.last.duration.bits == 0
        }),
{
}

/// The name of a renderer, in lower case, holds the name of the maker or says that it is a
/// speaker.
pub open spec fn named_well(name: Seq<char>) -> bool {
    has_text(lowercase(name), seq!['w', 'i', 'i', 'm']) || has_text(
        lowercase(name),
        seq!['s', 'p', 'e', 'a', 'k', 'e', 'r'],
    )
}

/// The renderer that is taken is the last of those with such a name, or the first of all where
/// none has one.
pub proof fn law_last_preferred_or_first(found: Seq<(Seq<char>, Seq<char>)>, i: int)
    requires
        0 <= i < found.len(),
    ensures
        named_well(found[i].1) && (forall|j: int| i < j < found.len() ==> !named_well(#[trigger] found[j].1))
            ==> chosen(found) == found[i],
        (forall|j: int| 0 <= j < found.len() ==> !named_well(#[trigger] found[j].1)) ==> chosen(found)
            == found[0],
{
    reveal_strlit("wiim");
    reveal_strlit("speaker");
    assert("wiim"@ =~= seq!['w', 'i', 'i', 'm']);
    assert("speaker"@ =~= seq!['s', 'p', 'e', 'a', 'k', 'e', 'r']);
    lemma_last_preferred(found);
    if let Some(k) = last_preferred(found) {
        assert(named_well(found[k].1));
        if k < i && named_well(found[i].1) {
            assert(preferred(found[i].1));
        }
    } else {
        assert(!preferred(found[i].1));
    }
}

}
