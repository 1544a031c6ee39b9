# Jarlid

Jarlid is an unofficial desktop client for a paid Pandora account. It wraps Pandora's own web
player and overlays an interface that puts album art and synced lyrics front and center. It also
shows what a network (UPnP/DLNA) player is playing, and owns the system's media session.

The decisions are a library whose behaviour is stated in contracts and proved with Verus:

- `src/title.rs`: undoing repeated titles, and simplifying them for a search
- `src/lyrics.rs`: what to ask LRCLIB for, which answer to take, what to keep in the cache
- `src/ssdp.rs`, `src/upnp.rs`, `src/xml.rs`: finding, describing, asking and commanding renderers
- `src/watcher.rs`: which renderer to watch, what to show of it, when to give it up
- `src/media.rs`: the media session, shared by the web player and the network player
- `src/engine.rs`: driving the web player, its watchdog, and saving the window geometry
- `src/text.rs`, `src/digits.rs`, `src/seconds.rs`, `src/clock.rs`: what the others are built on
- `src/json.rs`, `src/url.rs`: the outside crates that values and addresses are read with

`app/` is the program around it: windows, events, sockets, requests and files, and what computes
in floating point. Its windows and events are Tauri's. Times are nanoseconds on a clock that never
goes back; durations in seconds are carried as the bit patterns of doubles.
