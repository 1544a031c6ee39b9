use jarlid::seconds::Seconds;
use jarlid::ssdp::{header_line, location_in, scan_response, scan_text, GROUP, MSEARCH, PORT};
use jarlid::upnp::{
    command, command_outcome, describe, hms_fields, poll_state, probe_device, soap, soap_action,
    soap_envelope, track_times, RemoteCtl, RemoteState, AVT,
};

fn urls(list: &[&str]) -> Vec<String> {
    list.iter().map(|s| s.to_string()).collect()
}

fn seconds(v: f64) -> Seconds {
    Seconds { bits: v.to_bits() }
}

#[test]
fn the_search_that_is_sent() {
    assert_eq!(GROUP, "239.255.255.250");
    assert_eq!(PORT, 1900);
    assert!(MSEARCH.starts_with("M-SEARCH * HTTP/1.1\r\n"));
    assert!(MSEARCH.contains("ST: urn:schemas-upnp-org:device:MediaRenderer:1\r\n"));
    assert!(MSEARCH.ends_with("\r\n\r\n"));
}

#[test]
fn locations_are_found() {
    let resp = b"HTTP/1.1 200 OK\r\nLOCATION: http://10.0.0.2:49152/Description.xml\r\nST: x\r\n\r\n";
    let found = scan_response(Vec::new(), resp);
    assert_eq!(found, urls(&["http://10.0.0.2:49152/Description.xml"]));
}

#[test]
fn header_names_are_found_in_any_case() {
    let resp = "location:http://a\r\nLocation:\t http://b\nLOCATION: http://C\nX-LOCATION: http://d";
    assert_eq!(scan_text(Vec::new(), resp), urls(&["http://a", "http://b", "http://C"]));
}

#[test]
fn locations_are_found_once_and_in_order() {
    let found = urls(&["http://b"]);
    let resp = b"LOCATION: http://a\r\nLOCATION: http://b\r\nLOCATION: http://a\r\n";
    assert_eq!(scan_response(found, resp), urls(&["http://b", "http://a"]));
}

#[test]
fn white_space_around_an_address_is_trimmed() {
    assert_eq!(scan_text(Vec::new(), "LOCATION: http://h/d.xml "), urls(&["http://h/d.xml"]));
    assert_eq!(scan_text(Vec::new(), "location:\thttp://h\u{a0} \r\n"), urls(&["http://h"]));
    assert_eq!(scan_text(Vec::new(), "LOCATION:"), urls(&[""]));
}

#[test]
fn addresses_are_taken_as_they_are_written() {
    assert_eq!(scan_text(Vec::new(), "LOCATION:Ⱥ"), urls(&["Ⱥ"]));
    assert_eq!(scan_text(Vec::new(), "LOCATION:éé "), urls(&["éé"]));
    assert_eq!(scan_text(Vec::new(), "LOCATION:\u{a0}HTTP://Ⱥ:80/"), urls(&["HTTP://Ⱥ:80/"]));
}

#[test]
fn bytes_that_are_not_text_are_repaired() {
    let resp = b"SERVER: \xff\xfe\r\nLOCATION: http://a\r\n";
    assert_eq!(scan_response(Vec::new(), resp), urls(&["http://a"]));
    let resp = b"LOCATION: http://\xff\r\n";
    assert_eq!(scan_response(Vec::new(), resp), urls(&["http://\u{fffd}"]));
}

#[test]
fn header_lines() {
    assert_eq!(location_in("Location: http://A"), Some("http://A".to_string()));
    assert_eq!(location_in("SERVER: location: x"), None);
    assert_eq!(location_in("location http://a"), None);
    assert_eq!(location_in("location : http://a"), None);
    assert_eq!(location_in(""), None);
    assert_eq!(header_line("LOCATION: http://A ", "location:"), Some("http://A".to_string()));
    assert_eq!(header_line("LOCATION: http://A", "server:"), None);
}

fn description() -> String {
    format!(
        "<root><device><friendlyName>Den</friendlyName><serviceList>\
         <service><serviceType>urn:other</serviceType><controlURL>/other</controlURL></service>\
         <service><serviceType>{AVT}</serviceType><controlURL>/upnp/control/avt</controlURL></service>\
         <service><serviceType>{AVT}</serviceType><controlURL>/late</controlURL></service>\
         </serviceList></device></root>"
    )
}

#[test]
fn descriptions_are_read() {
    let (name, control) = describe(&description()).unwrap();
    assert_eq!((name.as_str(), control.as_str()), ("Den", "/upnp/control/avt"));
    let nameless = format!("<service>{AVT}<controlURL>c</controlURL>");
    let (name, control) = describe(&nameless).unwrap();
    assert_eq!((name.as_str(), control.as_str()), ("Network player", "c"));
}

#[test]
fn descriptions_without_control() {
    assert!(describe("<friendlyName>Den</friendlyName>").is_none());
    let first_only = format!("<service>{AVT}</service><service>{AVT}<controlURL>c</controlURL>");
    assert!(describe(&first_only).is_none());
}

#[test]
fn control_addresses_are_absolute() {
    let r = probe_device("http://10.0.0.2:49152/dir/desc.xml", &description()).unwrap();
    assert_eq!(r.control_url, "http://10.0.0.2:49152/upnp/control/avt");
    assert_eq!(r.name, "Den");
    let relative = description().replace("/upnp/control/avt", "ctl");
    let r = probe_device("http://10.0.0.2:49152/dir/desc.xml", &relative).unwrap();
    assert_eq!(r.control_url, "http://10.0.0.2:49152/dir/ctl");
    let absolute = description().replace("/upnp/control/avt", "http://h/c");
    assert_eq!(probe_device("http://x/", &absolute).unwrap().control_url, "http://h/c");
}

#[test]
fn control_addresses_that_cannot_be_joined() {
    assert!(probe_device("not an address", &description()).is_none());
    let bad = description().replace("/upnp/control/avt", "http://[");
    assert!(probe_device("http://x/", &bad).is_none());
    assert!(probe_device("http://x/", "<root/>").is_none());
}

#[test]
fn calls_are_written() {
    assert_eq!(
        soap_envelope("Play", "<Speed>1</Speed>"),
        r#"<?xml version="1.0" encoding="utf-8"?><s:Envelope xmlns:s="http://schemas.xmlsoap.org/soap/envelope/" s:encodingStyle="http://schemas.xmlsoap.org/soap/encoding/"><s:Body><u:Play xmlns:u="urn:schemas-upnp-org:service:AVTransport:1"><InstanceID>0</InstanceID><Speed>1</Speed></u:Play></s:Body></s:Envelope>"#
    );
    assert_eq!(soap_action("Pause"), "\"urn:schemas-upnp-org:service:AVTransport:1#Pause\"");
    let call = soap("http://x/c", "GetPositionInfo", "");
    assert_eq!(call.url, "http://x/c");
    assert_eq!(call.action, "GetPositionInfo");
    assert_eq!(call.header, soap_action("GetPositionInfo"));
    assert_eq!(call.body, soap_envelope("GetPositionInfo", ""));
}

fn at(url: &str) -> RemoteCtl {
    RemoteCtl { target: Some((url.to_string(), "Den".to_string())) }
}

#[test]
fn commands_become_calls() {
    for (cmd, action, args) in
        [("play", "Play", "<Speed>1</Speed>"), ("pause", "Pause", ""), ("skip", "Next", "")]
    {
        let call = command(&at("http://x/c"), cmd).unwrap();
        assert_eq!(call.url, "http://x/c");
        assert_eq!(call.action, action);
        assert_eq!(call.header, soap_action(action));
        assert_eq!(call.body, soap_envelope(action, args));
    }
}

#[test]
fn commands_that_fail() {
    assert_eq!(command(&RemoteCtl::new(), "play").unwrap_err(), "no network player found");
    assert_eq!(command(&RemoteCtl::new(), "prev").unwrap_err(), "no network player found");
    assert_eq!(command(&at("http://x/c"), "prev").unwrap_err(), "unknown remote command: prev");
    assert_eq!(command(&at("http://x/c"), "").unwrap_err(), "unknown remote command: ");
    assert_eq!(command_outcome("Next", false), Err("Next failed".to_string()));
    assert_eq!(command_outcome("Next", true), Ok(()));
}

#[test]
fn times_are_cut_into_fields() {
    assert_eq!(hms_fields("0:02:35"), urls(&["0", "02", "35"]));
    assert_eq!(hms_fields(""), urls(&[""]));
    let pos = "<RelTime>0:00:12</RelTime><TrackDuration>0:02:35</TrackDuration>";
    assert_eq!(track_times(pos), ("0:00:12".to_string(), "0:02:35".to_string()));
    assert_eq!(track_times("<x/>"), (String::new(), String::new()));
}

const POSITION: &str = "<u:GetPositionInfoResponse><TrackDuration>0:02:35</TrackDuration><TrackMetaData>&lt;DIDL-Lite&gt;&lt;item&gt;&lt;dc:title&gt;Rock &amp;amp; Roll&lt;/dc:title&gt;&lt;upnp:artist&gt;The &amp;quot;Who&amp;quot;&lt;/upnp:artist&gt;&lt;dc:creator&gt;Nobody&lt;/dc:creator&gt;&lt;upnp:album&gt;It&amp;apos;s&lt;/upnp:album&gt;&lt;upnp:albumArtURI&gt;http://x/a?b=1&amp;amp;c=2&lt;/upnp:albumArtURI&gt;&lt;/item&gt;&lt;/DIDL-Lite&gt;</TrackMetaData><RelTime>0:00:12</RelTime></u:GetPositionInfoResponse>";

#[test]
fn states_are_read() {
    let transport = "<CurrentTransportState>PLAYING</CurrentTransportState>";
    let s = poll_state("Den", transport, POSITION, seconds(12.0), seconds(155.0));
    assert_eq!(s.device, "Den");
    assert!(s.playing);
    assert_eq!(s.title, "Rock & Roll");
    assert_eq!(s.artist, "The \"Who\"");
    assert_eq!(s.album, "It's");
    assert_eq!(s.art, "http://x/a?b=1&c=2");
    assert_eq!(s.position.bits, 12.0_f64.to_bits());
    assert_eq!(s.duration.bits, 155.0_f64.to_bits());
}

#[test]
fn creator_stands_in_for_the_artist() {
    let pos = POSITION.replace("upnp:artist", "upnp:actor");
    let s = poll_state("Den", "", &pos, seconds(0.0), seconds(0.0));
    assert_eq!(s.artist, "Nobody");
    assert!(!s.playing);
}

#[test]
fn transport_states() {
    for (state, playing) in
        [("PLAYING", true), ("TRANSITIONING", true), ("PAUSED_PLAYBACK", false), ("playing", false)]
    {
        let xml = format!("<CurrentTransportState>{state}</CurrentTransportState>");
        assert_eq!(poll_state("", &xml, "", seconds(0.0), seconds(0.0)).playing, playing);
    }
}

#[test]
fn states_compare() {
    let transport = "<CurrentTransportState>PLAYING</CurrentTransportState>";
    let s = poll_state("Den", transport, POSITION, seconds(12.0), seconds(155.0));
    assert!(s.same(&s.clone()));
    let idle = RemoteState::default();
    assert!(idle.same(&RemoteState { position: seconds(-0.0), ..RemoteState::default() }));
    assert!(!idle.same(&s));
    assert!(!s.same(&RemoteState { title: "Other".to_string(), ..s.clone() }));
    assert!(!s.same(&RemoteState { position: seconds(13.0), ..s.clone() }));
    assert!(!s.same(&RemoteState { device: "Attic".to_string(), ..s.clone() }));
    let nan = RemoteState { position: seconds(f64::NAN), ..RemoteState::default() };
    assert!(!nan.same(&nan.clone()));
}
