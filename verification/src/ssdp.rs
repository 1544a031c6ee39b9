//! Finding media renderers on the network: the search that is sent out, and the
//! addresses in the answers.

use crate::text::{
    ascii_lower, chars_of, find_text, first_at, has_text, law_only_white_space_is_trimmed, lemma_first_at,
    lemma_first_at_is, lines, lines_of, lower, lowercase, occurs_at, opt_text, same_text, text_of,
    texts, trim, trimmed, trimmed_end, trimmed_start, white_space,
};
use vstd::prelude::*;
use vstd::utf8::{
    decode_utf8, encode_utf8, encode_utf8_decode_utf8, encode_utf8_valid_utf8, is_ascii_chars,
    valid_utf8,
};

verus! {

/// The group that searches are sent to, and its port.
pub const GROUP: &'static str = "239.255.255.250";

pub const PORT: u16 = 1900;

/// The search for media renderers.
pub const MSEARCH: &'static str =
    "M-SEARCH * HTTP/1.1\r\nHOST: 239.255.255.250:1900\r\nMAN: \"ssdp:discover\"\r\nMX: 2\r\nST: urn:schemas-upnp-org:device:MediaRenderer:1\r\n\r\n";

/// The name of a header, up to and with its colon; the whole line where it has none.
pub open spec fn header_name(line: Seq<char>) -> Seq<char> {
    match first_at(line, seq![':'], 0) {
        Some(i) => line.take(i + 1),
        None => line,
    }
}

/// The address that a line tells if its header's name has the lower-case form `low`: what
/// follows the name, trimmed.
pub open spec fn told_by(line: Seq<char>, low: Seq<char>) -> Option<Seq<char>> {
    if low == "location:"@ {
        Some(trimmed(line.skip(header_name(line).len() as int)))
    } else {
        None
    }
}

/// The address of a description that a line tells, if it is the header for it, whose name may
/// be written in any case.
pub open spec fn location_of(line: Seq<char>) -> Option<Seq<char>> {
    told_by(line, lowercase(header_name(line)))
}

/// The addresses that are known after some lines: those that were known before, and each
/// new one once, in order.
pub open spec fn scanned(found: Seq<Seq<char>>, lines: Seq<Seq<char>>) -> Seq<Seq<char>>
    decreases lines.len(),
{
    if lines.len() == 0 {
        found
    } else {
        scanned(with_location(found, location_of(lines.first())), lines.drop_first())
    }
}

/// The addresses that are known once a line told this one, or none.
pub open spec fn with_location(found: Seq<Seq<char>>, told: Option<Seq<char>>) -> Seq<Seq<char>> {
    match told {
        Some(url) if !found.contains(url) => found.push(url),
        _ => found,
    }
}

/// What the standard library's `from_utf8_lossy` makes of bytes that are not UTF-8.
pub uninterp spec fn repaired_utf8(b: Seq<u8>) -> Seq<char>;

/// The text of some bytes.
pub open spec fn lossy_text(b: Seq<u8>) -> Seq<char> {
    if valid_utf8(b) {
        decode_utf8(b)
    } else {
        repaired_utf8(b)
    }
}

/// `String::from_utf8_lossy` of the standard library. Of bytes that are UTF-8 it is
/// claimed that their text is given; of others only that the result depends on the bytes
/// alone.
#[verifier::external_body]
fn from_utf8_lossy(b: &[u8]) -> (r: String)
    ensures
        valid_utf8(b@) ==> r@ == decode_utf8(b@),
        !valid_utf8(b@) ==> r@ == repaired_utf8(b@),
{
    String::from_utf8_lossy(b).into_owned()
}

/// How many characters the name of a header has, with its colon.
fn name_len(v: &Vec<char>) -> (r: usize)
    ensures
        r == header_name(v@).len(),
        r <= v@.len(),
        v@.take(r as int) == header_name(v@),
{
    let n = v.len();
    let colon: Vec<char> = vec![':'];
    assert(colon@ =~= seq![':']);
    match find_text(v, &colon, 0) {
        Some(i) => i + 1,
        None => {
            assert(v@.take(n as int) =~= v@);
            n
        },
    }
}

/// The address that a line tells if its header's name has the lower-case form `low`.
pub fn header_line(line: &str, low: &str) -> (r: Option<String>)
    ensures
        opt_text(r) == told_by(line@, low@),
{
    if !same_text(low, "location:") {
        return None;
    }
    let v = chars_of(line);
    let value = text_of(&v, name_len(&v), v.len());
    assert(value@ =~= line@.skip(header_name(line@).len() as int));
    Some(trim(value.as_str()))
}

/// The address of a description that a line tells, if it is the header for it.
pub fn location_in(line: &str) -> (r: Option<String>)
    ensures
        opt_text(r) == location_of(line@),
{
    let v = chars_of(line);
    let n = name_len(&v);
    let name = text_of(&v, 0, n);
    assert(name@ =~= header_name(line@));
    let low = lower(name.as_str());
    header_line(line, low.as_str())
}

/// Whether `url` is among `found`.
fn is_known(found: &Vec<String>, url: &str) -> (r: bool)
    ensures
        r == texts(found@).contains(url@),
{
    let mut i: usize = 0;
    while i < found.len()
        invariant
            0 <= i <= found@.len(),
            forall|j: int| 0 <= j < i ==> #[trigger] texts(found@)[j] != url@,
        decreases found@.len() - i,
    {
        assert(texts(found@)[i as int] == found@[i as int]@);
        if same_text(found[i].as_str(), url) {
            return true;
        }
        i += 1;
    }
    false
}

/// Adds the addresses in the text of an answer to those found before.
pub fn scan_text(found: Vec<String>, resp: &str) -> (r: Vec<String>)
    ensures
        texts(r@) == scanned(texts(found@), lines_of(resp@)),
{
    let all = lines(resp);
    let ghost views = texts(all@);
    let mut known = found;
    let mut i: usize = 0;
    assert(views.skip(0) =~= views);
    while i < all.len()
        invariant
            0 <= i <= all@.len(),
            views == texts(all@),
            views == lines_of(resp@),
            scanned(texts(found@), views) == scanned(texts(known@), views.skip(i as int)),
        decreases all@.len() - i,
    {
        let ghost rest = views.skip(i as int);
        assert(rest.first() == all@[i as int]@);
        assert(rest.drop_first() =~= views.skip(i + 1));
        if let Some(url) = location_in(all[i].as_str()) {
            if !is_known(&known, url.as_str()) {
                let ghost before = known@;
                known.push(url);
                assert(texts(known@) =~= texts(before).push(url@));
            }
        }
        i += 1;
    }
    known
}

/// Adds the addresses in an answer to those found before.
pub fn scan_response(found: Vec<String>, datagram: &[u8]) -> (r: Vec<String>)
    ensures
        texts(r@) == scanned(texts(found@), lines_of(lossy_text(datagram@))),
{
    let resp = from_utf8_lossy(datagram);
    scan_text(found, resp.as_str())
}

/// What was found stays, in its order, and nothing is found twice.
pub proof fn law_locations_are_distinct(found: Seq<Seq<char>>, lines: Seq<Seq<char>>)
    requires
        found.no_duplicates(),
    ensures
        scanned(found, lines).no_duplicates(),
        found.len() <= scanned(found, lines).len(),
        scanned(found, lines).take(found.len() as int) == found,
    decreases lines.len(),
{
    if lines.len() == 0 {
        assert(found.take(found.len() as int) =~= found);
    } else {
        let more = with_location(found, location_of(lines.first()));
        let all = scanned(found, lines);
        law_locations_are_distinct(more, lines.drop_first());
        assert(all.take(found.len() as int) =~= all.take(more.len() as int).take(found.len() as int));
        assert(more.take(found.len() as int) =~= found);
    }
}

/// Every address that is found was known before or is told by one of the lines, and each of
/// these is found.
pub proof fn law_found_is_what_was_told(found: Seq<Seq<char>>, lines: Seq<Seq<char>>, url: Seq<char>)
    ensures
        scanned(found, lines).contains(url) <==> found.contains(url) || exists|i: int|
            0 <= i < lines.len() && location_of(#[trigger] lines[i]) == Some(url),
    decreases lines.len(),
{
    if lines.len() > 0 {
        let told = location_of(lines.first());
        let more = with_location(found, told);
        let rest = lines.drop_first();
        law_found_is_what_was_told(more, rest, url);
        assert(more.contains(url) <==> found.contains(url) || told == Some(url)) by {
            if found.contains(url) {
                let k = choose|k: int| 0 <= k < found.len() && found[k] == url;
                assert(more[k] == url);
            } else if told == Some(url) {
                assert(more[found.len() as int] == url);
            }
        }
        assert(lines[0] == lines.first());
        if exists|i: int| 0 <= i < rest.len() && location_of(#[trigger] rest[i]) == Some(url) {
            let i = choose|i: int| 0 <= i < rest.len() && location_of(#[trigger] rest[i]) == Some(url);
            assert(lines[i + 1] == rest[i]);
        }
        if exists|i: int| 0 <= i < lines.len() && location_of(#[trigger] lines[i]) == Some(url) {
            let i = choose|i: int| 0 <= i < lines.len() && location_of(#[trigger] lines[i]) == Some(url);
            if i > 0 {
                assert(rest[i - 1] == lines[i]);
            }
        }
    }
}

/// White space at the start is trimmed off.
proof fn lemma_trim_gap(gap: Seq<char>, s: Seq<char>)
    requires
        forall|i: int| 0 <= i < gap.len() ==> white_space(#[trigger] gap[i]),
    ensures
        trimmed_start(gap + s) == trimmed_start(s),
    decreases gap.len(),
{
    if gap.len() == 0 {
        assert(gap + s =~= s);
    } else {
        assert((gap + s).drop_first() =~= gap.drop_first() + s);
        lemma_trim_gap(gap.drop_first(), s);
    }
}

/// White space at the end is trimmed off.
proof fn lemma_trim_tail(s: Seq<char>, tail: Seq<char>)
    requires
        forall|i: int| 0 <= i < tail.len() ==> white_space(#[trigger] tail[i]),
    ensures
        trimmed_end(s + tail) == trimmed_end(s),
    decreases tail.len(),
{
    if tail.len() == 0 {
        assert(s + tail =~= s);
    } else {
        assert((s + tail).drop_last() =~= s + tail.drop_last());
        lemma_trim_tail(s, tail.drop_last());
    }
}

/// The address of a description is found in its header: of a line that is the name of the
/// header in any case, then white space or none, then an address that neither begins nor ends
/// with white space, then white space or none, the address is taken as it is written.
pub proof fn law_location_is_found(name: Seq<char>, gap: Seq<char>, url: Seq<char>, tail: Seq<char>)
    requires
        is_ascii_chars(name),
        lowercase(name) == "location:"@,
        forall|i: int| 0 <= i < gap.len() ==> white_space(#[trigger] gap[i]),
        forall|i: int| 0 <= i < tail.len() ==> white_space(#[trigger] tail[i]),
        url.len() > 0 ==> !white_space(url.first()) && !white_space(url.last()),
    ensures
        location_of(name + gap + url + tail) == Some(url),
{
    reveal_strlit("location:");
    let line = name + gap + url + tail;
    assert(lowercase(name).len() == name.len());
    assert(name.len() == 9);
    assert forall|j: int| 0 <= j < 9 implies "location:"@[j] == ascii_lower(#[trigger] name[j]) by {
        assert(lowercase(name)[j] == ascii_lower(name[j]));
    }
    assert forall|j: int| 0 <= j < 8 implies !occurs_at(line, seq![':'], j) by {
        assert(line[j] == name[j]);
        if occurs_at(line, seq![':'], j) {
            assert(line.subrange(j, j + 1)[0] == ':');
        }
    }
    assert(line[8] == name[8] && name[8] == ':');
    assert(line.subrange(8, 9) =~= seq![':']);
    lemma_first_at_is(line, seq![':'], 0, 8);
    assert(line.take(9) =~= name);
    let value = line.skip(9);
    assert(value =~= gap + (url + tail));
    lemma_trim_gap(gap, url + tail);
    if url.len() > 0 {
        assert(trimmed_start(url + tail) == url + tail);
        lemma_trim_tail(url, tail);
    } else {
        assert(url + tail =~= tail + url);
        lemma_trim_gap(tail, url);
        assert(trimmed(value) =~= url);
    }
}

/// A line that begins with the name of the header, in any case, tells what follows it, trimmed,
/// whatever that is.
pub proof fn law_header_tells_the_rest(name: Seq<char>, rest: Seq<char>)
    requires
        is_ascii_chars(name),
        lowercase(name) == "location:"@,
    ensures
        location_of(name + rest) == Some(trimmed(rest)),
{
    let a = law_only_white_space_is_trimmed(rest);
    let url = trimmed(rest);
    let gap = rest.take(a);
    let tail = rest.skip(a + url.len());
    assert forall|i: int| 0 <= i < tail.len() implies white_space(#[trigger] tail[i]) by {
        assert(tail[i] == rest[i + a + url.len()]);
    }
    assert(name + gap + url + tail =~= name + rest);
    law_location_is_found(name, gap, url, tail);
}

/// A line that does not begin with the name of the header tells nothing.
pub proof fn law_other_lines_tell_nothing(line: Seq<char>)
    requires
        is_ascii_chars(line),
        line.len() < 9 || lowercase(line.take(9)) != "location:"@,
    ensures
        location_of(line) is None,
{
    reveal_strlit("location:");
    let colon = seq![':'];
    lemma_first_at(line, colon, 0);
    let name = header_name(line);
    assert forall|i: int| 0 <= i < name.len() implies #[trigger] name[i] == line[i] by {}
    assert(is_ascii_chars(name));
    assert(lowercase(name).len() == name.len());
    if lowercase(name) == "location:"@ {
        assert(name.len() == 9);
        assert(name =~= line.take(9));
    }
}

/// The lines are heard one after the other: what some lines and then others tell is what the
/// others add to what the first told, and a line adds its address behind all others, if it
/// tells one that is not known yet, and else nothing.
pub proof fn law_lines_are_heard_in_order(
    found: Seq<Seq<char>>,
    a: Seq<Seq<char>>,
    b: Seq<Seq<char>>,
    line: Seq<char>,
)
    ensures
        scanned(found, a + b) == scanned(scanned(found, a), b),
        scanned(found, Seq::empty()) == found,
        scanned(found, seq![line]) == match location_of(line) {
            Some(url) => if found.contains(url) {
                found
            } else {
                found.push(url)
            },
            None => found,
        },
    decreases a.len(),
{
    let one = seq![line];
    assert(one.drop_first() =~= Seq::empty());
    assert(scanned(found, one) == scanned(
        with_location(found, location_of(line)),
        Seq::<Seq<char>>::empty(),
    ));
    if a.len() == 0 {
        assert(a + b =~= b);
    } else {
        assert((a + b).drop_first() =~= a.drop_first() + b);
        law_lines_are_heard_in_order(
            with_location(found, location_of(a.first())),
            a.drop_first(),
            b,
            line,
        );
    }
}

/// An answer is read as the text that it was written as.
pub proof fn law_answers_are_text(s: Seq<char>)
    ensures
        lossy_text(encode_utf8(s)) == s,
{
    encode_utf8_valid_utf8(s);
    encode_utf8_decode_utf8(s);
}

/// The search goes to the group and port that it names, asks for discovery, and asks for media
/// renderers.
pub proof fn law_search_asks_for_renderers()
    ensures
        has_text(MSEARCH@, "M-SEARCH * HTTP/1.1\r\n"@),
        has_text(MSEARCH@, "\r\nHOST: 239.255.255.250:1900\r\n"@),
        has_text(MSEARCH@, "\r\nMAN: \"ssdp:discover\"\r\n"@),
        has_text(MSEARCH@, "\r\nMX: 2\r\n"@),
        has_text(MSEARCH@, "\r\nST: urn:schemas-upnp-org:device:MediaRenderer:1\r\n\r\n"@),
        GROUP@ == "239.255.255.250"@,
        PORT == 1900,
{
    reveal_strlit(
        "M-SEARCH * HTTP/1.1\r\nHOST: 239.255.255.250:1900\r\nMAN: \"ssdp:discover\"\r\nMX: 2\r\nST: urn:schemas-upnp-org:device:MediaRenderer:1\r\n\r\n",
    );
    reveal_strlit("M-SEARCH * HTTP/1.1\r\n");
    reveal_strlit("\r\nHOST: 239.255.255.250:1900\r\n");
    reveal_strlit("\r\nMAN: \"ssdp:discover\"\r\n");
    reveal_strlit("\r\nMX: 2\r\n");
    reveal_strlit("\r\nST: urn:schemas-upnp-org:device:MediaRenderer:1\r\n\r\n");
    assert(MSEARCH@.subrange(0, 21) =~= "M-SEARCH * HTTP/1.1\r\n"@);
    assert(occurs_at(MSEARCH@, "M-SEARCH * HTTP/1.1\r\n"@, 0));
    assert(MSEARCH@.subrange(19, 49) =~= "\r\nHOST: 239.255.255.250:1900\r\n"@);
    assert(occurs_at(MSEARCH@, "\r\nHOST: 239.255.255.250:1900\r\n"@, 19));
    assert(MSEARCH@.subrange(47, 71) =~= "\r\nMAN: \"ssdp:discover\"\r\n"@);
    assert(occurs_at(MSEARCH@, "\r\nMAN: \"ssdp:discover\"\r\n"@, 47));
    assert(MSEARCH@.subrange(69, 78) =~= "\r\nMX: 2\r\n"@);
    assert(occurs_at(MSEARCH@, "\r\nMX: 2\r\n"@, 69));
    assert(MSEARCH@.subrange(76, 129) =~= "\r\nST: urn:schemas-upnp-org:device:MediaRenderer:1\r\n\r\n"@);
    assert(occurs_at(
        MSEARCH@,
        "\r\nST: urn:schemas-upnp-org:device:MediaRenderer:1\r\n\r\n"@,
        76,
    ));
}

/// Every description is heard of: where a line of an answer is the header, in any case, and then
/// an address with or without white space around it, the address is found.
pub proof fn law_header_is_heard(
    found: Seq<Seq<char>>,
    lines: Seq<Seq<char>>,
    i: int,
    name: Seq<char>,
    rest: Seq<char>,
)
    requires
        0 <= i < lines.len(),
        lines[i] == name + rest,
        is_ascii_chars(name),
        lowercase(name) == "location:"@,
    ensures
        scanned(found, lines).contains(trimmed(rest)),
{
    law_header_tells_the_rest(name, rest);
    law_found_is_what_was_told(found, lines, trimmed(rest));
}

}
