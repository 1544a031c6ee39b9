//! Reading the small XML documents that network players answer with.

use crate::text::{
    append_range, chars_of, find_text, first_at, has_text, lemma_first_at, lemma_first_at_is, occurs_at, replace,
    replaced, string_of, text_of,
};
use vstd::prelude::*;

verus! {

/// `<name>`
pub open spec fn open_tag(name: Seq<char>) -> Seq<char> {
    seq!['<'] + name + seq!['>']
}

/// `</name>`
pub open spec fn close_tag(name: Seq<char>) -> Seq<char> {
    seq!['<', '/'] + name + seq!['>']
}

/// The text of `xml` from `start` up to the first `close` from there on.
pub open spec fn text_until(xml: Seq<char>, start: int, close: Seq<char>) -> Option<Seq<char>> {
    match first_at(xml, close, start) {
        Some(end) => Some(xml.subrange(start, end)),
        None => None,
    }
}

/// What may stand between `<` and `>` of an opening tag: it is no closing tag, and it
/// holds no blank and no `<`.
pub open spec fn opens(name: Seq<char>) -> bool {
    &&& !(name.len() > 0 && name[0] == '/')
    &&& !name.contains(' ')
    &&& !name.contains('<')
}

/// `s` ends with `pat`.
pub open spec fn ends_with(s: Seq<char>, pat: Seq<char>) -> bool {
    occurs_at(s, pat, s.len() - pat.len())
}

/// An element of this name is one of `tag`: `<tag>`, or `<ns:tag>` for any namespace `ns`.
pub open spec fn names(name: Seq<char>, tag: Seq<char>) -> bool {
    name == tag || (opens(name) && ends_with(name, seq![':'] + tag))
}

/// The `n` characters behind the one at `i`.
pub open spec fn name_at(xml: Seq<char>, i: int, n: int) -> Seq<char> {
    xml.subrange(i + 1, i + 1 + n)
}

/// The content of the element `<name>` that opens at `i`, with a name of `n` characters, if
/// it is one of `tag` and is closed by its own `</name>`.
pub open spec fn element(xml: Seq<char>, tag: Seq<char>, i: int, n: int) -> Option<Seq<char>> {
    if 0 <= i && 0 <= n && i + n + 1 < xml.len() && xml[i] == '<' && xml[i + n + 1] == '>' && names(
        name_at(xml, i, n),
        tag,
    ) {
        text_until(xml, i + n + 2, close_tag(name_at(xml, i, n)))
    } else {
        None
    }
}

/// The element that opens at `i`, with a name of `n` characters, is the first of `tag`; of
/// two that open at one position it is the one with the shorter name.
pub open spec fn first_element(xml: Seq<char>, tag: Seq<char>, i: int, n: int) -> bool {
    &&& element(xml, tag, i, n) is Some
    &&& forall|j: int, m: int|
        (#[trigger] element(xml, tag, j, m)) is Some ==> i < j || (i == j && n <= m)
}

/// The content of the first closed element that is `<tag>` or `<ns:tag>`.
pub open spec fn content(xml: Seq<char>, tag: Seq<char>) -> Option<Seq<char>> {
    if exists|i: int, n: int| (#[trigger] element(xml, tag, i, n)) is Some {
        let (i, n) = choose|i: int, n: int| first_element(xml, tag, i, n);
        element(xml, tag, i, n)
    } else {
        None
    }
}

/// There is only one first element.
proof fn lemma_content_is(xml: Seq<char>, tag: Seq<char>, i: int, n: int)
    requires
        first_element(xml, tag, i, n),
    ensures
        content(xml, tag) == element(xml, tag, i, n),
{
    let (j, m) = choose|j: int, m: int| first_element(xml, tag, j, m);
    assert(first_element(xml, tag, j, m));
    assert(element(xml, tag, j, m) is Some && element(xml, tag, i, n) is Some);
}

/// Where there is an element, there is a first.
proof fn lemma_first_element(xml: Seq<char>, tag: Seq<char>, i: int, n: int)
    requires
        element(xml, tag, i, n) is Some,
    ensures
        exists|j: int, m: int| first_element(xml, tag, j, m),
    decreases i, n,
{
    if !first_element(xml, tag, i, n) {
        let (j, m) = choose|j: int, m: int|
            (#[trigger] element(xml, tag, j, m)) is Some && !(i < j || (i == j && n <= m));
        lemma_first_element(xml, tag, j, m);
    }
}

/// The content that is read is that of the first closed element of `tag`, and there is none
/// only where no element of `tag` is closed.
pub proof fn law_first_element_is_read(xml: Seq<char>, tag: Seq<char>)
    ensures
        match content(xml, tag) {
            Some(t) => exists|i: int, n: int|
                first_element(xml, tag, i, n) && #[trigger] element(xml, tag, i, n) == Some(t),
            None => forall|i: int, n: int| (#[trigger] element(xml, tag, i, n)) is None,
        },
{
    if exists|i: int, n: int| (#[trigger] element(xml, tag, i, n)) is Some {
        let (i, n) = choose|i: int, n: int| (#[trigger] element(xml, tag, i, n)) is Some;
        lemma_first_element(xml, tag, i, n);
        let (j, m) = choose|j: int, m: int| first_element(xml, tag, j, m);
        lemma_content_is(xml, tag, j, m);
        assert(element(xml, tag, j, m) is Some);
    }
}

/// The characters `before`, `name`, `after` in a row.
fn around(before: &str, name: &Vec<char>, after: &str) -> (r: Vec<char>)
    ensures
        r@ == before@ + name@ + after@,
{
    let mut r = chars_of(before);
    append_range(&mut r, name, 0, name.len());
    let end = chars_of(after);
    append_range(&mut r, &end, 0, end.len());
    assert(name@.subrange(0, name@.len() as int) =~= name@);
    assert(end@.subrange(0, end@.len() as int) =~= end@);
    r
}

/// The text of `xml` from `start` up to the first `close` from there on.
fn read_until(xml: &Vec<char>, start: usize, close: &Vec<char>) -> (r: Option<String>)
    requires
        start <= xml@.len(),
    ensures
        match r {
            Some(t) => text_until(xml@, start as int, close@) == Some(t@),
            None => text_until(xml@, start as int, close@) is None,
        },
{
    match find_text(xml, close, start) {
        Some(end) => Some(text_of(xml, start, end)),
        None => None,
    }
}

/// Whether the character `c` stands in `s`.
fn holds_char(s: &Vec<char>, c: char) -> (r: bool)
    ensures
        r == s@.contains(c),
{
    let mut i: usize = 0;
    while i < s.len()
        invariant
            0 <= i <= s@.len(),
            forall|j: int| 0 <= j < i ==> s@[j] != c,
        decreases s@.len() - i,
    {
        if s[i] == c {
            return true;
        }
        i += 1;
    }
    false
}

/// Whether an element of this name is one of `tag`.
fn is_name(name: &Vec<char>, tag: &Vec<char>) -> (r: bool)
    ensures
        r == names(name@, tag@),
{
    let n = name.len();
    let k = tag.len();
    if n < k {
        return false;
    }
    let ghost end = seq![':'] + tag@;
    let from = n - k;
    let mut i: usize = 0;
    while i < k
        invariant
            0 <= i <= k,
            k == tag@.len(),
            n == name@.len(),
            from + k == n,
            end == seq![':'] + tag@,
            forall|j: int| 0 <= j < i ==> name@[from + j] == tag@[j],
        decreases k - i,
    {
        if name[from + i] != tag[i] {
            proof {
                if n == k {
                    assert(name@[i as int] != tag@[i as int]);
                } else if occurs_at(name@, end, n - end.len()) {
                    assert(name@.subrange(n - end.len(), n as int)[i + 1] == end[i + 1]);
                }
            }
            return false;
        }
        i += 1;
    }
    if n == k {
        assert(name@ =~= tag@);
        return true;
    }
    proof {
        if name@[from - 1] == ':' {
            assert(name@.subrange(n - end.len(), n as int) =~= end);
        } else if occurs_at(name@, end, n - end.len()) {
            assert(name@.subrange(n - end.len(), n as int)[0] == end[0]);
        }
    }
    name[from - 1] == ':' && name[0] != '/' && !holds_char(name, ' ') && !holds_char(name, '<')
}

/// Extract the text content of the first `<tag>` or `<ns:tag>` element.
pub fn tag_content(xml: &str, tag: &str) -> (r: Option<String>)
    ensures
        match r {
            Some(t) => content(xml@, tag@) == Some(t@),
            None => content(xml@, tag@) is None,
        },
{
    proof {
        reveal_strlit("</");
        reveal_strlit(">");
    }
    let x = chars_of(xml);
    let n = x.len();
    let t = chars_of(tag);
    let mut i: usize = 0;
    while i < n
        invariant
            0 <= i <= n == x@.len(),
            x@ == xml@,
            t@ == tag@,
            "</"@ =~= seq!['<', '/'],
            ">"@ =~= seq!['>'],
            forall|j: int, m: int| (#[trigger] element(x@, t@, j, m)) is Some ==> i <= j,
        decreases n - i,
    {
        if x[i] == '<' {
            let mut end: usize = i + 1;
            while end < n
                invariant_except_break
                    forall|j: int, m: int|
                        (#[trigger] element(x@, t@, j, m)) is Some ==> i < j || (i == j && end - i - 1
                            <= m),
                invariant
                    i < end <= n == x@.len(),
                    x@ == xml@,
                    t@ == tag@,
                    "</"@ =~= seq!['<', '/'],
                    ">"@ =~= seq!['>'],
                    x@[i as int] == '<',
                ensures
                    forall|j: int, m: int| (#[trigger] element(x@, t@, j, m)) is Some ==> i < j,
                decreases n - end,
            {
                let ghost len = end - i - 1;
                if x[end] == '>' {
                    let mut name: Vec<char> = Vec::new();
                    append_range(&mut name, &x, i + 1, end);
                    assert(name@ =~= name_at(x@, i as int, len));
                    if is_name(&name, &t) {
                        let close = around("</", &name, ">");
                        assert(close@ =~= close_tag(name@));
                        let found = read_until(&x, end + 1, &close);
                        if found.is_some() {
                            proof {
                                assert(first_element(x@, t@, i as int, len));
                                lemma_content_is(x@, t@, i as int, len);
                            }
                            return found;
                        }
                    }
                }
                assert(element(x@, t@, i as int, len) is None);
                if x[end] == '<' && end - i > t.len() {
                    assert forall|j: int, m: int| (#[trigger] element(x@, t@, j, m)) is Some implies i < j by {
                        if i == j && len < m {
                            assert(name_at(x@, j, m)[len] == '<');
                        }
                    }
                    break;
                }
                end += 1;
            }
        }
        i += 1;
    }
    None
}

/// `s` with the five predefined entities of XML replaced by what they stand for, the
/// ampersand last.
pub open spec fn unescaped(s: Seq<char>) -> Seq<char> {
    let lt = replaced(s, "&lt;"@, "<"@);
    let gt = replaced(lt, "&gt;"@, ">"@);
    let quot = replaced(gt, "&quot;"@, "\""@);
    let apos = replaced(quot, "&apos;"@, "'"@);
    replaced(apos, "&amp;"@, "&"@)
}

/// `s` with every `pat` replaced by `to`.
fn replace_str(s: &Vec<char>, pat: &str, to: &str) -> (r: Vec<char>)
    requires
        pat@.len() > 0,
    ensures
        r@ == replaced(s@, pat@, to@),
{
    let p = chars_of(pat);
    let q = chars_of(to);
    replace(s, &p, &q)
}

/// Replaces the predefined entities of XML by what they stand for.
pub fn xml_unescape(s: &str) -> (r: String)
    ensures
        r@ == unescaped(s@),
{
    proof {
        reveal_strlit("&lt;");
        reveal_strlit("&gt;");
        reveal_strlit("&quot;");
        reveal_strlit("&apos;");
        reveal_strlit("&amp;");
    }
    let v = chars_of(s);
    let lt = replace_str(&v, "&lt;", "<");
    let gt = replace_str(&lt, "&gt;", ">");
    let quot = replace_str(&gt, "&quot;", "\"");
    let apos = replace_str(&quot, "&apos;", "'");
    let amp = replace_str(&apos, "&amp;", "&");
    string_of(&amp)
}

/// What stands within the first part of a text stands there in the part.
proof fn lemma_occurs_within(a: Seq<char>, b: Seq<char>, pat: Seq<char>, j: int)
    requires
        0 <= j,
        j + pat.len() <= a.len(),
    ensures
        occurs_at(a + b, pat, j) == occurs_at(a, pat, j),
{
    assert((a + b).subrange(j, j + pat.len()) =~= a.subrange(j, j + pat.len()));
}

/// What stands in a text after its first part stands in the rest.
proof fn lemma_occurs_after(a: Seq<char>, b: Seq<char>, pat: Seq<char>, j: int)
    requires
        a.len() <= j,
    ensures
        occurs_at(a + b, pat, j) == occurs_at(b, pat, j - a.len()),
{
    if j + pat.len() <= a.len() + b.len() {
        assert((a + b).subrange(j, j + pat.len()) =~= b.subrange(
            j - a.len(),
            j - a.len() + pat.len(),
        ));
    }
}

/// The text between a position and the first closing tag that follows it.
proof fn lemma_text_until(head: Seq<char>, text: Seq<char>, close: Seq<char>, after: Seq<char>)
    requires
        forall|j: int| 0 <= j < text.len() ==> !occurs_at(text + close, close, j),
    ensures
        text_until(head + text + close + after, head.len() as int, close) == Some(text),
{
    let doc = head + text + close + after;
    let rest = text + close + after;
    assert(doc =~= head + rest);
    assert forall|j: int| 0 <= j < text.len() implies !occurs_at(rest, close, j) by {
        lemma_occurs_within(text + close, after, close, j);
    }
    assert(rest.subrange(text.len() as int, (text.len() + close.len()) as int) =~= close);
    assert forall|j: int| head.len() <= j < head.len() + text.len() implies !occurs_at(doc, close, j) by {
        lemma_occurs_after(head, rest, close, j);
    }
    lemma_occurs_after(head, rest, close, (head.len() + text.len()) as int);
    lemma_first_at_is(doc, close, head.len() as int, (head.len() + text.len()) as int);
    assert(doc.subrange(head.len() as int, (head.len() + text.len()) as int) =~= text);
}

/// The content of an element is read back: what is written between `<name>` and `</name>`
/// is what `tag_content` gives for `tag`, where `name` is `tag` with or without a namespace,
/// if the text does not close the element itself and no element of `tag` that opens before
/// it, or opens with it and has a shorter name, is closed.
pub proof fn law_element_read_back(
    before: Seq<char>,
    name: Seq<char>,
    tag: Seq<char>,
    text: Seq<char>,
    after: Seq<char>,
)
    requires
        names(name, tag),
        forall|j: int, m: int|
            j < before.len() || (j == before.len() && m < name.len()) ==> (#[trigger] element(
                before + open_tag(name) + text + close_tag(name) + after,
                tag,
                j,
                m,
            )) is None,
        forall|j: int| 0 <= j < text.len() ==> !occurs_at(text + close_tag(name), close_tag(name), j),
    ensures
        content(before + open_tag(name) + text + close_tag(name) + after, tag) == Some(text),
{
    let open = open_tag(name);
    let close = close_tag(name);
    let head = before + open;
    let doc = before + open + text + close + after;
    let i = before.len() as int;
    let n = name.len() as int;
    assert(name_at(doc, i, n) =~= name);
    lemma_text_until(head, text, close, after);
    assert(element(doc, tag, i, n) == Some(text));
    lemma_content_is(doc, tag, i, n);
}

/// An element that nothing opens before is read back, whatever follows it.
pub proof fn law_leading_element_read_back(
    before: Seq<char>,
    name: Seq<char>,
    tag: Seq<char>,
    text: Seq<char>,
    after: Seq<char>,
)
    requires
        !before.contains('<'),
        !name.contains('>'),
        names(name, tag),
        forall|j: int| 0 <= j < text.len() ==> !occurs_at(text + close_tag(name), close_tag(name), j),
    ensures
        content(before + open_tag(name) + text + close_tag(name) + after, tag) == Some(text),
{
    let doc = before + open_tag(name) + text + close_tag(name) + after;
    assert forall|j: int, m: int|
        j < before.len() || (j == before.len() && m < name.len()) implies (#[trigger] element(
        doc,
        tag,
        j,
        m,
    )) is None by {
        if 0 <= j < before.len() {
            assert(doc[j] == before[j]);
        } else if j == before.len() && 0 <= m {
            assert(doc[j + m + 1] == name[m]);
        }
    }
    law_element_read_back(before, name, tag, text, after);
}

/// How a character is written where the first `done` of the entities `&lt;`, `&gt;`,
/// `&quot;`, `&apos;`, `&amp;` have been replaced again.
spec fn written(c: char, done: int) -> Seq<char> {
    if c == '<' && done < 1 {
        "&lt;"@
    } else if c == '>' && done < 2 {
        "&gt;"@
    } else if c == '"' && done < 3 {
        "&quot;"@
    } else if c == '\'' && done < 4 {
        "&apos;"@
    } else if c == '&' && done < 5 {
        "&amp;"@
    } else {
        seq![c]
    }
}

/// A text of characters so written.
spec fn written_text(s: Seq<char>, done: int) -> Seq<char>
    decreases s.len(),
{
    if s.len() == 0 {
        Seq::empty()
    } else {
        written(s.first(), done) + written_text(s.drop_first(), done)
    }
}

/// How XML writes a character of a text.
pub open spec fn escaped_char(c: char) -> Seq<char> {
    if c == '<' {
        "&lt;"@
    } else if c == '>' {
        "&gt;"@
    } else if c == '"' {
        "&quot;"@
    } else if c == '\'' {
        "&apos;"@
    } else if c == '&' {
        "&amp;"@
    } else {
        seq![c]
    }
}

/// How XML writes a text.
pub open spec fn escaped(s: Seq<char>) -> Seq<char>
    decreases s.len(),
{
    if s.len() == 0 {
        Seq::empty()
    } else {
        escaped_char(s.first()) + escaped(s.drop_first())
    }
}

/// Where no occurrence begins in the first part of a text, the part stays as it is.
proof fn lemma_replaced_after(a: Seq<char>, b: Seq<char>, pat: Seq<char>, to: Seq<char>)
    requires
        pat.len() > 0,
        forall|j: int| 0 <= j < a.len() ==> !occurs_at(a + b, pat, j),
    ensures
        replaced(a + b, pat, to) == a + replaced(b, pat, to),
{
    let s = a + b;
    lemma_first_at(s, pat, 0);
    lemma_first_at(b, pat, 0);
    match first_at(b, pat, 0) {
        Some(i) => {
            let k = a.len() + i;
            assert(occurs_at(s, pat, k)) by {
                lemma_occurs_after(a, b, pat, k);
            }
            assert forall|j: int| 0 <= j < k implies !occurs_at(s, pat, j) by {
                if j >= a.len() {
                    lemma_occurs_after(a, b, pat, j);
                }
            }
            lemma_first_at_is(s, pat, 0, k);
            assert(s.take(k) =~= a + b.take(i));
            assert(s.skip(k + pat.len()) =~= b.skip(i + pat.len()));
            assert(s.take(k) + to + replaced(b.skip(i + pat.len()), pat, to) =~= a + (b.take(i) + to
                + replaced(b.skip(i + pat.len()), pat, to)));
        },
        None => {
            match first_at(s, pat, 0) {
                Some(j) => {
                    lemma_occurs_after(a, b, pat, j);
                },
                None => {},
            }
        },
    }
}

/// A text that begins with the pattern.
proof fn lemma_replaced_at_start(b: Seq<char>, pat: Seq<char>, to: Seq<char>)
    requires
        pat.len() > 0,
    ensures
        replaced(pat + b, pat, to) == to + replaced(b, pat, to),
{
    let s = pat + b;
    assert(s.subrange(0, pat.len() as int) =~= pat);
    assert(first_at(s, pat, 0) == Some(0int));
    assert(s.take(0) + to =~= to);
    assert(s.skip(pat.len() as int) =~= b);
}

/// The entity that is replaced as the one with the number `done`, and its character.
spec fn entity(done: int) -> (char, Seq<char>) {
    if done == 0 {
        ('<', "&lt;"@)
    } else if done == 1 {
        ('>', "&gt;"@)
    } else if done == 2 {
        ('"', "&quot;"@)
    } else if done == 3 {
        ('\'', "&apos;"@)
    } else {
        ('&', "&amp;"@)
    }
}

/// No occurrence of an entity begins in another character as it is written.
proof fn lemma_no_entity_in(c: char, rest: Seq<char>, done: int, j: int)
    requires
        0 <= done < 5,
        c != entity(done).0,
        0 <= j < written(c, done).len(),
    ensures
        !occurs_at(written(c, done) + rest, entity(done).1, j),
{
    reveal_strlit("&lt;");
    reveal_strlit("&gt;");
    reveal_strlit("&quot;");
    reveal_strlit("&apos;");
    reveal_strlit("&amp;");
    let w = written(c, done);
    let s = w + rest;
    let pat = entity(done).1;
    if occurs_at(s, pat, j) {
        let sub = s.subrange(j, j + pat.len());
        assert(sub[0] == pat[0] && sub[0] == s[j]);
        assert(sub[1] == pat[1] && sub[1] == s[j + 1]);
        assert(sub[2] == pat[2] && sub[2] == s[j + 2]);
        assert(w[j] == '&');
        assert(j == 0);
        assert(w.len() > 1);
        assert(w[1] == pat[1] && w[2] == pat[2]);
    }
}

/// One replacement takes a text one step further.
proof fn lemma_replace_entity(s: Seq<char>, done: int)
    requires
        0 <= done < 5,
    ensures
        replaced(written_text(s, done), entity(done).1, seq![entity(done).0]) == written_text(
            s,
            done + 1,
        ),
    decreases s.len(),
{
    reveal_strlit("&lt;");
    reveal_strlit("&gt;");
    reveal_strlit("&quot;");
    reveal_strlit("&apos;");
    reveal_strlit("&amp;");
    let (c0, pat) = entity(done);
    if s.len() == 0 {
        assert(first_at(written_text(s, done), pat, 0) is None);
    } else {
        let c = s.first();
        let rest = s.drop_first();
        lemma_replace_entity(rest, done);
        let w = written_text(rest, done);
        if c == c0 {
            lemma_replaced_at_start(w, pat, seq![c0]);
        } else {
            assert forall|j: int| 0 <= j < written(c, done).len() implies !occurs_at(
                written(c, done) + w,
                pat,
                j,
            ) by {
                lemma_no_entity_in(c, w, done, j);
            }
            lemma_replaced_after(written(c, done), w, pat, seq![c0]);
        }
    }
}

proof fn lemma_written_ends(s: Seq<char>)
    ensures
        written_text(s, 0) == escaped(s),
        written_text(s, 5) == s,
    decreases s.len(),
{
    if s.len() > 0 {
        lemma_written_ends(s.drop_first());
        assert(seq![s.first()] + s.drop_first() =~= s);
    } else {
        assert(written_text(s, 5) =~= s);
    }
}

/// Escaping is undone: any text, written as XML writes it, is read back unchanged.
pub proof fn law_unescape_undoes_escape(s: Seq<char>)
    ensures
        unescaped(escaped(s)) == s,
{
    reveal_strlit("<");
    reveal_strlit(">");
    reveal_strlit("\"");
    reveal_strlit("'");
    reveal_strlit("&");
    assert("<"@ =~= seq!['<']);
    assert(">"@ =~= seq!['>']);
    assert("\""@ =~= seq!['"']);
    assert("'"@ =~= seq!['\'']);
    assert("&"@ =~= seq!['&']);
    lemma_written_ends(s);
    lemma_replace_entity(s, 0);
    lemma_replace_entity(s, 1);
    lemma_replace_entity(s, 2);
    lemma_replace_entity(s, 3);
    lemma_replace_entity(s, 4);
}

/// A text without an ampersand is unescaped to itself.
pub proof fn law_unescape_keeps_plain_text(s: Seq<char>)
    requires
        !s.contains('&'),
    ensures
        unescaped(s) == s,
{
    reveal_strlit("&lt;");
    reveal_strlit("&gt;");
    reveal_strlit("&quot;");
    reveal_strlit("&apos;");
    reveal_strlit("&amp;");
    assert forall|pat: Seq<char>, to: Seq<char>|
        pat.len() > 0 && pat[0] == '&' implies #[trigger] replaced(s, pat, to) == s by {
        lemma_first_at(s, pat, 0);
        match first_at(s, pat, 0) {
            Some(i) => {
                assert(s.subrange(i, i + pat.len())[0] == '&');
                assert(s[i] == '&');
            },
            None => {},
        }
    }
}

/// An element is found behind anything that does not itself end a tag of `tag`.
proof fn lemma_element_found(
    before: Seq<char>,
    name: Seq<char>,
    tag: Seq<char>,
    text: Seq<char>,
    after: Seq<char>,
)
    requires
        names(name, tag),
        !name.contains('<'),
        !name.contains('>'),
        !tag.contains('<'),
        !has_text(before, tag + seq!['>']),
        !has_text(text, seq!['<', '/'] + name + seq!['>']),
    ensures
        content(
            before + seq!['<'] + name + seq!['>'] + text + (seq!['<', '/'] + name + seq!['>']) + after,
            tag,
        ) == Some(text),
{
    let close = close_tag(name);
    let doc = before + open_tag(name) + text + close + after;
    let b = before.len() as int;
    assert(doc =~= before + seq!['<'] + name + seq!['>'] + text + close + after);
    assert forall|j: int, m: int|
        j < b || (j == b && m < name.len()) implies (#[trigger] element(doc, tag, j, m)) is None by {
        if element(doc, tag, j, m) is Some {
            let nm = name_at(doc, j, m);
            if j == b {
                assert(doc[j + m + 1] == name[m]);
            } else if j + m + 1 < b {
                let k = j + 1 + m - tag.len();
                let end = tag + seq!['>'];
                if nm == tag {
                    assert(before.subrange(k, k + end.len()) =~= end);
                } else {
                    let q = seq![':'] + tag;
                    assert(nm.subrange(m - q.len(), m) == q);
                    assert forall|i: int| 0 <= i < end.len() implies before.subrange(k, k + end.len())[i]
                        == end[i] by {
                        if i < tag.len() {
                            assert(nm.subrange(m - q.len(), m)[i + 1] == q[i + 1]);
                        }
                    }
                    assert(before.subrange(k, k + end.len()) =~= end);
                }
                assert(occurs_at(before, end, k));
            } else if j + m + 1 > b {
                assert(doc[b] == '<');
                assert(nm[b - j - 1] == '<');
            } else {
                assert(doc[b] == '<');
            }
        }
    }
    assert forall|j: int| 0 <= j < text.len() implies !occurs_at(text + close, close, j) by {
        if occurs_at(text + close, close, j) {
            if j + close.len() <= text.len() {
                lemma_occurs_within(text, close, close, j);
                assert(occurs_at(text, close, j));
            } else {
                let k = text.len() - j;
                assert((text + close).subrange(j, j + close.len())[k] == close[k]);
                assert(close[k] == '<');
                if k >= 2 && k < close.len() - 1 {
                    assert(name[k - 2] == '<');
                }
            }
        }
    }
    law_element_read_back(before, name, tag, text, after);
}

/// The content of `<tag>` is found: whatever stands before that does not end a tag of this
/// name, and whatever follows, the text between `<tag>` and `</tag>` is given.
pub proof fn law_plain_element_is_found(
    before: Seq<char>,
    tag: Seq<char>,
    text: Seq<char>,
    after: Seq<char>,
)
    requires
        !tag.contains('<'),
        !tag.contains('>'),
        !has_text(before, tag + seq!['>']),
        !has_text(text, seq!['<', '/'] + tag + seq!['>']),
    ensures
        content(
            before + seq!['<'] + tag + seq!['>'] + text + (seq!['<', '/'] + tag + seq!['>']) + after,
            tag,
        ) == Some(text),
{
    lemma_element_found(before, tag, tag, text, after);
}

/// The content of `<ns:tag>` is found as that of `<tag>` is, for any namespace.
pub proof fn law_qualified_element_is_found(
    before: Seq<char>,
    ns: Seq<char>,
    tag: Seq<char>,
    text: Seq<char>,
    after: Seq<char>,
)
    requires
        !tag.contains('<'),
        !tag.contains('>'),
        !tag.contains(' '),
        !ns.contains('<'),
        !ns.contains('>'),
        !ns.contains(' '),
        ns.len() > 0,
        ns[0] != '/',
        !has_text(before, tag + seq!['>']),
        !has_text(text, seq!['<', '/'] + (ns + seq![':'] + tag) + seq!['>']),
    ensures
        content(
            before + seq!['<'] + (ns + seq![':'] + tag) + seq!['>'] + text + (seq!['<', '/'] + (ns + seq![
                ':',
            ] + tag) + seq!['>']) + after,
            tag,
        ) == Some(text),
{
    let name = ns + seq![':'] + tag;
    let q = seq![':'] + tag;
    assert(name.subrange(name.len() - q.len(), name.len() as int) =~= q);
    assert forall|c: char| c == '<' || c == '>' || c == ' ' implies !name.contains(c) by {
        if name.contains(c) {
            let i = choose|i: int| 0 <= i < name.len() && name[i] == c;
            if i < ns.len() {
                assert(ns[i] == c);
            } else if i > ns.len() {
                assert(tag[i - ns.len() - 1] == c);
            }
        }
    }
    lemma_element_found(before, name, tag, text, after);
}

/// `t` stands in `xml` between a `<name>` at `i`, with a name of `n` characters that is `tag`,
/// or ends in `:tag` and is a single word that opens an element, and the first `</name>` behind
/// it.
pub open spec fn encloses(xml: Seq<char>, tag: Seq<char>, i: int, n: int, t: Seq<char>) -> bool {
    let name = xml.subrange(i + 1, i + 1 + n);
    let start = i + n + 2;
    let end = start + t.len();
    &&& 0 <= i && 0 <= n && end + n + 3 <= xml.len()
    &&& xml[i] == '<' && xml[i + 1 + n] == '>'
    &&& name == tag || (n > tag.len() && name[n - tag.len() - 1] == ':' && name.skip(n - tag.len()) == tag
        && name[0] != '/' && !name.contains(' ') && !name.contains('<'))
    &&& xml.subrange(start, end) == t
    &&& xml.subrange(end, end + n + 3) == seq!['<', '/'] + name + seq!['>']
    &&& !has_text(t, seq!['<', '/'] + name + seq!['>'])
}

/// Nothing but the content of an element of `tag` is given: it stands between an opening tag
/// and the closing tag of the same name.
pub proof fn law_content_is_enclosed(xml: Seq<char>, tag: Seq<char>)
    ensures
        content(xml, tag) matches Some(t) ==> exists|i: int, n: int| encloses(xml, tag, i, n, t),
{
    law_first_element_is_read(xml, tag);
    if let Some(t) = content(xml, tag) {
        let (i, n) = choose|i: int, n: int|
            first_element(xml, tag, i, n) && #[trigger] element(xml, tag, i, n) == Some(t);
        let name = name_at(xml, i, n);
        let close = close_tag(name);
        let start = i + n + 2;
        lemma_first_at(xml, close, start);
        let end = first_at(xml, close, start)->0;
        assert(t == xml.subrange(start, end));
        assert(close.len() == n + 3);
        if name != tag {
            let q = seq![':'] + tag;
            let sub = name.subrange(n - q.len(), n);
            assert(sub == q);
            assert(sub[0] == ':');
            assert forall|k: int| 0 <= k < tag.len() implies name.skip(n - tag.len())[k] == tag[k] by {
                assert(sub[k + 1] == q[k + 1]);
            }
            assert(name.skip(n - tag.len()) =~= tag);
        }
        if has_text(t, close) {
            let k = choose|k: int| occurs_at(t, close, k);
            assert(t.subrange(k, k + close.len()) =~= xml.subrange(start + k, start + k + close.len()));
            assert(occurs_at(xml, close, start + k));
        }
        assert(encloses(xml, tag, i, n, t));
    }
}

/// Where nothing ends a tag of this name there is no element of it.
pub proof fn law_no_tag_no_content(xml: Seq<char>, tag: Seq<char>)
    requires
        !has_text(xml, tag + seq!['>']),
    ensures
        content(xml, tag) is None,
{
    law_content_is_enclosed(xml, tag);
    if let Some(t) = content(xml, tag) {
        let (i, n) = choose|i: int, n: int| encloses(xml, tag, i, n, t);
        let name = xml.subrange(i + 1, i + 1 + n);
        let k = i + 1 + n - tag.len();
        let end = tag + seq!['>'];
        assert forall|j: int| 0 <= j < end.len() implies xml.subrange(k, k + end.len())[j] == end[j] by {
            if j < tag.len() {
                if name != tag {
                    assert(name.skip(n - tag.len())[j] == tag[j]);
                }
            }
        }
        assert(xml.subrange(k, k + end.len()) =~= end);
        assert(occurs_at(xml, end, k));
    }
}

/// Without a match, nothing is replaced.
proof fn lemma_nothing_replaced(s: Seq<char>, pat: Seq<char>, to: Seq<char>)
    requires
        !has_text(s, pat),
    ensures
        replaced(s, pat, to) == s,
{
    lemma_first_at(s, pat, 0);
}

/// Nothing but the five predefined entities is replaced: a text that holds none of them stays
/// as it is, whatever ampersands it holds.
pub proof fn law_unescape_keeps_all_else(s: Seq<char>)
    requires
        !has_text(s, "&lt;"@),
        !has_text(s, "&gt;"@),
        !has_text(s, "&quot;"@),
        !has_text(s, "&apos;"@),
        !has_text(s, "&amp;"@),
    ensures
        unescaped(s) == s,
{
    lemma_nothing_replaced(s, "&lt;"@, "<"@);
    lemma_nothing_replaced(s, "&gt;"@, ">"@);
    lemma_nothing_replaced(s, "&quot;"@, "\""@);
    lemma_nothing_replaced(s, "&apos;"@, "'"@);
    lemma_nothing_replaced(s, "&amp;"@, "&"@);
}

}
