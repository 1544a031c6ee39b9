use jarlid::xml::{tag_content, xml_unescape};

fn some(s: &str) -> Option<String> {
    Some(s.to_string())
}

#[test]
fn plain_elements() {
    assert_eq!(tag_content("<a><b>x</b></a>", "b"), some("x"));
    assert_eq!(tag_content("<a><b>x</b></a>", "a"), some("<b>x</b>"));
    assert_eq!(tag_content("<b></b>", "b"), some(""));
    assert_eq!(tag_content("<b>1</b><b>2</b>", "b"), some("1"));
    assert_eq!(tag_content("<b>é</b>", "b"), some("é"));
}

#[test]
fn missing_elements() {
    assert_eq!(tag_content("", "b"), None);
    assert_eq!(tag_content("<b>x", "b"), None);
    assert_eq!(tag_content("x</b>", "b"), None);
    assert_eq!(tag_content("<b id=\"1\">x</b>", "b"), None);
    assert_eq!(tag_content("<B>x</B>", "b"), None);
}

#[test]
fn qualified_elements() {
    assert_eq!(tag_content("<dc:title>x</dc:title>", "title"), some("x"));
    assert_eq!(tag_content("<a:t><upnp:t>y</upnp:t>", "t"), some("y"));
    assert_eq!(tag_content("</dc:t><x:t>y</x:t>", "t"), some("y"));
    assert_eq!(tag_content("<a b:t>x</a b:t>", "t"), None);
    assert_eq!(tag_content("no:t>x</no:t>", "t"), None);
    assert_eq!(tag_content("<dc:t>x</upnp:t>", "t"), None);
    assert_eq!(tag_content("<dc:t>é<b>ü</dc:t>", "t"), some("é<b>ü"));
}

#[test]
fn the_first_closed_element_is_read() {
    let xml = "<dc:title>A</dc:title><title>B</title>";
    assert_eq!(tag_content(xml, "title"), some("A"));
    assert_eq!(tag_content("<t>2</t><x:t>1</x:t>", "t"), some("2"));
    assert_eq!(tag_content("<x:t>1<y:t>2</y:t><t>3</t>", "t"), some("2"));
    assert_eq!(tag_content("<t>1<x:t>2</x:t>", "t"), some("2"));
    assert_eq!(tag_content("<t><x:t>2</x:t></t>", "t"), some("<x:t>2</x:t>"));
    assert_eq!(tag_content("<x:t><t>2</t></x:t>", "t"), some("<t>2</t>"));
}

#[test]
fn an_element_is_read_back_after_other_text() {
    assert_eq!(tag_content("at 10:t> <x:t>y</x:t>", "t"), some("y"));
    assert_eq!(tag_content("<a/> b:t> <z:t> <t>y</t>", "t"), some("y"));
    assert_eq!(tag_content("<x>a:t>1</x>a:t>", "t"), some("1"));
    assert_eq!(tag_content("<a:t>b:t>1</a:t>b:t>", "t"), some("b:t>1"));
    assert_eq!(tag_content("<a:t>b:t>1</a:t", "t"), None);
}

#[test]
fn entities_are_replaced() {
    assert_eq!(xml_unescape("&lt;a&gt; &quot;b&quot; &apos;c&apos; &amp;"), "<a> \"b\" 'c' &");
    assert_eq!(xml_unescape("&amp;lt;"), "&lt;");
    assert_eq!(xml_unescape("&lt"), "&lt");
    assert_eq!(xml_unescape("&#39;"), "&#39;");
}

#[test]
fn entity_replacement_goes_in_order() {
    assert_eq!(xml_unescape("&&lt;t;"), "&<t;");
    assert_eq!(xml_unescape("&amp;amp;"), "&amp;");
    assert_eq!(xml_unescape("&am&lt;p;"), "&am<p;");
}

#[test]
fn escaped_text_is_read_back() {
    for s in ["", "Rock & Roll", "<\"it's\">", "&lt;", "&amp;amp;", "&;lt", "a&&b"] {
        let escaped = s
            .replace('&', "&amp;")
            .replace('<', "&lt;")
            .replace('>', "&gt;")
            .replace('"', "&quot;")
            .replace('\'', "&apos;");
        assert_eq!(xml_unescape(&escaped), s);
    }
}

#[test]
fn plain_text_is_unescaped_to_itself() {
    assert_eq!(xml_unescape("no entity; here"), "no entity; here");
    assert_eq!(xml_unescape(""), "");
}
