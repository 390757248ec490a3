use vstd::prelude::*;

use quick_xml::events::attributes::{AttrError, Attribute, Attributes};
use quick_xml::events::{BytesStart, BytesText, Event};
use quick_xml::Reader;

verus! {

#[verifier::external_type_specification]
#[verifier::external_body]
#[verifier::reject_recursive_types(R)]
pub struct ExReader<R>(Reader<R>);

#[verifier::external_type_specification]
#[verifier::external_body]
pub struct ExBytesStart<'a>(BytesStart<'a>);

#[verifier::external_type_specification]
#[verifier::external_body]
pub struct ExBytesText<'a>(BytesText<'a>);

#[verifier::external_type_specification]
#[verifier::external_body]
pub struct ExAttributes<'a>(Attributes<'a>);

#[verifier::external_type_specification]
#[verifier::external_body]
pub struct ExAttribute<'a>(Attribute<'a>);

#[verifier::external_type_specification]
#[verifier::external_body]
pub struct ExXmlError(quick_xml::Error);

#[verifier::external_type_specification]
#[verifier::external_body]
pub struct ExAttrError(AttrError);

/// What an event of the reader is: the name of a start, empty or end tag,
/// a text, the end of the input, or anything else (comments, declarations,
/// CDATA and the like).
pub enum XmlHead {
    Start(Seq<u8>),
    Empty(Seq<u8>),
    End(Seq<u8>),
    Text,
    Eof,
    Other,
}

/// The `k`-th event (counting from 0) that `Reader::read_event` hands out
/// for the text `xml`, the reader being made by `Reader::from_str` and set
/// to trim whitespace around text; `None` when that call fails.
pub uninterp spec fn xml_event(xml: Seq<char>, k: nat) -> Option<XmlHead>;

/// What `Iterator::next` on the attributes of the `k`-th event of `xml`
/// gives the `j`-th time: the key of an attribute, `Some(None)` at the end,
/// `None` for a malformed attribute.
pub uninterp spec fn xml_attribute(xml: Seq<char>, k: nat, j: nat) -> Option<Option<Seq<u8>>>;

/// What `Attribute::unescape_value` gives for the `j`-th attribute of the
/// `k`-th event of `xml`: its value with the entities replaced, `None` when
/// that fails.
pub uninterp spec fn xml_attribute_value(xml: Seq<char>, k: nat, j: nat) -> Option<Seq<char>>;

/// What `BytesText::unescape` gives for the `k`-th event of `xml`, a text:
/// the text with the entities replaced, `None` when that fails.
pub uninterp spec fn xml_text(xml: Seq<char>, k: nat) -> Option<Seq<char>>;

/// A reader over an XML text that trims whitespace around text, together
/// with the text and the number of events it has handed out.
pub struct XmlReader<'a> {
    reader: Reader<&'a [u8]>,
    doc: Ghost<Seq<char>>,
    read: Ghost<nat>,
}

impl<'a> View for XmlReader<'a> {
    type V = (Seq<char>, nat);

    closed spec fn view(&self) -> (Seq<char>, nat) {
        (self.doc@, self.read@)
    }
}

/// A start or empty tag, with the text and the number of the event it is.
pub struct XmlTag<'a> {
    tag: BytesStart<'a>,
    at: Ghost<(Seq<char>, nat)>,
}

impl<'a> View for XmlTag<'a> {
    type V = (Seq<char>, nat);

    closed spec fn view(&self) -> (Seq<char>, nat) {
        self.at@
    }
}

/// A text event, with the text and the number of the event it is.
pub struct XmlText<'a> {
    text: BytesText<'a>,
    at: Ghost<(Seq<char>, nat)>,
}

impl<'a> View for XmlText<'a> {
    type V = (Seq<char>, nat);

    closed spec fn view(&self) -> (Seq<char>, nat) {
        self.at@
    }
}

/// The attributes of a tag as they are read, with the tag's text and event
/// number and the number of attributes handed out.
pub struct XmlAttrs<'a> {
    iter: Attributes<'a>,
    at: Ghost<(Seq<char>, nat)>,
    read: Ghost<nat>,
}

impl<'a> View for XmlAttrs<'a> {
    type V = (Seq<char>, nat, nat);

    closed spec fn view(&self) -> (Seq<char>, nat, nat) {
        (self.at@.0, self.at@.1, self.read@)
    }
}

/// An attribute, with the text, the event number and its own number.
pub struct XmlAttr<'a> {
    attr: Attribute<'a>,
    at: Ghost<(Seq<char>, nat, nat)>,
}

impl<'a> View for XmlAttr<'a> {
    type V = (Seq<char>, nat, nat);

    closed spec fn view(&self) -> (Seq<char>, nat, nat) {
        self.at@
    }
}

/// An event of the reader: the names of tags as bytes, the tags and texts
/// kept for reading their attributes and contents later.
pub enum XmlEvent<'a> {
    Start(Vec<u8>, XmlTag<'a>),
    Empty(Vec<u8>, XmlTag<'a>),
    End(Vec<u8>),
    Text(XmlText<'a>),
    Eof,
    Other,
}

/// What an event is, and whether its tag or text is the `k`-th event of
/// `xml`.
pub open spec fn event_is(e: XmlEvent, xml: Seq<char>, k: nat) -> bool {
    match e {
        XmlEvent::Start(n, t) => xml_event(xml, k) == Some(XmlHead::Start(n@)) && t@ == (xml, k),
        XmlEvent::Empty(n, t) => xml_event(xml, k) == Some(XmlHead::Empty(n@)) && t@ == (xml, k),
        XmlEvent::End(n) => xml_event(xml, k) == Some(XmlHead::End(n@)),
        XmlEvent::Text(t) => xml_event(xml, k) == Some(XmlHead::Text) && t@ == (xml, k),
        XmlEvent::Eof => xml_event(xml, k) == Some(XmlHead::Eof),
        XmlEvent::Other => xml_event(xml, k) == Some(XmlHead::Other),
    }
}

/// Whether an event was read without failure and is not the end of the
/// input.
pub open spec fn goes_on(h: Option<XmlHead>) -> bool {
    match h {
        Some(XmlHead::Eof) => false,
        Some(_) => true,
        None => false,
    }
}

/// Whether the first `k` events of `xml` are all read without failure and
/// none is the end of the input.
pub open spec fn events_go_on(xml: Seq<char>, k: nat) -> bool {
    forall|i: nat| i < k ==> goes_on(#[trigger] xml_event(xml, i))
}

/// Calls `Reader::from_str` on `xml` and `Config::trim_text(true)` on the
/// reader's configuration: a reader at the start of `xml` that has handed
/// out no event yet.
#[verifier::external_body]
pub(crate) fn open_xml<'a>(xml: &'a str) -> (r: XmlReader<'a>)
    ensures
        r@ == (xml@, 0nat),
{
    let mut reader = Reader::from_str(xml);
    reader.config_mut().trim_text(true);
    XmlReader { reader, doc: Ghost(xml@), read: Ghost(0) }
}

/// Calls `Reader::read_event`: the next event, `xml_event` of the text at
/// the number of events handed out so far, with the names of tags copied.
/// Every event but the end of the input takes at least one character of
/// the text, so once as many events as the text has characters have come
/// without failure or end, the next call fails or reports the end.
#[verifier::external_body]
pub(crate) fn read_event<'a>(r: &mut XmlReader<'a>) -> (e: Result<XmlEvent<'a>, quick_xml::Error>)
    ensures
        final(r)@ == (old(r)@.0, old(r)@.1 + 1),
        match e {
            Ok(ev) => event_is(ev, old(r)@.0, old(r)@.1),
            Err(_) => xml_event(old(r)@.0, old(r)@.1) is None,
        },
        events_go_on(old(r)@.0, old(r)@.1) && old(r)@.1 >= old(r)@.0.len() ==> (e is Err || e matches Ok(
            XmlEvent::Eof,
        )),
{
    let at = Ghost((r.doc@, r.read@));
    r.read = Ghost(r.read@ + 1);
    Ok(match r.reader.read_event()? {
        Event::Start(e) => XmlEvent::Start(e.name().0.to_vec(), XmlTag { tag: e, at }),
        Event::Empty(e) => XmlEvent::Empty(e.name().0.to_vec(), XmlTag { tag: e, at }),
        Event::End(e) => XmlEvent::End(e.name().0.to_vec()),
        Event::Text(t) => XmlEvent::Text(XmlText { text: t, at }),
        Event::Eof => XmlEvent::Eof,
        _ => XmlEvent::Other,
    })
}

/// Calls `BytesStart::attributes`: the attributes of the tag, none read yet.
#[verifier::external_body]
pub(crate) fn attributes<'b>(t: &'b XmlTag) -> (r: XmlAttrs<'b>)
    ensures
        r@ == (t@.0, t@.1, 0nat),
{
    XmlAttrs { iter: t.tag.attributes(), at: Ghost(t.at@), read: Ghost(0) }
}

/// Calls `Iterator::next` on the attributes of a tag: `xml_attribute` of
/// the tag at the number of attributes handed out so far, with the key
/// copied. Every attribute takes at least one character of the text, so
/// once as many attributes as the text has characters have come, the next
/// call gives no attribute.
#[verifier::external_body]
pub(crate) fn next_attribute<'b>(it: &mut XmlAttrs<'b>) -> (r: Option<Result<(Vec<u8>, XmlAttr<'b>), AttrError>>)
    ensures
        final(it)@ == (old(it)@.0, old(it)@.1, old(it)@.2 + 1),
        match r {
            None => xml_attribute(old(it)@.0, old(it)@.1, old(it)@.2) == Some(None::<Seq<u8>>),
            Some(Ok((key, a))) => xml_attribute(old(it)@.0, old(it)@.1, old(it)@.2) == Some(
                Some(key@),
            ) && a@ == old(it)@,
            Some(Err(_)) => xml_attribute(old(it)@.0, old(it)@.1, old(it)@.2) is None,
        },
        (forall|i: nat|
            i < old(it)@.2 ==> #[trigger] xml_attribute(old(it)@.0, old(it)@.1, i) matches Some(
                Some(_),
            )) && old(it)@.2 >= old(it)@.0.len() ==> !(r matches Some(Ok(_))),
{
    let at = Ghost((it.at@.0, it.at@.1, it.read@));
    it.read = Ghost(it.read@ + 1);
    match it.iter.next() {
        None => None,
        Some(Ok(a)) => Some(Ok((a.key.as_ref().to_vec(), XmlAttr { attr: a, at }))),
        Some(Err(e)) => Some(Err(e)),
    }
}

/// Calls `Attribute::unescape_value`: `xml_attribute_value` of the
/// attribute.
#[verifier::external_body]
pub(crate) fn attribute_value(a: &XmlAttr) -> (r: Result<String, quick_xml::Error>)
    ensures
        match r {
            Ok(v) => xml_attribute_value(a@.0, a@.1, a@.2) == Some(v@),
            Err(_) => xml_attribute_value(a@.0, a@.1, a@.2) is None,
        },
{
    match a.attr.unescape_value() {
        Ok(v) => Ok(v.into_owned()),
        Err(e) => Err(e),
    }
}

/// Calls `BytesText::unescape`: `xml_text` of the event.
#[verifier::external_body]
pub(crate) fn text_value(t: &XmlText) -> (r: Result<String, quick_xml::Error>)
    ensures
        match r {
            Ok(v) => xml_text(t@.0, t@.1) == Some(v@),
            Err(_) => xml_text(t@.0, t@.1) is None,
        },
{
    match t.text.unescape() {
        Ok(v) => Ok(v.into_owned()),
        Err(e) => Err(e),
    }
}

} // verus!
