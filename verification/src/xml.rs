//! XML events of svn's `--xml` output, read with `quick_xml`.
//!
//! The reader is driven to its end once; the parsers of `parser` then walk
//! the resulting events.  Element names and attribute values are decoded
//! with `String::from_utf8_lossy`, text with `BytesText::unescape`
//! (undecodable text counts as empty), and surrounding whitespace of text
//! is trimmed by the reader.

use vstd::prelude::*;

use quick_xml::events::{BytesStart, Event};
use quick_xml::Reader;

use crate::text::{chars_of, eq_chars, lossy_string};
use crate::xml::XmlEvent::{Empty, End, Eof, Error, Other, Start, Text};

verus! {

#[verifier::external_type_specification]
#[verifier::external_body]
#[verifier::reject_recursive_types(R)]
pub struct ExReader<R>(Reader<R>);

/// A start or empty-element tag: its name and its attributes in order.
#[derive(Debug, Clone)]
pub struct XmlTag {
    pub name: String,
    pub attrs: Vec<(String, String)>,
}

/// One event of the reader.
#[derive(Debug, Clone)]
pub enum XmlEvent {
    Start(XmlTag),
    Empty(XmlTag),
    End(String),
    Text(String),
    Eof,
    Error(String),
    /// CDATA, comments, declarations, processing instructions, doctype.
    Other,
}

pub struct TagModel {
    pub name: Seq<char>,
    pub attrs: Seq<(Seq<char>, Seq<char>)>,
}

pub enum EventModel {
    Start(TagModel),
    Empty(TagModel),
    End(Seq<char>),
    Text(Seq<char>),
    Eof,
    Error(Seq<char>),
    Other,
}

impl DeepView for XmlTag {
    type V = TagModel;

    open spec fn deep_view(&self) -> TagModel {
        TagModel { name: self.name@, attrs: self.attrs.deep_view() }
    }
}

impl DeepView for XmlEvent {
    type V = EventModel;

    open spec fn deep_view(&self) -> EventModel {
        match self {
            XmlEvent::Start(t) => EventModel::Start(t.deep_view()),
            XmlEvent::Empty(t) => EventModel::Empty(t.deep_view()),
            XmlEvent::End(n) => EventModel::End(n@),
            XmlEvent::Text(t) => EventModel::Text(t@),
            XmlEvent::Eof => EventModel::Eof,
            XmlEvent::Error(m) => EventModel::Error(m@),
            XmlEvent::Other => EventModel::Other,
        }
    }
}

/// The events `quick_xml::Reader` (with `trim_text(true)`) reads from a
/// document, up to and including `Eof` or the first error.
pub uninterp spec fn xml_events(xml: Seq<u8>) -> Seq<EventModel>;

/// The events a reader has still to give, up to and including `Eof` or
/// the first error.
pub uninterp spec fn reader_rest(r: Reader<&[u8]>) -> Seq<EventModel>;

/// An event after which the reader has nothing more to say.
pub open spec fn is_last(e: EventModel) -> bool {
    e is Eof || e is Error
}

/// `quick_xml::Reader::from_reader` on the bytes, with `trim_text(true)`:
/// the reader gives the events `xml_events` names, which end with the
/// first `Eof` or error.
#[verifier::external_body]
fn open_reader(xml: &[u8]) -> (res: Reader<&[u8]>)
    ensures
        reader_rest(res) == xml_events(xml@),
        reader_rest(res).len() > 0,
        is_last(reader_rest(res).last()),
        forall|i: int| 0 <= i < reader_rest(res).len() - 1 ==> !is_last(#[trigger] reader_rest(res)[i]),
{
    let mut r = Reader::from_reader(xml);
    r.config_mut().trim_text(true);
    r
}

/// `quick_xml::Reader::read_event`, converted: the next event; names and
/// attribute keys and values decoded with `String::from_utf8_lossy` (the
/// attributes `quick_xml` reports as malformed left out, as
/// `attributes().flatten()` does), text unescaped (undecodable text counts
/// as empty), an error by its message.
#[verifier::external_body]
fn next_event(r: &mut Reader<&[u8]>) -> (res: XmlEvent)
    requires
        reader_rest(*old(r)).len() > 0,
    ensures
        res.deep_view() == reader_rest(*old(r))[0],
        reader_rest(*final(r)) == reader_rest(*old(r)).drop_first(),
{
    let tag = |e: &BytesStart| XmlTag {
        name: lossy_string(e.name().0),
        attrs: e.attributes().flatten().map(|a| (lossy_string(a.key.0), lossy_string(&a.value))).collect(),
    };
    match r.read_event() {
        Ok(Event::Start(e)) => Start(tag(&e)),
        Ok(Event::Empty(e)) => Empty(tag(&e)),
        Ok(Event::End(e)) => End(lossy_string(e.name().0)),
        Ok(Event::Text(t)) => Text(t.unescape().unwrap_or_default().into_owned()),
        Ok(Event::Eof) => Eof,
        Err(e) => Error(e.to_string()),
        Ok(_) => Other,
    }
}

/// All events of `xml`, up to and including `Eof` or the first error.
pub(crate) fn xml_tokenize(xml: &[u8]) -> (res: Vec<XmlEvent>)
    ensures
        res.deep_view() == xml_events(xml@),
{
    let mut r = open_reader(xml);
    let ghost all = xml_events(xml@);
    let mut out: Vec<XmlEvent> = Vec::new();
    assert(out.deep_view() + reader_rest(r) =~= all);
    loop
        invariant
            all == xml_events(xml@),
            all.len() > 0,
            is_last(all.last()),
            forall|i: int| 0 <= i < all.len() - 1 ==> !is_last(#[trigger] all[i]),
            out.deep_view() + reader_rest(r) == all,
            forall|i: int| 0 <= i < out.deep_view().len() ==> !is_last(#[trigger] out.deep_view()[i]),
        decreases reader_rest(r).len(),
    {
        proof {
            if reader_rest(r).len() == 0 {
                assert(out.deep_view() =~= all);
                assert(!is_last(out.deep_view()[all.len() - 1]));
            }
        }
        let ghost rest = reader_rest(r);
        let ghost before = out.deep_view();
        let ev = next_event(&mut r);
        let last = match &ev {
            XmlEvent::Eof => true,
            XmlEvent::Error(_) => true,
            _ => false,
        };
        let ghost em = ev.deep_view();
        out.push(ev);
        assert(out.deep_view() =~= before.push(em));
        assert(out.deep_view() + reader_rest(r) =~= before + rest);
        if last {
            assert(before.len() + 1 == all.len()) by {
                if before.len() + 1 < all.len() {
                    assert(all[before.len() as int] == em);
                }
            }
            assert(reader_rest(r).len() == 0);
            assert(out.deep_view() =~= all);
            return out;
        }
    }
}

/// The value of the first attribute named `key`.
pub open spec fn attr_of(t: TagModel, key: Seq<char>) -> Option<Seq<char>> {
    attr_in(t.attrs, key)
}

pub open spec fn attr_in(attrs: Seq<(Seq<char>, Seq<char>)>, key: Seq<char>) -> Option<Seq<char>>
    decreases attrs.len(),
{
    if attrs.len() == 0 {
        None
    } else if attrs[0].0 == key {
        Some(attrs[0].1)
    } else {
        attr_in(attrs.drop_first(), key)
    }
}

/// The value of the first attribute named `key`.
pub fn attr(t: &XmlTag, key: &str) -> (res: Option<String>)
    ensures
        res.deep_view() == attr_of(t.deep_view(), key@),
{
    let k = chars_of(key);
    let ghost attrs = t.attrs.deep_view();
    let mut i: usize = 0;
    assert(attrs.skip(0) =~= attrs);
    while i < t.attrs.len()
        invariant
            attrs == t.attrs.deep_view(),
            k@ == key@,
            i <= t.attrs@.len(),
            attr_in(attrs.skip(i as int), key@) == attr_in(attrs, key@),
        decreases t.attrs@.len() - i,
    {
        assert(attrs.skip(i as int).drop_first() =~= attrs.skip(i + 1));
        assert(attrs.skip(i as int)[0] == attrs[i as int]);
        let kc = chars_of(t.attrs[i].0.as_str());
        if eq_chars(kc.as_slice(), k.as_slice()) {
            return Some(t.attrs[i].1.clone());
        }
        i = i + 1;
    }
    assert(attrs.skip(i as int) =~= Seq::<(Seq<char>, Seq<char>)>::empty());
    None
}

/// Whether a string equals a literal.
pub fn str_is(s: &str, lit: &str) -> (res: bool)
    ensures
        res == (s@ == lit@),
{
    let a = chars_of(s);
    let b = chars_of(lit);
    eq_chars(a.as_slice(), b.as_slice())
}

} // verus!
