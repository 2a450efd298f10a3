//! The XML event stream: a plain model of the tokens that `quick_xml` yields,
//! and the reader that produces them.

use quick_xml::events::attributes::Attribute;
use quick_xml::events::BytesStart;
use quick_xml::events::Event;
use quick_xml::name::QName;
use quick_xml::reader::Reader;
use crate::text::same_bytes;
use vstd::prelude::*;
use vstd::string::StringSliceAdditionalSpecFns;
use vstd::utf8::decode_utf8;
use vstd::utf8::valid_utf8;

verus! {

/// One `key="value"` pair of a tag, both parts as the bytes found in the document.
#[derive(Debug)]
pub struct XmlAttribute {
    pub key: Vec<u8>,
    pub value: Vec<u8>,
}

/// The name and the well-formed attributes of a start or empty-element tag.
#[derive(Debug)]
pub struct XmlTag {
    pub name: Vec<u8>,
    pub attributes: Vec<XmlAttribute>,
}

/// One token of an XML document.
#[derive(Debug)]
pub enum XmlEvent {
    /// `<name ...>`
    Start(XmlTag),
    /// `<name .../>`
    Empty(XmlTag),
    /// `</name>`, holding the name.
    End(Vec<u8>),
    /// Character data between tags, still escaped.
    Text(Vec<u8>),
    /// A declaration, comment, CDATA section, processing instruction or doctype.
    Other,
    /// The document ended.
    Eof,
    /// The document is not well-formed here; holds the tokenizer's message.
    Malformed(String),
}

/// Why a part could not be read to its end.
#[derive(Debug)]
pub enum XmlError {
    /// The document is not well-formed; holds the tokenizer's message.
    Malformed(String),
    /// A text holds bytes that are not UTF-8 or a reference that cannot be
    /// resolved; holds what the unescaping said of it.
    Unescape(String),
}

/// An `XmlError` as plain data.
pub enum XmlFailure {
    Malformed(Seq<char>),
    Unescape(Seq<char>),
}

impl View for XmlError {
    type V = XmlFailure;

    open spec fn view(&self) -> XmlFailure {
        match self {
            XmlError::Malformed(m) => XmlFailure::Malformed(m@),
            XmlError::Unescape(m) => XmlFailure::Unescape(m@),
        }
    }
}

impl XmlEvent {
    /// No event follows a terminal one.
    pub open spec fn is_terminal(self) -> bool {
        self is Eof || self is Malformed
    }
}

/// `quick_xml::reader::Reader`, of which nothing is known but what it has yet to yield.
#[verifier::external_type_specification]
#[verifier::external_body]
#[verifier::reject_recursive_types(R)]
pub struct ExReader<R>(Reader<R>);

/// The tokens of the document `input`, up to and including the first terminal one.
pub uninterp spec fn xml_events(input: Seq<u8>) -> Seq<XmlEvent>;

/// The tokens that `reader` has yet to yield, up to and including the first terminal one.
pub uninterp spec fn pending_events(reader: Reader<&[u8]>) -> Seq<XmlEvent>;

/// `Reader::from_reader` on a byte slice: a reader at the start of `input`,
/// configured by default, which will yield the tokens of `input`.
#[verifier::external_body]
pub(crate) fn open_reader(input: &[u8]) -> (reader: Reader<&[u8]>)
    ensures
        pending_events(reader) == xml_events(input@),
{
    Reader::from_reader(input)
}

/// `Reader::read_event`: yields the first pending token and moves past it. The
/// tokenizer's error is the `Malformed` token; after it or `Eof` nothing is pending
/// but that token.
#[verifier::external_body]
pub(crate) fn next_event(reader: &mut Reader<&[u8]>) -> (event: XmlEvent)
    ensures
        pending_events(*old(reader)).len() >= 1,
        event == pending_events(*old(reader))[0],
        event.is_terminal() <==> pending_events(*old(reader)).len() == 1,
        !event.is_terminal() ==> pending_events(*final(reader)) == pending_events(
            *old(reader),
        ).drop_first(),
{
    let tag = |e: BytesStart| XmlTag {
        name: e.name().0.to_vec(),
        attributes: e.attributes().flatten().map(|a| XmlAttribute { key: a.key.0.to_vec(), value: a.value.to_vec() }).collect(),
    };
    match reader.read_event() {
        Err(e) => XmlEvent::Malformed(e.to_string()),
        Ok(Event::Start(e)) => XmlEvent::Start(tag(e)),
        Ok(Event::Empty(e)) => XmlEvent::Empty(tag(e)),
        Ok(Event::End(e)) => XmlEvent::End(e.to_vec()),
        Ok(Event::Text(t)) => XmlEvent::Text(t.to_vec()),
        Ok(Event::Eof) => XmlEvent::Eof,
        Ok(_) => XmlEvent::Other,
    }
}

/// Where the element `name`, whose start tag has just been read, ends in `events`:
/// the position, from `from` on, of the end tag `name` that no later start tag
/// `name` has claimed, `depth` such start tags being open already. `None` if the
/// stream ends before it.
pub open spec fn closing_index(events: Seq<XmlEvent>, name: Seq<u8>, from: int, depth: nat) -> Option<int>
    decreases events.len() - from,
{
    if from < 0 || from >= events.len() {
        None
    } else {
        match events[from] {
            XmlEvent::Start(tag) => closing_index(
                events,
                name,
                from + 1,
                if tag.name@ == name { depth + 1 } else { depth },
            ),
            XmlEvent::End(n) => if n@ != name {
                closing_index(events, name, from + 1, depth)
            } else if depth == 0 {
                Some(from)
            } else {
                closing_index(events, name, from + 1, (depth - 1) as nat)
            },
            XmlEvent::Eof => None,
            XmlEvent::Malformed(_) => None,
            _ => closing_index(events, name, from + 1, depth),
        }
    }
}

/// What is left of `events` behind the end of the element `name`, whose start
/// tag has just been read; `None` if the stream ends before it.
pub open spec fn after_element(events: Seq<XmlEvent>, name: Seq<u8>) -> Option<Seq<XmlEvent>> {
    match closing_index(events, name, 0, 0) {
        Some(k) => if 0 <= k < events.len() {
            Some(events.skip(k + 1))
        } else {
            None
        },
        None => None,
    }
}

/// An element ends at or behind the place from which its end is sought.
pub proof fn lemma_closing_index_bounds(events: Seq<XmlEvent>, name: Seq<u8>, from: int, depth: nat)
    ensures
        closing_index(events, name, from, depth) matches Some(k) ==> 0 <= from <= k < events.len(),
    decreases events.len() - from,
{
    if 0 <= from < events.len() {
        lemma_closing_index_bounds(events, name, from + 1, depth);
        lemma_closing_index_bounds(events, name, from + 1, depth + 1);
        if depth > 0 {
            lemma_closing_index_bounds(events, name, from + 1, (depth - 1) as nat);
        }
    }
}

/// `Reader::read_to_end`: reads on to the end tag that closes the element `name`,
/// counting nested elements of the same name, and leaves the reader just behind
/// it. Where the stream ends first, it fails with the tokenizer's message.
#[verifier::external_body]
pub(crate) fn skip_element(reader: &mut Reader<&[u8]>, name: &[u8]) -> (failure: Option<String>)
    ensures
        failure is None <==> closing_index(pending_events(*old(reader)), name@, 0, 0) is Some,
        failure is None ==> pending_events(*final(reader)) == pending_events(*old(reader)).skip(
            closing_index(pending_events(*old(reader)), name@, 0, 0).unwrap() + 1,
        ),
{
    reader.read_to_end(QName(name)).err().map(|e| e.to_string())
}

/// What XML unescaping makes of `raw`: its text with every character and
/// predefined entity reference resolved, or, where `raw` is not UTF-8 or holds a
/// reference that cannot be resolved, what the unescaping says of it.
pub uninterp spec fn xml_unescaped(raw: Seq<u8>) -> Result<Seq<char>, Seq<char>>;

/// `Attribute::unescape_value` on the raw bytes `raw`: decodes them as UTF-8 and
/// resolves the references, by the two steps that `BytesText::unescape` takes too;
/// the error is given by its message. UTF-8 without `&` holds no reference and
/// comes back as it is.
#[verifier::external_body]
pub(crate) fn unescape(raw: &[u8]) -> (text: Result<String, String>)
    ensures
        text is Ok <==> xml_unescaped(raw@) is Ok,
        text is Ok ==> text->Ok_0@ == xml_unescaped(raw@)->Ok_0,
        text is Err ==> text->Err_0@ == xml_unescaped(raw@)->Err_0,
        valid_utf8(raw@) && !raw@.contains(38u8) ==> text is Ok && text->Ok_0@ == decode_utf8(raw@),
{
    Attribute::from((&raw[..0], raw)).unescape_value().map(|t| t.into_owned()).map_err(|e| e.to_string())
}

/// How the letters of a name are folded before it is compared.
#[derive(Debug, Clone, Copy, PartialEq, Eq, Structural)]
pub enum Fold {
    Keep,
    Lower,
    Upper,
}

/// `b` with an ASCII letter folded as `fold` says; any other byte is kept.
pub open spec fn fold_byte(b: u8, fold: Fold) -> u8 {
    match fold {
        Fold::Keep => b,
        Fold::Lower => if 65 <= b && b <= 90 {
            (b + 32) as u8
        } else {
            b
        },
        Fold::Upper => if 97 <= b && b <= 122 {
            (b - 32) as u8
        } else {
            b
        },
    }
}

/// `s` with every byte folded.
pub open spec fn folded(s: Seq<u8>, fold: Fold) -> Seq<u8> {
    Seq::new(s.len(), |i: int| fold_byte(s[i], fold))
}

pub open spec fn ends_with(s: Seq<u8>, suffix: Seq<u8>) -> bool {
    suffix.len() <= s.len() && s.skip(s.len() - suffix.len()) == suffix
}

/// Whether the tag name `actual` counts as the element `expect`: it is `expect`
/// up to the case of ASCII letters, or it ends in `expect` as written, in lower
/// case or in upper case (so that a namespace prefix does not matter).
pub open spec fn tag_matches(actual: Seq<u8>, expect: Seq<u8>) -> bool {
    folded(actual, Fold::Lower) == folded(expect, Fold::Lower) || ends_with(actual, expect)
        || ends_with(actual, folded(expect, Fold::Lower)) || ends_with(
        actual,
        folded(expect, Fold::Upper),
    )
}

/// Folds one byte.
pub fn fold(b: u8, how: Fold) -> (f: u8)
    ensures
        f == fold_byte(b, how),
{
    match how {
        Fold::Keep => b,
        Fold::Lower => if 65 <= b && b <= 90 {
            b + 32
        } else {
            b
        },
        Fold::Upper => if 97 <= b && b <= 122 {
            b - 32
        } else {
            b
        },
    }
}

/// Whether `actual` ends in `expect`, folded.
pub fn ends_with_folded(actual: &[u8], expect: &[u8], how: Fold) -> (ends: bool)
    ensures
        ends == ends_with(actual@, folded(expect@, how)),
{
    let n: usize = expect.len();
    if n > actual.len() {
        return false;
    }
    let base: usize = actual.len() - n;
    let ghost tail = actual@.skip(base as int);
    let ghost want = folded(expect@, how);
    let mut i: usize = 0;
    while i < n
        invariant
            i <= n == expect.len(),
            base + n == actual.len(),
            tail == actual@.skip(base as int),
            want == folded(expect@, how),
            forall|j: int| 0 <= j < i ==> tail[j] == want[j],
        decreases n - i,
    {
        if actual[base + i] != fold(expect[i], how) {
            assert(tail[i as int] != want[i as int]);
            return false;
        }
        i = i + 1;
    }
    assert(tail =~= want);
    true
}

/// Whether `a` and `b` are the same up to the case of ASCII letters.
pub fn same_ignoring_case(a: &[u8], b: &[u8]) -> (same: bool)
    ensures
        same == (folded(a@, Fold::Lower) == folded(b@, Fold::Lower)),
{
    if a.len() != b.len() {
        assert(folded(a@, Fold::Lower).len() != folded(b@, Fold::Lower).len());
        return false;
    }
    let ghost fa = folded(a@, Fold::Lower);
    let ghost fb = folded(b@, Fold::Lower);
    let mut i: usize = 0;
    while i < a.len()
        invariant
            i <= a.len() == b.len(),
            fa == folded(a@, Fold::Lower),
            fb == folded(b@, Fold::Lower),
            forall|j: int| 0 <= j < i ==> fa[j] == fb[j],
        decreases a.len() - i,
    {
        if fold(a[i], Fold::Lower) != fold(b[i], Fold::Lower) {
            assert(fa[i as int] != fb[i as int]);
            return false;
        }
        i = i + 1;
    }
    assert(fa =~= fb);
    true
}

/// Whether the tag name `actual` counts as the element `expect`.
pub fn tag_eq_ignore_case(actual: &[u8], expect: &str) -> (matches: bool)
    ensures
        matches == tag_matches(actual@, expect.spec_bytes()),
{
    let want = expect.as_bytes();
    assert(folded(want@, Fold::Keep) =~= want@);
    same_ignoring_case(actual, want) || ends_with_folded(actual, want, Fold::Keep)
        || ends_with_folded(actual, want, Fold::Lower) || ends_with_folded(
        actual,
        want,
        Fold::Upper,
    )
}

/// Where the last attribute named `key` or `alt` stands among `attributes`.
pub open spec fn attribute_index(attributes: Seq<XmlAttribute>, key: Seq<u8>, alt: Seq<u8>) -> Option<int>
    decreases attributes.len(),
{
    if attributes.len() == 0 {
        None
    } else if attributes.last().key@ == key || attributes.last().key@ == alt {
        Some(attributes.len() - 1)
    } else {
        attribute_index(attributes.drop_last(), key, alt)
    }
}

/// The value of the last attribute named `key` or `alt`, as written.
pub open spec fn attribute_value(attributes: Seq<XmlAttribute>, key: Seq<u8>, alt: Seq<u8>) -> Option<Seq<u8>> {
    match attribute_index(attributes, key, alt) {
        Some(i) => Some(attributes[i].value@),
        None => None,
    }
}

/// Finds the last attribute named `key` or `alt`.
pub fn find_attribute<'a>(attributes: &'a Vec<XmlAttribute>, key: &str, alt: &str) -> (found: Option<&'a Vec<u8>>)
    ensures
        match attribute_value(attributes@, key.spec_bytes(), alt.spec_bytes()) {
            Some(v) => found is Some && found.unwrap()@ == v,
            None => found is None,
        },
{
    let mut i: usize = attributes.len();
    assert(attributes@.take(i as int) =~= attributes@);
    while i > 0
        invariant
            i <= attributes.len(),
            attribute_index(attributes@, key.spec_bytes(), alt.spec_bytes()) == attribute_index(
                attributes@.take(i as int),
                key.spec_bytes(),
                alt.spec_bytes(),
            ),
        decreases i,
    {
        assert(attributes@.take(i as int).drop_last() =~= attributes@.take(i - 1));
        let name = attributes[i - 1].key.as_slice();
        if same_bytes(name, key.as_bytes()) || same_bytes(name, alt.as_bytes()) {
            return Some(&attributes[i - 1].value);
        }
        i = i - 1;
    }
    None
}

} // verus!
