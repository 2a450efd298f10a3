//! The shared strings of a workbook: the pool that cells refer to by index.

use crate::text::strings_model;
use crate::xml::next_event;
use crate::xml::open_reader;
use crate::xml::pending_events;
use crate::xml::tag_eq_ignore_case;
use crate::xml::tag_matches;
use crate::xml::unescape;
use crate::xml::xml_events;
use crate::xml::xml_unescaped;
use crate::xml::XmlError;
use crate::xml::XmlEvent;
use crate::xml::XmlFailure;
use vstd::prelude::*;
use vstd::string::StringExecFns;
use vstd::string::StringSliceAdditionalSpecFns;

verus! {

/// A reading of the shared-strings part, between two events.
#[derive(Debug)]
pub struct StringCollector {
    strings: Vec<String>,
    in_item: bool,
    current: String,
}

/// A `StringCollector` as plain data.
pub struct CollectModel {
    /// The strings closed so far, in the order of their declaration.
    pub strings: Seq<Seq<char>>,
    /// Whether a string item is open.
    pub in_item: bool,
    /// The text of the item opened last.
    pub current: Seq<char>,
}

impl CollectModel {
    pub open spec fn initial() -> CollectModel {
        CollectModel { strings: Seq::empty(), in_item: false, current: Seq::empty() }
    }
}

impl View for StringCollector {
    type V = CollectModel;

    closed spec fn view(&self) -> CollectModel {
        CollectModel {
            strings: strings_model(self.strings@),
            in_item: self.in_item,
            current: self.current@,
        }
    }
}

/// The reading after `event`: a start tag `si` opens an item with no text, a text
/// inside an item adds its unescaped text to it, and an end tag `si` closes the
/// item as the next string. An empty-element tag `si` is an item without text:
/// it gives the empty string as the next string, so that it takes its index.
/// `Err` where a text inside an item cannot be unescaped.
pub open spec fn collect_step(state: CollectModel, event: XmlEvent) -> Result<CollectModel, XmlFailure> {
    match event {
        XmlEvent::Start(tag) => if tag_matches(tag.name@, "si".spec_bytes()) {
            Ok(CollectModel { in_item: true, current: Seq::empty(), ..state })
        } else {
            Ok(state)
        },
        XmlEvent::End(name) => if tag_matches(name@, "si".spec_bytes()) {
            Ok(CollectModel { strings: state.strings.push(state.current), in_item: false, ..state })
        } else {
            Ok(state)
        },
        XmlEvent::Empty(tag) => if tag_matches(tag.name@, "si".spec_bytes()) {
            Ok(CollectModel { strings: state.strings.push(Seq::empty()), ..state })
        } else {
            Ok(state)
        },
        XmlEvent::Text(raw) => if state.in_item {
            match xml_unescaped(raw@) {
                Ok(text) => Ok(CollectModel { current: state.current + text, ..state }),
                Err(message) => Err(XmlFailure::Unescape(message)),
            }
        } else {
            Ok(state)
        },
        _ => Ok(state),
    }
}

/// The strings that a reading in the state `state` finds in the events `rest`.
pub open spec fn strings_from(rest: Seq<XmlEvent>, state: CollectModel) -> Result<Seq<Seq<char>>, XmlFailure>
    decreases rest.len(),
{
    if rest.len() == 0 {
        Ok(state.strings)
    } else {
        match rest[0] {
            XmlEvent::Eof => Ok(state.strings),
            XmlEvent::Malformed(message) => Err(XmlFailure::Malformed(message@)),
            event => match collect_step(state, event) {
                Ok(next) => strings_from(rest.drop_first(), next),
                Err(failure) => Err(failure),
            },
        }
    }
}

/// The shared strings of the part with the events `events`.
pub open spec fn strings_of(events: Seq<XmlEvent>) -> Result<Seq<Seq<char>>, XmlFailure> {
    strings_from(events, CollectModel::initial())
}

impl StringCollector {
    /// A reading before its first event.
    pub fn new() -> (collector: StringCollector)
        ensures
            collector@ == CollectModel::initial(),
    {
        let collector = StringCollector {
            strings: Vec::new(),
            in_item: false,
            current: String::new(),
        };
        assert(strings_model(collector.strings@) =~= Seq::empty());
        collector
    }

    /// Handles one event of the shared-strings part.
    pub fn step(&mut self, event: &XmlEvent) -> (done: Result<(), XmlError>)
        ensures
            match collect_step(old(self)@, *event) {
                Ok(next) => done is Ok && final(self)@ == next,
                Err(failure) => done matches Err(e) && e@ == failure && final(self)@ == old(self)@,
            },
    {
        match event {
            XmlEvent::Start(tag) => {
                if tag_eq_ignore_case(tag.name.as_slice(), "si") {
                    self.in_item = true;
                    self.current = String::new();
                }
                Ok(())
            },
            XmlEvent::End(name) => {
                if tag_eq_ignore_case(name.as_slice(), "si") {
                    let ghost before = strings_model(self.strings@);
                    self.strings.push(self.current.clone());
                    assert(strings_model(self.strings@) =~= before.push(self.current@));
                    self.in_item = false;
                }
                Ok(())
            },
            XmlEvent::Empty(tag) => {
                if tag_eq_ignore_case(tag.name.as_slice(), "si") {
                    let ghost before = strings_model(self.strings@);
                    self.strings.push(String::new());
                    assert(strings_model(self.strings@) =~= before.push(Seq::empty()));
                }
                Ok(())
            },
            XmlEvent::Text(raw) => {
                if self.in_item {
                    match unescape(raw.as_slice()) {
                        Ok(text) => {
                            self.current.append(text.as_str());
                            Ok(())
                        },
                        Err(message) => Err(XmlError::Unescape(message)),
                    }
                } else {
                    Ok(())
                }
            },
            _ => Ok(()),
        }
    }

    /// The strings closed, in the order of their declaration.
    pub fn into_strings(self) -> (strings: Vec<String>)
        ensures
            strings_model(strings@) == self@.strings,
    {
        self.strings
    }
}

/// Reads the shared-strings part `xml`: the text of each string item, in the
/// order of their declaration, none left out and none changed; an item written
/// as an empty element is the empty string.
pub fn read_shared_strings(xml: &[u8]) -> (read: Result<Vec<String>, XmlError>)
    ensures
        match strings_of(xml_events(xml@)) {
            Ok(strings) => read matches Ok(found) && strings_model(found@) == strings,
            Err(failure) => read matches Err(e) && e@ == failure,
        },
{
    let mut reader = open_reader(xml);
    let mut collector = StringCollector::new();
    loop
        invariant
            strings_of(xml_events(xml@)) == strings_from(pending_events(reader), collector@),
        decreases pending_events(reader).len(),
    {
        let event = next_event(&mut reader);
        match event {
            XmlEvent::Eof => {
                return Ok(collector.into_strings());
            },
            XmlEvent::Malformed(message) => {
                return Err(XmlError::Malformed(message));
            },
            _ => {},
        }
        match collector.step(&event) {
            Ok(()) => {},
            Err(e) => {
                return Err(e);
            },
        }
    }
}

} // verus!
