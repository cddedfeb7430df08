use vstd::prelude::*;

use xml::reader::{EventReader, XmlEvent};

use crate::errors::LowerError;
use crate::events::{events_view, Event, EventV};
use crate::lower::{lower_events, spec_lower};
use crate::store::TermStore;
use crate::term::{RVSDG, TermId, TermV};

verus! {

/// The structural events the serialized-document reader yields for a given
/// document, or nothing when it rejects the document. The reader computes
/// from the characters alone, so its outcome is a function of them.
pub uninterp spec fn xml_doc_events(s: Seq<char>) -> Option<Seq<EventV>>;

/// Relies on xml's `EventReader`: pulled over an in-memory buffer, it
/// yields the document's events in order (start and end elements with
/// their attributes, document framing, whitespace, character data) and
/// stops at the first error; the outcome depends on the characters alone.
#[verifier::external_body]
fn read_events(input: &str) -> (r: Result<Vec<Event>, LowerError>)
    ensures
        match r {
            Ok(events) => xml_doc_events(input@) == Some(events_view(events@)),
            Err(e) => xml_doc_events(input@) is None && e == LowerError::MalformedInput,
        },
{
    let mut out: Vec<Event> = Vec::new();
    for event in EventReader::from_str(input) {
        out.push(match event {
            Err(_) => return Err(LowerError::MalformedInput),
            Ok(XmlEvent::StartElement { name, attributes, .. }) => Event::Start {
                name: name.local_name,
                attrs: attributes.into_iter().map(|a| (a.name.local_name, a.value)).collect(),
            },
            Ok(XmlEvent::EndElement { name }) => Event::End { name: name.local_name },
            Ok(XmlEvent::StartDocument { .. } | XmlEvent::EndDocument | XmlEvent::Whitespace(_)) => Event::Skip,
            Ok(_) => Event::Other,
        });
    }
    Ok(out)
}

impl RVSDG {
    /// Reads a whole serialized document and lowers it into a hash-consed
    /// term store, returning the store and the root graph term's identity.
    /// A document the reader rejects is malformed input; one it reads is
    /// lowered exactly as `spec_lower` states on its event sequence.
    pub fn parse(input: &str) -> (r: Result<(TermStore, TermId), LowerError>)
        ensures
            ({
                match xml_doc_events(input@) {
                    None => r == Err::<(TermStore, TermId), LowerError>(
                        LowerError::MalformedInput,
                    ),
                    Some(es) => match r {
                        Ok(out) => spec_lower(es) == Ok::<(Seq<TermV>, int), LowerError>(
                            (out.0@, out.1 as int),
                        ),
                        Err(e) => spec_lower(es) == Err::<(Seq<TermV>, int), LowerError>(e),
                    },
                }
            }),
    {
        let events = match read_events(input) {
            Ok(ev) => ev,
            Err(e) => {
                return Err(e);
            },
        };
        lower_events(&events)
    }
}

} // verus!
