use vstd::prelude::*;

use crate::attrs::pairs_view;

verus! {

/// Spec-level image of one structural event.
pub enum EventV {
    Start { name: Seq<char>, attrs: Seq<(Seq<char>, Seq<char>)> },
    End { name: Seq<char> },
    Skip,
    Other,
}

/// One typed event of the structural event source: an element opens with
/// its unordered key/value attributes, an element closes, a whitespace-only
/// or document-framing event is to be skipped, or something else (character
/// data, for instance) appeared, which this format never contains.
#[derive(Debug, PartialEq, Eq)]
pub enum Event {
    Start { name: String, attrs: Vec<(String, String)> },
    End { name: String },
    Skip,
    Other,
}

impl View for Event {
    type V = EventV;

    open spec fn view(&self) -> EventV {
        match self {
            Event::Start { name, attrs } => EventV::Start {
                name: name@,
                attrs: pairs_view(attrs@),
            },
            Event::End { name } => EventV::End { name: name@ },
            Event::Skip => EventV::Skip,
            Event::Other => EventV::Other,
        }
    }
}

/// The view of an event sequence.
pub open spec fn events_view(s: Seq<Event>) -> Seq<EventV> {
    s.map_values(|e: Event| e@)
}

} // verus!
