//! The line protocol of the media player's control socket.
//!
//! The client sends one command that asks to observe the subtitle text. The
//! player answers with one JSON record per line. Only a property-change
//! record for the subtitle text with a non-empty payload carries a subtitle.

use crate::json::{get_text, get_unsigned, json_model, json_parsed, parse, JsonModel};
use crate::outbox::{text_of, Message};
use crate::text::same_text;
use std::sync::Arc;
use vstd::prelude::*;

verus! {

/// The command that asks the player to report every change of the subtitle
/// text, under observer id 1. It ends with the line terminator.
pub const OBSERVE_SUB_TEXT: &'static str = "{\"command\":[\"observe_property\",1,\"sub-text\"]}\n";

/// The event kind of a property change.
pub const PROPERTY_CHANGE: &'static str = "property-change";

/// The name of the subtitle-text property.
pub const SUB_TEXT: &'static str = "sub-text";

/// The member that holds the event kind.
pub const EVENT_KEY: &'static str = "event";

/// The member that holds the observer id.
pub const ID_KEY: &'static str = "id";

/// The member that holds the property name.
pub const NAME_KEY: &'static str = "name";

/// The member that holds the payload.
pub const DATA_KEY: &'static str = "data";

/// An event record of the shape `{event, id, name, data}`.
#[derive(Debug, PartialEq, Eq)]
pub struct EventRecord {
    pub event: String,
    pub id: u32,
    pub name: String,
    pub data: String,
}

/// Mathematical model of an [`EventRecord`].
pub struct EventRecordModel {
    pub event: Seq<char>,
    pub id: u32,
    pub name: Seq<char>,
    pub data: Seq<char>,
}

impl View for EventRecord {
    type V = EventRecordModel;

    open spec fn view(&self) -> EventRecordModel {
        EventRecordModel { event: self.event@, id: self.id, name: self.name@, data: self.data@ }
    }
}

/// The model of an optional record.
pub open spec fn record_model(record: Option<EventRecord>) -> Option<EventRecordModel> {
    match record {
        Some(r) => Some(r@),
        None => None,
    }
}

impl EventRecordModel {
    /// The subtitle that the record carries: its payload, if the record is a
    /// property change of the subtitle text and the payload is not empty.
    pub open spec fn subtitle(self) -> Option<Seq<char>> {
        if self.event == PROPERTY_CHANGE@ && self.name == SUB_TEXT@ && self.data.len() > 0 {
            Some(self.data)
        } else {
            None
        }
    }
}

/// The record that a document holds: the document must be an object with a
/// string `event`, an integer `id` that fits 32 bits, a string `name` and a
/// string `data`. Other members are ignored.
pub open spec fn record_in(document: JsonModel) -> Option<EventRecordModel> {
    match (
        document.member_text(EVENT_KEY@),
        document.member_unsigned(ID_KEY@),
        document.member_text(NAME_KEY@),
        document.member_text(DATA_KEY@),
    ) {
        (Some(event), Some(id), Some(name), Some(data)) => if id <= u32::MAX {
            Some(EventRecordModel { event, id: id as u32, name, data })
        } else {
            None
        },
        _ => None,
    }
}

/// The record that a line holds: the line must be a JSON document that holds
/// a record.
pub open spec fn record_of(line: Seq<char>) -> Option<EventRecordModel> {
    match json_parsed(line) {
        Some(document) => record_in(document),
        None => None,
    }
}

/// The subtitle that a line carries, if any.
pub open spec fn subtitle_of(line: Seq<char>) -> Option<Seq<char>> {
    match record_of(line) {
        Some(record) => record.subtitle(),
        None => None,
    }
}

impl EventRecord {
    /// Reads the record that `line` holds. A line that is no JSON holds no
    /// record.
    pub fn decode(line: &str) -> (record: Option<EventRecord>)
        ensures
            record_model(record) == record_of(line@),
    {
        match parse(line) {
            Some(document) => EventRecord::from_document(&document),
            None => None,
        }
    }

    /// Reads the record that `document` holds. A document that is no object,
    /// or lacks a member, or has one of another type, holds no record.
    pub fn from_document(document: &serde_json::Value) -> (record: Option<EventRecord>)
        ensures
            record_model(record) == record_in(json_model(*document)),
    {
        let event = match get_text(document, EVENT_KEY) {
            Some(event) => event,
            None => return None,
        };
        let id = match get_unsigned(document, ID_KEY) {
            Some(id) => id,
            None => return None,
        };
        let name = match get_text(document, NAME_KEY) {
            Some(name) => name,
            None => return None,
        };
        let data = match get_text(document, DATA_KEY) {
            Some(data) => data,
            None => return None,
        };
        if id > u32::MAX as u64 {
            return None;
        }
        Some(
            EventRecord {
                event: event.to_owned(),
                id: id as u32,
                name: name.to_owned(),
                data: data.to_owned(),
            },
        )
    }

    /// The subtitle that the record carries, as a message ready to be
    /// broadcast.
    pub fn subtitle(self) -> (message: Option<Message>)
        ensures
            text_of(message) == self@.subtitle(),
    {
        if same_text(self.event.as_str(), PROPERTY_CHANGE) && same_text(
            self.name.as_str(),
            SUB_TEXT,
        ) && !self.data.as_str().is_empty() {
            Some(Arc::new(self.data))
        } else {
            None
        }
    }
}

/// A record of another event, of another property, or with an empty payload
/// carries no subtitle, and neither does a line that holds such a record or
/// none at all.
pub proof fn lemma_only_subtitle_changes_carry_text(line: Seq<char>)
    ensures
        record_of(line) is None ==> subtitle_of(line) is None,
        record_of(line) matches Some(record) ==> (record.event != PROPERTY_CHANGE@ || record.name
            != SUB_TEXT@ || record.data.len() == 0) ==> subtitle_of(line) is None,
        subtitle_of(line) matches Some(text) ==> text.len() > 0 && record_of(line) == Some(
            EventRecordModel {
                event: PROPERTY_CHANGE@,
                id: record_of(line)->0.id,
                name: SUB_TEXT@,
                data: text,
            },
        ),
{
}

/// Reads a line of the player and returns the subtitle that it carries. Lines
/// that hold no record, records of other events or other properties, and
/// empty payloads give `None`.
pub fn subtitle_from_line(line: &str) -> (message: Option<Message>)
    ensures
        text_of(message) == subtitle_of(line@),
{
    match EventRecord::decode(line) {
        Some(record) => record.subtitle(),
        None => None,
    }
}

} // verus!
