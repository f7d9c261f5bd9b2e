//! The record kept by the store, the payload a caller supplies, and the
//! store's error shape.
use vstd::prelude::*;

verus! {

/// A stored event record.
#[derive(Clone, Debug, PartialEq, Eq)]
pub struct Event {
    pub id: u64,
    pub title: String,
    pub date: String,
    pub time: String,
    pub max_attendant: u32,
    pub attachment_url: String,
    pub created_at: u64,
    pub updated_at: Option<u64>,
}

/// The caller-supplied fields of an event.
#[derive(Clone, Debug, PartialEq, Eq)]
pub struct EventPayload {
    pub title: String,
    pub date: String,
    pub time: String,
    pub max_attendant: u32,
    pub attachment_url: String,
}

/// The mathematical value of an [`Event`].
pub struct EventView {
    pub id: u64,
    pub title: Seq<char>,
    pub date: Seq<char>,
    pub time: Seq<char>,
    pub max_attendant: u32,
    pub attachment_url: Seq<char>,
    pub created_at: u64,
    pub updated_at: Option<u64>,
}

/// The mathematical value of an [`EventPayload`].
pub struct PayloadView {
    pub title: Seq<char>,
    pub date: Seq<char>,
    pub time: Seq<char>,
    pub max_attendant: u32,
    pub attachment_url: Seq<char>,
}

impl View for Event {
    type V = EventView;

    open spec fn view(&self) -> EventView {
        EventView {
            id: self.id,
            title: self.title@,
            date: self.date@,
            time: self.time@,
            max_attendant: self.max_attendant,
            attachment_url: self.attachment_url@,
            created_at: self.created_at,
            updated_at: self.updated_at,
        }
    }
}

impl View for EventPayload {
    type V = PayloadView;

    open spec fn view(&self) -> PayloadView {
        PayloadView {
            title: self.title@,
            date: self.date@,
            time: self.time@,
            max_attendant: self.max_attendant,
            attachment_url: self.attachment_url@,
        }
    }
}

impl EventView {
    /// The payload fields of this event.
    pub open spec fn payload(self) -> PayloadView {
        PayloadView {
            title: self.title,
            date: self.date,
            time: self.time,
            max_attendant: self.max_attendant,
            attachment_url: self.attachment_url,
        }
    }
}

impl PayloadView {
    /// The event made of this payload with the given id and timestamps.
    pub open spec fn with(self, id: u64, created_at: u64, updated_at: Option<u64>) -> EventView {
        EventView {
            id,
            title: self.title,
            date: self.date,
            time: self.time,
            max_attendant: self.max_attendant,
            attachment_url: self.attachment_url,
            created_at,
            updated_at,
        }
    }
}

/// Why a store operation did not succeed.
#[derive(Clone, Copy, Debug, PartialEq, Eq, Structural)]
pub enum Error {
    /// No record is stored under `id`.
    NotFound { id: u64 },
    /// The bytes stored under `id` do not decode to a record.
    CorruptRecord { id: u64 },
}

} // verus!
