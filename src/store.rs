//! The event store: create, read, update and delete over the stable record
//! map, with ids minted from the stable counter.
use crate::codec::{
    decode, decoded, encode, encodes, event_bytes, fits, is_encoding,
    lemma_payload_size, payload_fits,
};
use crate::event::{Error, Event, EventPayload, EventView, PayloadView};
use crate::storage::{IdCell, Memories, RecordMap, counter_of, records_of};
use vstd::prelude::*;

verus! {

/// The virtual memory that holds the id counter.
pub const COUNTER_MEMORY: u8 = 0;

/// The virtual memory that holds the records.
pub const RECORDS_MEMORY: u8 = 1;

/// The first id that a store mints.
pub const FIRST_ID: u64 = 0;

/// Whether every stored key lies below the counter, given the largest
/// stored key (if any): the condition under which an opened store is well
/// formed.
pub fn keys_below(last: Option<u64>, counter: u64) -> (r: bool)
    ensures
        r == (last matches Some(k) ==> k < counter),
{
    match last {
        Some(k) => k < counter,
        None => true,
    }
}

/// The mathematical state of a store: the next id to mint and the encoded
/// records by id.
pub struct StoreModel {
    pub next_id: u64,
    pub records: Map<u64, Seq<u8>>,
}

impl StoreModel {
    /// Every stored id was minted before the counter's value, so a fresh id
    /// never meets a stored record.
    pub open spec fn wf(self) -> bool {
        forall|k: u64| #[trigger] self.records.contains_key(k) ==> k < self.next_id
    }
}

/// The bytes hold a record whose id is `id`.
pub open spec fn holds_record(b: Seq<u8>, id: u64) -> bool {
    is_encoding(b) && decoded(b).id == id
}

/// What reading `id` gives.
pub open spec fn read_spec(m: StoreModel, id: u64) -> Result<EventView, Error> {
    if !m.records.contains_key(id) {
        Err(Error::NotFound { id })
    } else if holds_record(m.records[id], id) {
        Ok(decoded(m.records[id]))
    } else {
        Err(Error::CorruptRecord { id })
    }
}

/// The event that creating `p` at time `now` makes.
pub open spec fn created(m: StoreModel, p: PayloadView, now: u64) -> EventView {
    p.with(m.next_id, now, None)
}

/// The state after creating `p` at time `now`.
pub open spec fn create_spec(m: StoreModel, p: PayloadView, now: u64) -> StoreModel {
    StoreModel {
        next_id: (m.next_id + 1) as u64,
        records: m.records.insert(m.next_id, event_bytes(created(m, p, now))),
    }
}

/// The state and result of updating `id` with `p` at time `now`.
pub open spec fn update_spec(m: StoreModel, id: u64, p: PayloadView, now: u64) -> (
    StoreModel,
    Result<EventView, Error>,
) {
    match read_spec(m, id) {
        Ok(e) => {
            let e2 = p.with(id, e.created_at, Some(now));
            (StoreModel { next_id: m.next_id, records: m.records.insert(id, event_bytes(e2)) }, Ok(e2))
        },
        Err(x) => (m, Err(x)),
    }
}

/// The state and result of deleting `id`.
pub open spec fn delete_spec(m: StoreModel, id: u64) -> (StoreModel, Result<EventView, Error>) {
    match read_spec(m, id) {
        Ok(e) => (StoreModel { next_id: m.next_id, records: m.records.remove(id) }, Ok(e)),
        Err(x) => (m, Err(x)),
    }
}

/// The mathematical value of an operation's result.
pub open spec fn result_view(r: Result<Event, Error>) -> Result<EventView, Error> {
    match r {
        Ok(e) => Ok(e@),
        Err(x) => Err(x),
    }
}

/// A store of events in stable memory.
pub struct EventStore {
    counter: IdCell,
    records: RecordMap,
}

impl View for EventStore {
    type V = StoreModel;

    closed spec fn view(&self) -> StoreModel {
        StoreModel { next_id: counter_of(self.counter), records: records_of(self.records) }
    }
}

impl EventStore {
    /// The id that the next create mints.
    pub fn next_id(&self) -> (r: u64)
        ensures
            r == self@.next_id,
    {
        self.counter.get()
    }

    /// Opens the store in the default stable memory, loading what an earlier
    /// run left there; a memory that holds nothing yet starts with the
    /// counter at [`FIRST_ID`] and no records. `None` where the counter's
    /// memory holds another layout, or a stored id is not below the counter
    /// (see [`keys_below`]).
    ///
    /// Each store caches its counter, and on the canister all of them open
    /// the one stable memory: open a single store per process.
    pub fn init() -> (r: Option<EventStore>)
        ensures
            r matches Some(s) ==> s@.wf(),
    {
        let memories = Memories::init();
        let counter = match IdCell::init(&memories, COUNTER_MEMORY, FIRST_ID) {
            Some(c) => c,
            None => {
                return None;
            },
        };
        let records = RecordMap::init(&memories, RECORDS_MEMORY);
        if !keys_below(records.last_key(), counter.get()) {
            return None;
        }
        Some(EventStore { counter, records })
    }
}

/// Looks up `id`: `Ok(None)` where nothing is stored there, an error where
/// what is stored there is no record with that id.
pub fn _get_event(store: &EventStore, id: &u64) -> (r: Result<Option<Event>, Error>)
    ensures
        (r == Ok::<Option<Event>, Error>(None)) <==> !store@.records.contains_key(*id),
        r matches Ok(None) ==> read_spec(store@, *id) == Err::<EventView, Error>(
            Error::NotFound { id: *id },
        ),
        r matches Ok(Some(e)) ==> read_spec(store@, *id) == Ok::<EventView, Error>(e@),
        r matches Err(x) ==> read_spec(store@, *id) == Err::<EventView, Error>(x),
{
    match store.records.get(*id) {
        None => Ok(None),
        Some(bytes) => {
            let ghost b = bytes@;
            match decode(&bytes) {
                Some(e) => {
                    proof {
                        assert(encodes(b, e@));
                        assert(encodes(b, decoded(b)));
                    }
                    if e.id == *id {
                        Ok(Some(e))
                    } else {
                        Err(Error::CorruptRecord { id: *id })
                    }
                },
                None => {
                    proof {
                        if is_encoding(b) {
                            assert(encodes(b, decoded(b)));
                        }
                    }
                    Err(Error::CorruptRecord { id: *id })
                },
            }
        },
    }
}

/// Reads the record stored under `id`.
pub fn get_event(store: &EventStore, id: u64) -> (r: Result<Event, Error>)
    ensures
        result_view(r) == read_spec(store@, id),
{
    match _get_event(store, &id) {
        Ok(Some(e)) => Ok(e),
        Ok(None) => Err(Error::NotFound { id }),
        Err(x) => Err(x),
    }
}

/// Stores `event` under its id, replacing what was there.
pub fn do_insert(store: &mut EventStore, event: &Event)
    requires
        old(store)@.wf(),
        fits(event@),
        event.id < old(store)@.next_id,
    ensures
        final(store)@ == (StoreModel {
            next_id: old(store)@.next_id,
            records: old(store)@.records.insert(event.id, event_bytes(event@)),
        }),
        final(store)@.wf(),
{
    let bytes = encode(event);
    store.records.insert(event.id, &bytes);
}

/// Creates an event from `payload` at time `now` under a freshly minted id;
/// the counter must not be exhausted.
pub fn add_event(store: &mut EventStore, payload: EventPayload, now: u64) -> (r: Option<Event>)
    requires
        old(store)@.wf(),
        old(store)@.next_id < u64::MAX,
        payload_fits(payload@),
    ensures
        r is Some,
        r matches Some(e) ==> e@ == created(old(store)@, payload@, now) && final(store)@
            == create_spec(old(store)@, payload@, now),
        final(store)@.wf(),
{
    let id = store.counter.get();
    store.counter.set(id + 1);
    let event = Event {
        id,
        title: payload.title,
        date: payload.date,
        time: payload.time,
        max_attendant: payload.max_attendant,
        attachment_url: payload.attachment_url,
        created_at: now,
        updated_at: None,
    };
    proof {
        lemma_payload_size(payload@, id, now, None);
        assert forall|k: u64| #[trigger] store@.records.contains_key(k) implies k < store@.next_id by {
            assert(old(store)@.records.contains_key(k));
        }
    }
    do_insert(store, &event);
    proof {
        assert(final(store)@ == create_spec(old(store)@, payload@, now));
    }
    Some(event)
}

/// Replaces the payload of the record under `id` and stamps it with `now`;
/// its id and creation time are kept.
pub fn update_event(store: &mut EventStore, id: u64, payload: EventPayload, now: u64) -> (r: Result<
    Event,
    Error,
>)
    requires
        old(store)@.wf(),
        payload_fits(payload@),
    ensures
        (final(store)@, result_view(r)) == update_spec(old(store)@, id, payload@, now),
        final(store)@.wf(),
{
    match _get_event(store, &id) {
        Ok(Some(mut event)) => {
            event.title = payload.title;
            event.date = payload.date;
            event.time = payload.time;
            event.max_attendant = payload.max_attendant;
            event.attachment_url = payload.attachment_url;
            event.updated_at = Some(now);
            proof {
                lemma_payload_size(payload@, event.id, event.created_at, Some(now));
                assert(event@ == payload@.with(id, event.created_at, Some(now)));
            }
            do_insert(store, &event);
            Ok(event)
        },
        Ok(None) => Err(Error::NotFound { id }),
        Err(x) => Err(x),
    }
}

/// Removes the record under `id` and returns it.
pub fn delete_event(store: &mut EventStore, id: u64) -> (r: Result<Event, Error>)
    requires
        old(store)@.wf(),
    ensures
        (final(store)@, result_view(r)) == delete_spec(old(store)@, id),
        final(store)@.wf(),
{
    match _get_event(store, &id) {
        Ok(Some(event)) => {
            let _ = store.records.remove(id);
            Ok(event)
        },
        Ok(None) => Err(Error::NotFound { id }),
        Err(x) => Err(x),
    }
}

} // verus!
