use event_store::codec::{decode, encode};
use event_store::event::{Error, Event, EventPayload};
use event_store::store::{
    EventStore, FIRST_ID, _get_event, add_event, delete_event, do_insert, get_event, keys_below,
    update_event,
};

fn payload(title: &str) -> EventPayload {
    EventPayload {
        title: title.to_string(),
        date: "2024-05-01".to_string(),
        time: "18:30".to_string(),
        max_attendant: 40,
        attachment_url: "https://example.org/a.png".to_string(),
    }
}

fn fresh() -> EventStore {
    EventStore::init().unwrap()
}

#[test]
fn concrete_scenario() {
    let mut s = fresh();
    let a = add_event(&mut s, payload("A"), 100).unwrap();
    assert_eq!(a.id, 0);
    let b = add_event(&mut s, payload("B"), 110).unwrap();
    assert_eq!(b.id, 1);
    let a2 = update_event(&mut s, 0, payload("A2"), 120).unwrap();
    assert_eq!(a2.id, 0);
    assert_eq!(a2.title, "A2");
    assert_eq!(a2.updated_at, Some(120));
    let gone = delete_event(&mut s, 1).unwrap();
    assert_eq!(gone.id, 1);
    assert_eq!(gone.title, "B");
    assert_eq!(get_event(&s, 1), Err(Error::NotFound { id: 1 }));
}

#[test]
fn read_unknown_id_on_empty_store() {
    let s = fresh();
    assert_eq!(get_event(&s, 999999), Err(Error::NotFound { id: 999999 }));
    assert_eq!(_get_event(&s, &999999), Ok(None));
}

#[test]
fn ids_strictly_increase() {
    let mut s = fresh();
    let mut ids = Vec::new();
    for i in 0..20u64 {
        let e = add_event(&mut s, payload("x"), i).unwrap();
        ids.push(e.id);
    }
    for i in 0..ids.len() {
        assert_eq!(ids[i], i as u64);
        if i > 0 {
            assert!(ids[i - 1] < ids[i]);
        }
    }
}

#[test]
fn ids_not_reused_after_delete() {
    let mut s = fresh();
    let a = add_event(&mut s, payload("a"), 1).unwrap();
    delete_event(&mut s, a.id).unwrap();
    let b = add_event(&mut s, payload("b"), 2).unwrap();
    assert_eq!(b.id, a.id + 1);
}

#[test]
fn read_after_write() {
    let mut s = fresh();
    let e = add_event(&mut s, payload("Meetup"), 42).unwrap();
    assert_eq!(e.created_at, 42);
    assert_eq!(e.updated_at, None);
    assert_eq!(e.title, "Meetup");
    assert_eq!(e.max_attendant, 40);
    assert_eq!(get_event(&s, e.id), Ok(e.clone()));
    assert_eq!(_get_event(&s, &e.id), Ok(Some(e)));
}

#[test]
fn update_semantics() {
    let mut s = fresh();
    let e = add_event(&mut s, payload("old"), 50).unwrap();
    let p2 = EventPayload {
        title: "new".to_string(),
        date: "2025-01-02".to_string(),
        time: "09:00".to_string(),
        max_attendant: 7,
        attachment_url: String::new(),
    };
    let e2 = update_event(&mut s, e.id, p2.clone(), 60).unwrap();
    assert_eq!(e2.id, e.id);
    assert_eq!(e2.created_at, e.created_at);
    assert_eq!(e2.updated_at, Some(60));
    assert!(e2.updated_at.unwrap() >= e.created_at);
    assert_eq!(e2.title, p2.title);
    assert_eq!(e2.date, p2.date);
    assert_eq!(e2.time, p2.time);
    assert_eq!(e2.max_attendant, p2.max_attendant);
    assert_eq!(e2.attachment_url, p2.attachment_url);
    assert_eq!(get_event(&s, e.id), Ok(e2));
}

#[test]
fn update_unknown_id_is_not_found() {
    let mut s = fresh();
    assert_eq!(update_event(&mut s, 5, payload("x"), 1), Err(Error::NotFound { id: 5 }));
    assert_eq!(get_event(&s, 5), Err(Error::NotFound { id: 5 }));
}

#[test]
fn delete_is_final() {
    let mut s = fresh();
    let e = add_event(&mut s, payload("d"), 3).unwrap();
    assert_eq!(delete_event(&mut s, e.id), Ok(e.clone()));
    assert_eq!(get_event(&s, e.id), Err(Error::NotFound { id: e.id }));
    assert_eq!(delete_event(&mut s, e.id), Err(Error::NotFound { id: e.id }));
}

#[test]
fn delete_keeps_other_records() {
    let mut s = fresh();
    let a = add_event(&mut s, payload("a"), 1).unwrap();
    let b = add_event(&mut s, payload("b"), 2).unwrap();
    delete_event(&mut s, a.id).unwrap();
    assert_eq!(get_event(&s, b.id), Ok(b));
}

#[test]
fn do_insert_overwrites() {
    let mut s = fresh();
    let mut e = add_event(&mut s, payload("first"), 1).unwrap();
    e.title = "second".to_string();
    do_insert(&mut s, &e);
    assert_eq!(get_event(&s, e.id).unwrap().title, "second");
}

fn sample(updated_at: Option<u64>) -> Event {
    Event {
        id: 1,
        title: "A".to_string(),
        date: String::new(),
        time: String::new(),
        max_attendant: 2,
        attachment_url: String::new(),
        created_at: 3,
        updated_at,
    }
}

#[test]
fn encoding_exact_bytes() {
    let bytes = encode(&sample(None));
    let expected: Vec<u8> = vec![
        1, 0, 0, 0, 0, 0, 0, 0, // id
        1, 0, 0, 0, 65, // title
        0, 0, 0, 0, // date
        0, 0, 0, 0, // time
        2, 0, 0, 0, // max_attendant
        0, 0, 0, 0, // attachment_url
        3, 0, 0, 0, 0, 0, 0, 0, // created_at
        0, // updated_at absent
    ];
    assert_eq!(bytes, expected);
    let with_stamp = encode(&sample(Some(0x0102)));
    assert_eq!(with_stamp.len(), expected.len() + 8);
    assert_eq!(&with_stamp[37..], &[1, 2, 1, 0, 0, 0, 0, 0, 0]);
}

#[test]
fn round_trip() {
    let e = Event {
        id: u64::MAX,
        title: "Fête – ünïcode ✓ 🎉".to_string(),
        date: "2024-12-31".to_string(),
        time: "23:59".to_string(),
        max_attendant: u32::MAX,
        attachment_url: "https://example.org/x".to_string(),
        created_at: 1_700_000_000_000_000_000,
        updated_at: Some(1_700_000_000_000_000_001),
    };
    assert_eq!(decode(&encode(&e)), Some(e.clone()));
    let mut plain = e;
    plain.updated_at = None;
    assert_eq!(decode(&encode(&plain)), Some(plain));
}

#[test]
fn decode_rejects_malformed_bytes() {
    assert_eq!(decode(&Vec::new()), None);
    let good = encode(&sample(None));
    let mut short = good.clone();
    short.pop();
    assert_eq!(decode(&short), None);
    let mut long = good.clone();
    long.push(0);
    assert_eq!(decode(&long), None);
    let mut bad_tag = good.clone();
    let last = bad_tag.len() - 1;
    bad_tag[last] = 2;
    assert_eq!(decode(&bad_tag), None);
    let mut bad_utf8 = good;
    bad_utf8[12] = 0xff;
    assert_eq!(decode(&bad_utf8), None);
}

#[test]
fn payload_size_bound() {
    let mut p = EventPayload {
        title: "a".repeat(979),
        date: String::new(),
        time: String::new(),
        max_attendant: 0,
        attachment_url: String::new(),
    };
    assert!(p.fits());
    p.title.push('a');
    assert!(!p.fits());
    p.title = "é".repeat(490);
    assert!(!p.fits());
    p.title = "é".repeat(489);
    assert!(p.fits());
}

#[test]
fn largest_payload_is_stored_and_read_back() {
    let mut s = fresh();
    let p = EventPayload {
        title: "t".repeat(979),
        date: String::new(),
        time: String::new(),
        max_attendant: 1,
        attachment_url: String::new(),
    };
    assert!(p.fits());
    let e = add_event(&mut s, p.clone(), 9).unwrap();
    let e2 = update_event(&mut s, e.id, p, 10).unwrap();
    assert_eq!(encode(&e2).len(), 1024);
    assert_eq!(get_event(&s, e.id), Ok(e2));
}

#[test]
fn fresh_store_starts_at_first_id() {
    let s = fresh();
    assert_eq!(s.next_id(), FIRST_ID);
    assert_eq!(FIRST_ID, 0);
}

#[test]
fn counter_advances_once_per_create() {
    let mut s = fresh();
    add_event(&mut s, payload("a"), 1).unwrap();
    add_event(&mut s, payload("b"), 2).unwrap();
    assert_eq!(s.next_id(), 2);
    delete_event(&mut s, 0).unwrap();
    assert_eq!(s.next_id(), 2);
}

#[test]
fn keys_below_counter() {
    assert!(keys_below(None, 0));
    assert!(keys_below(Some(4), 5));
    assert!(!keys_below(Some(5), 5));
    assert!(!keys_below(Some(u64::MAX), 0));
}

#[test]
fn repeated_updates_keep_identity() {
    let mut s = fresh();
    let e = add_event(&mut s, payload("v0"), 10).unwrap();
    add_event(&mut s, payload("other"), 11).unwrap();
    update_event(&mut s, e.id, payload("v1"), 20).unwrap();
    delete_event(&mut s, 1).unwrap();
    let e2 = update_event(&mut s, e.id, payload("v2"), 30).unwrap();
    assert_eq!(e2.id, e.id);
    assert_eq!(e2.created_at, 10);
    assert_eq!(e2.updated_at, Some(30));
    assert_eq!(e2.title, "v2");
    assert_eq!(get_event(&s, e.id), Ok(e2));
    assert_eq!(update_event(&mut s, 1, payload("x"), 40), Err(Error::NotFound { id: 1 }));
}
