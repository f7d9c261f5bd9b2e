//! The record codec: a deterministic byte layout for [`Event`] with a fixed
//! maximum size, and a decoder that inverts it.
//!
//! Layout, all integers little-endian: `id` (8 bytes); `title`, `date`,
//! `time` (each a 4-byte UTF-8 length, then the UTF-8 bytes);
//! `max_attendant` (4 bytes); `attachment_url` (as the other texts);
//! `created_at` (8 bytes); `updated_at` (one tag byte, 0 for absent, 1 for
//! present followed by 8 bytes).
use crate::event::{Event, EventPayload, EventView, PayloadView};
use vstd::prelude::*;
use vstd::utf8::*;

verus! {

/// The largest number of bytes that an encoded record may take.
pub const MAX_SIZE: usize = 1024;

/// The bytes of an encoded record that do not depend on its texts, with
/// `updated_at` present: the most that an event's texts leave room for.
pub const FIXED_SIZE: usize = 45;

pub open spec fn u64_le(v: u64) -> Seq<u8> {
    seq![
        v as u8,
        (v >> 8u64) as u8,
        (v >> 16u64) as u8,
        (v >> 24u64) as u8,
        (v >> 32u64) as u8,
        (v >> 40u64) as u8,
        (v >> 48u64) as u8,
        (v >> 56u64) as u8,
    ]
}

pub open spec fn u32_le(v: u32) -> Seq<u8> {
    seq![v as u8, (v >> 8u32) as u8, (v >> 16u32) as u8, (v >> 24u32) as u8]
}

/// A text: its UTF-8 length, then its UTF-8 bytes.
pub open spec fn text_bytes(s: Seq<char>) -> Seq<u8> {
    u32_le(encode_utf8(s).len() as u32) + encode_utf8(s)
}

pub open spec fn text_len(s: Seq<char>) -> int {
    4 + encode_utf8(s).len() as int
}

/// An optional timestamp: a tag byte, then the timestamp when present.
pub open spec fn stamp_bytes(o: Option<u64>) -> Seq<u8> {
    match o {
        None => seq![0u8],
        Some(t) => seq![1u8] + u64_le(t),
    }
}

pub open spec fn stamp_len(o: Option<u64>) -> int {
    match o {
        None => 1,
        Some(_) => 9,
    }
}

/// The encoding of an event.
#[verifier::opaque]
pub open spec fn event_bytes(e: EventView) -> Seq<u8> {
    u64_le(e.id) + text_bytes(e.title) + text_bytes(e.date) + text_bytes(e.time) + u32_le(
        e.max_attendant,
    ) + text_bytes(e.attachment_url) + u64_le(e.created_at) + stamp_bytes(e.updated_at)
}

/// An event whose encoding stays within [`MAX_SIZE`].
pub open spec fn fits(e: EventView) -> bool {
    event_bytes(e).len() <= MAX_SIZE
}

/// The UTF-8 bytes that a payload's texts take together.
pub open spec fn text_total(p: PayloadView) -> int {
    encode_utf8(p.title).len() + encode_utf8(p.date).len() + encode_utf8(p.time).len()
        + encode_utf8(p.attachment_url).len() as int
}

/// A payload whose events fit, whatever their id and timestamps.
pub open spec fn payload_fits(p: PayloadView) -> bool {
    FIXED_SIZE + text_total(p) <= MAX_SIZE
}

pub open spec fn off_date(e: EventView) -> int {
    8 + text_len(e.title)
}

pub open spec fn off_time(e: EventView) -> int {
    off_date(e) + text_len(e.date)
}

pub open spec fn off_max(e: EventView) -> int {
    off_time(e) + text_len(e.time)
}

pub open spec fn off_url(e: EventView) -> int {
    off_max(e) + 4
}

pub open spec fn off_created(e: EventView) -> int {
    off_url(e) + text_len(e.attachment_url)
}

pub open spec fn off_stamp(e: EventView) -> int {
    off_created(e) + 8
}

/// Where each field of an event lies in its encoding.
pub proof fn lemma_layout(e: EventView)
    ensures
        event_bytes(e).len() == off_stamp(e) + stamp_len(e.updated_at),
        event_bytes(e).subrange(0, 8) == u64_le(e.id),
        event_bytes(e).subrange(8, off_date(e)) == text_bytes(e.title),
        event_bytes(e).subrange(off_date(e), off_time(e)) == text_bytes(e.date),
        event_bytes(e).subrange(off_time(e), off_max(e)) == text_bytes(e.time),
        event_bytes(e).subrange(off_max(e), off_url(e)) == u32_le(e.max_attendant),
        event_bytes(e).subrange(off_url(e), off_created(e)) == text_bytes(e.attachment_url),
        event_bytes(e).subrange(off_created(e), off_stamp(e)) == u64_le(e.created_at),
        event_bytes(e).subrange(off_stamp(e), off_stamp(e) + stamp_len(e.updated_at))
            == stamp_bytes(e.updated_at),
{
    reveal(event_bytes);
    let b = event_bytes(e);
    assert(b.subrange(0, 8) =~= u64_le(e.id));
    assert(b.subrange(8, off_date(e)) =~= text_bytes(e.title));
    assert(b.subrange(off_date(e), off_time(e)) =~= text_bytes(e.date));
    assert(b.subrange(off_time(e), off_max(e)) =~= text_bytes(e.time));
    assert(b.subrange(off_max(e), off_url(e)) =~= u32_le(e.max_attendant));
    assert(b.subrange(off_url(e), off_created(e)) =~= text_bytes(e.attachment_url));
    assert(b.subrange(off_created(e), off_stamp(e)) =~= u64_le(e.created_at));
    assert(b.subrange(off_stamp(e), off_stamp(e) + stamp_len(e.updated_at)) =~= stamp_bytes(
        e.updated_at,
    ));
}

/// The encoding of an event built from a payload is bounded by the payload's
/// texts.
pub proof fn lemma_payload_size(p: PayloadView, id: u64, created_at: u64, updated_at: Option<u64>)
    ensures
        event_bytes(p.with(id, created_at, updated_at)).len() <= FIXED_SIZE + text_total(p),
        payload_fits(p) ==> fits(p.with(id, created_at, updated_at)),
{
    lemma_layout(p.with(id, created_at, updated_at));
}

proof fn lemma_u64_from_bytes(v: u64, b0: u8, b1: u8, b2: u8, b3: u8, b4: u8, b5: u8, b6: u8, b7: u8)
    by (bit_vector)
    requires
        v == (b0 as u64) | ((b1 as u64) << 8u64) | ((b2 as u64) << 16u64) | ((b3 as u64) << 24u64)
            | ((b4 as u64) << 32u64) | ((b5 as u64) << 40u64) | ((b6 as u64) << 48u64) | ((
        b7 as u64) << 56u64),
    ensures
        v as u8 == b0,
        (v >> 8u64) as u8 == b1,
        (v >> 16u64) as u8 == b2,
        (v >> 24u64) as u8 == b3,
        (v >> 32u64) as u8 == b4,
        (v >> 40u64) as u8 == b5,
        (v >> 48u64) as u8 == b6,
        (v >> 56u64) as u8 == b7,
{
}

proof fn lemma_u64_bytes_agree(x: u64, y: u64)
    by (bit_vector)
    requires
        x as u8 == y as u8,
        (x >> 8u64) as u8 == (y >> 8u64) as u8,
        (x >> 16u64) as u8 == (y >> 16u64) as u8,
        (x >> 24u64) as u8 == (y >> 24u64) as u8,
        (x >> 32u64) as u8 == (y >> 32u64) as u8,
        (x >> 40u64) as u8 == (y >> 40u64) as u8,
        (x >> 48u64) as u8 == (y >> 48u64) as u8,
        (x >> 56u64) as u8 == (y >> 56u64) as u8,
    ensures
        x == y,
{
}

proof fn lemma_u32_from_bytes(v: u32, b0: u8, b1: u8, b2: u8, b3: u8)
    by (bit_vector)
    requires
        v == (b0 as u32) | ((b1 as u32) << 8u32) | ((b2 as u32) << 16u32) | ((b3 as u32) << 24u32),
    ensures
        v as u8 == b0,
        (v >> 8u32) as u8 == b1,
        (v >> 16u32) as u8 == b2,
        (v >> 24u32) as u8 == b3,
{
}

proof fn lemma_u32_bytes_agree(x: u32, y: u32)
    by (bit_vector)
    requires
        x as u8 == y as u8,
        (x >> 8u32) as u8 == (y >> 8u32) as u8,
        (x >> 16u32) as u8 == (y >> 16u32) as u8,
        (x >> 24u32) as u8 == (y >> 24u32) as u8,
    ensures
        x == y,
{
}

/// Distinct integers have distinct encodings.
pub proof fn lemma_u64_le_injective(x: u64, y: u64)
    requires
        u64_le(x) == u64_le(y),
    ensures
        x == y,
{
    assert(u64_le(x)[0] == u64_le(y)[0]);
    assert(u64_le(x)[1] == u64_le(y)[1]);
    assert(u64_le(x)[2] == u64_le(y)[2]);
    assert(u64_le(x)[3] == u64_le(y)[3]);
    assert(u64_le(x)[4] == u64_le(y)[4]);
    assert(u64_le(x)[5] == u64_le(y)[5]);
    assert(u64_le(x)[6] == u64_le(y)[6]);
    assert(u64_le(x)[7] == u64_le(y)[7]);
    lemma_u64_bytes_agree(x, y);
}

/// Distinct integers have distinct encodings.
pub proof fn lemma_u32_le_injective(x: u32, y: u32)
    requires
        u32_le(x) == u32_le(y),
    ensures
        x == y,
{
    assert(u32_le(x)[0] == u32_le(y)[0]);
    assert(u32_le(x)[1] == u32_le(y)[1]);
    assert(u32_le(x)[2] == u32_le(y)[2]);
    assert(u32_le(x)[3] == u32_le(y)[3]);
    lemma_u32_bytes_agree(x, y);
}

fn push_u64(out: &mut Vec<u8>, v: u64)
    ensures
        final(out)@ == old(out)@ + u64_le(v),
{
    out.push(v as u8);
    out.push((v >> 8u64) as u8);
    out.push((v >> 16u64) as u8);
    out.push((v >> 24u64) as u8);
    out.push((v >> 32u64) as u8);
    out.push((v >> 40u64) as u8);
    out.push((v >> 48u64) as u8);
    out.push((v >> 56u64) as u8);
    assert(out@ =~= old(out)@ + u64_le(v));
}

fn push_u32(out: &mut Vec<u8>, v: u32)
    ensures
        final(out)@ == old(out)@ + u32_le(v),
{
    out.push(v as u8);
    out.push((v >> 8u32) as u8);
    out.push((v >> 16u32) as u8);
    out.push((v >> 24u32) as u8);
    assert(out@ =~= old(out)@ + u32_le(v));
}

fn push_text(out: &mut Vec<u8>, s: &String)
    requires
        encode_utf8(s@).len() <= MAX_SIZE,
    ensures
        final(out)@ == old(out)@ + text_bytes(s@),
{
    let bytes = s.as_str().as_bytes();
    let n = bytes.len();
    push_u32(out, n as u32);
    let ghost start = out@;
    let mut i: usize = 0;
    while i < n
        invariant
            n == bytes@.len(),
            bytes@ == encode_utf8(s@),
            0 <= i <= n,
            out@ == start + bytes@.subrange(0, i as int),
        decreases n - i,
    {
        out.push(bytes[i]);
        i = i + 1;
        assert(out@ =~= start + bytes@.subrange(0, i as int));
    }
    assert(bytes@.subrange(0, n as int) =~= bytes@);
    assert(out@ =~= old(out)@ + text_bytes(s@));
}

/// Encodes an event.
pub fn encode(e: &Event) -> (r: Vec<u8>)
    requires
        fits(e@),
    ensures
        r@ == event_bytes(e@),
        r@.len() <= MAX_SIZE,
{
    proof {
        lemma_layout(e@);
    }
    let mut out: Vec<u8> = Vec::new();
    push_u64(&mut out, e.id);
    push_text(&mut out, &e.title);
    push_text(&mut out, &e.date);
    push_text(&mut out, &e.time);
    push_u32(&mut out, e.max_attendant);
    push_text(&mut out, &e.attachment_url);
    push_u64(&mut out, e.created_at);
    match e.updated_at {
        None => {
            out.push(0u8);
        },
        Some(t) => {
            out.push(1u8);
            push_u64(&mut out, t);
        },
    }
    assert(out@ =~= event_bytes(e@)) by {
        reveal(event_bytes);
    }
    out
}

/// Relies on `String::from_utf8`: it succeeds exactly on valid UTF-8, and the
/// string then holds those bytes.
#[verifier::external_body]
fn utf8_text(bytes: Vec<u8>) -> (r: Option<String>)
    ensures
        r is Some <==> valid_utf8(bytes@),
        r matches Some(s) ==> encode_utf8(s@) == bytes@,
{
    String::from_utf8(bytes).ok()
}

/// Equal encodings come from equal texts.
pub proof fn lemma_utf8_injective(s: Seq<char>, t: Seq<char>)
    requires
        encode_utf8(s) == encode_utf8(t),
    ensures
        s == t,
{
    encode_utf8_decode_utf8(s);
    encode_utf8_decode_utf8(t);
}

fn read_u64(b: &Vec<u8>, pos: usize) -> (r: Option<u64>)
    ensures
        r is Some <==> pos + 8 <= b.len(),
        r matches Some(v) ==> u64_le(v) == b@.subrange(pos as int, pos + 8),
        forall|x: u64|
            pos + 8 <= b.len() && #[trigger] u64_le(x) == b@.subrange(pos as int, pos + 8)
                ==> r == Some(x),
{
    if pos > b.len() || b.len() - pos < 8 {
        return None;
    }
    let v: u64 = (b[pos] as u64) | ((b[pos + 1] as u64) << 8u64) | ((b[pos + 2] as u64) << 16u64)
        | ((b[pos + 3] as u64) << 24u64) | ((b[pos + 4] as u64) << 32u64) | ((b[pos + 5] as u64)
        << 40u64) | ((b[pos + 6] as u64) << 48u64) | ((b[pos + 7] as u64) << 56u64);
    proof {
        lemma_u64_from_bytes(
            v,
            b[pos as int],
            b[pos + 1],
            b[pos + 2],
            b[pos + 3],
            b[pos + 4],
            b[pos + 5],
            b[pos + 6],
            b[pos + 7],
        );
        assert(u64_le(v) =~= b@.subrange(pos as int, pos + 8));
        assert forall|x: u64| #[trigger] u64_le(x) == b@.subrange(pos as int, pos + 8) implies v
            == x by {
            lemma_u64_le_injective(v, x);
        }
    }
    Some(v)
}

fn read_u32(b: &Vec<u8>, pos: usize) -> (r: Option<u32>)
    ensures
        r is Some <==> pos + 4 <= b.len(),
        r matches Some(v) ==> u32_le(v) == b@.subrange(pos as int, pos + 4),
        forall|x: u32|
            pos + 4 <= b.len() && #[trigger] u32_le(x) == b@.subrange(pos as int, pos + 4)
                ==> r == Some(x),
{
    if pos > b.len() || b.len() - pos < 4 {
        return None;
    }
    let v: u32 = (b[pos] as u32) | ((b[pos + 1] as u32) << 8u32) | ((b[pos + 2] as u32) << 16u32)
        | ((b[pos + 3] as u32) << 24u32);
    proof {
        lemma_u32_from_bytes(v, b[pos as int], b[pos + 1], b[pos + 2], b[pos + 3]);
        assert(u32_le(v) =~= b@.subrange(pos as int, pos + 4));
        assert forall|x: u32| #[trigger] u32_le(x) == b@.subrange(pos as int, pos + 4) implies v
            == x by {
            lemma_u32_le_injective(v, x);
        }
    }
    Some(v)
}

/// The text at `pos`, and the position after it.
fn read_text(b: &Vec<u8>, pos: usize) -> (r: Option<(String, usize)>)
    ensures
        r matches Some((s, p)) ==> pos + text_len(s@) == p && p <= b.len() && b@.subrange(
            pos as int,
            p as int,
        ) == text_bytes(s@),
        forall|t: Seq<char>|
            pos + text_len(t) <= b.len() && encode_utf8(t).len() <= MAX_SIZE && #[trigger]
            text_bytes(t) == b@.subrange(pos as int, pos + text_len(t)) ==> (r matches Some(
                (s, p),
            ) && s@ == t && p == pos + text_len(t)),
{
    let n = match read_u32(b, pos) {
        Some(n) => n,
        None => {
            proof {
                assert forall|t: Seq<char>|
                    pos + text_len(t) <= b.len() && #[trigger] text_bytes(t) == b@.subrange(
                        pos as int,
                        pos + text_len(t),
                    ) implies false by {}
            }
            return None;
        },
    };
    let start = pos + 4;
    if start > b.len() || b.len() - start < n as usize {
        proof {
            assert forall|t: Seq<char>|
                pos + text_len(t) <= b.len() && encode_utf8(t).len() <= MAX_SIZE && #[trigger]
                text_bytes(t) == b@.subrange(pos as int, pos + text_len(t)) implies false by {
                assert(b@.subrange(pos as int, pos + 4) =~= text_bytes(t).subrange(0, 4));
                assert(text_bytes(t).subrange(0, 4) =~= u32_le(encode_utf8(t).len() as u32));
                lemma_u32_le_injective(n, encode_utf8(t).len() as u32);
            }
        }
        return None;
    }
    let end = start + n as usize;
    let mut bytes: Vec<u8> = Vec::new();
    let mut i: usize = start;
    while i < end
        invariant
            start <= i <= end <= b.len(),
            bytes@ == b@.subrange(start as int, i as int),
        decreases end - i,
    {
        bytes.push(b[i]);
        i = i + 1;
        assert(bytes@ =~= b@.subrange(start as int, i as int));
    }
    let ghost got = bytes@;
    match utf8_text(bytes) {
        Some(s) => {
            proof {
                assert(b@.subrange(pos as int, end as int) =~= text_bytes(s@));
                assert forall|t: Seq<char>|
                    pos + text_len(t) <= b.len() && encode_utf8(t).len() <= MAX_SIZE && #[trigger]
                    text_bytes(t) == b@.subrange(pos as int, pos + text_len(t)) implies s@ == t
                    && end == pos + text_len(t) by {
                    assert(b@.subrange(pos as int, pos + 4) =~= text_bytes(t).subrange(0, 4));
                    assert(text_bytes(t).subrange(0, 4) =~= u32_le(encode_utf8(t).len() as u32));
                    lemma_u32_le_injective(n, encode_utf8(t).len() as u32);
                    assert(got =~= b@.subrange(pos as int, pos + text_len(t)).subrange(
                        4,
                        text_len(t),
                    ));
                    assert(text_bytes(t).subrange(4, text_len(t)) =~= encode_utf8(t));
                    lemma_utf8_injective(s@, t);
                }
            }
            Some((s, end))
        },
        None => {
            proof {
                assert forall|t: Seq<char>|
                    pos + text_len(t) <= b.len() && encode_utf8(t).len() <= MAX_SIZE && #[trigger]
                    text_bytes(t) == b@.subrange(pos as int, pos + text_len(t)) implies false by {
                    assert(b@.subrange(pos as int, pos + 4) =~= text_bytes(t).subrange(0, 4));
                    assert(text_bytes(t).subrange(0, 4) =~= u32_le(encode_utf8(t).len() as u32));
                    lemma_u32_le_injective(n, encode_utf8(t).len() as u32);
                    assert(got =~= b@.subrange(pos as int, pos + text_len(t)).subrange(
                        4,
                        text_len(t),
                    ));
                    assert(text_bytes(t).subrange(4, text_len(t)) =~= encode_utf8(t));
                    encode_utf8_valid_utf8(t);
                }
            }
            None
        },
    }
}

/// Bytes made of the fields of `e`, each where the layout puts it, are the
/// encoding of `e`.
proof fn lemma_assemble(b: Seq<u8>, e: EventView)
    requires
        b.len() <= MAX_SIZE,
        b.len() == off_stamp(e) + stamp_len(e.updated_at),
        b.subrange(0, 8) == u64_le(e.id),
        b.subrange(8, off_date(e)) == text_bytes(e.title),
        b.subrange(off_date(e), off_time(e)) == text_bytes(e.date),
        b.subrange(off_time(e), off_max(e)) == text_bytes(e.time),
        b.subrange(off_max(e), off_url(e)) == u32_le(e.max_attendant),
        b.subrange(off_url(e), off_created(e)) == text_bytes(e.attachment_url),
        b.subrange(off_created(e), off_stamp(e)) == u64_le(e.created_at),
        b.subrange(off_stamp(e), b.len() as int) == stamp_bytes(e.updated_at),
    ensures
        encodes(b, e),
{
    lemma_layout(e);
    reveal(event_bytes);
    assert(event_bytes(e) =~= b);
}

/// Bytes that are the encoding of `e`, a record that fits.
pub open spec fn encodes(b: Seq<u8>, e: EventView) -> bool {
    fits(e) && event_bytes(e) == b
}

proof fn lemma_encoded_layout(b: Seq<u8>, e: EventView)
    requires
        encodes(b, e),
    ensures
        b.len() == off_stamp(e) + stamp_len(e.updated_at),
        b.len() <= MAX_SIZE,
        encode_utf8(e.title).len() <= MAX_SIZE,
        encode_utf8(e.date).len() <= MAX_SIZE,
        encode_utf8(e.time).len() <= MAX_SIZE,
        encode_utf8(e.attachment_url).len() <= MAX_SIZE,
        b.subrange(0, 8) == u64_le(e.id),
        b.subrange(8, 8 + text_len(e.title)) == text_bytes(e.title),
        b.subrange(off_date(e), off_date(e) + text_len(e.date)) == text_bytes(e.date),
        b.subrange(off_time(e), off_time(e) + text_len(e.time)) == text_bytes(e.time),
        b.subrange(off_max(e), off_max(e) + 4) == u32_le(e.max_attendant),
        b.subrange(off_url(e), off_url(e) + text_len(e.attachment_url)) == text_bytes(
            e.attachment_url,
        ),
        b.subrange(off_created(e), off_created(e) + 8) == u64_le(e.created_at),
        b.subrange(off_stamp(e), off_stamp(e) + stamp_len(e.updated_at)) == stamp_bytes(
            e.updated_at,
        ),
{
    lemma_layout(e);
}

/// Decodes a record: `Some` exactly on the encodings of records that fit,
/// and then the record that was encoded.
#[verifier::spinoff_prover]
pub fn decode(b: &Vec<u8>) -> (r: Option<Event>)
    ensures
        r matches Some(d) ==> encodes(b@, d@),
        forall|e: EventView| #[trigger] encodes(b@, e) ==> (r matches Some(d) && d@ == e),
{
    let ghost has = exists|e: EventView| encodes(b@, e);
    let ghost e0 = choose|e: EventView| encodes(b@, e);
    proof {
        if has {
            lemma_encoded_layout(b@, e0);
        }
    }
    if b.len() > MAX_SIZE {
        return None;
    }
    let id = match read_u64(b, 0) {
        Some(v) => v,
        None => {
            return None;
        },
    };
    let (title, at_date) = match read_text(b, 8) {
        Some(x) => x,
        None => {
            return None;
        },
    };
    let (date, at_time) = match read_text(b, at_date) {
        Some(x) => x,
        None => {
            return None;
        },
    };
    let (time, at_max) = match read_text(b, at_time) {
        Some(x) => x,
        None => {
            return None;
        },
    };
    let max_attendant = match read_u32(b, at_max) {
        Some(v) => v,
        None => {
            return None;
        },
    };
    let at_url = at_max + 4;
    let (attachment_url, at_created) = match read_text(b, at_url) {
        Some(x) => x,
        None => {
            return None;
        },
    };
    let created_at = match read_u64(b, at_created) {
        Some(v) => v,
        None => {
            return None;
        },
    };
    let at_stamp = at_created + 8;
    if at_stamp >= b.len() {
        return None;
    }
    let tag = b[at_stamp];
    let updated_at = if tag == 0u8 && at_stamp + 1 == b.len() {
        None
    } else if tag == 1u8 && at_stamp + 9 == b.len() {
        match read_u64(b, at_stamp + 1) {
            Some(v) => Some(v),
            None => {
                return None;
            },
        }
    } else {
        proof {
            if has {
                lemma_encoded_layout(b@, e0);
                assert(stamp_bytes(e0.updated_at)[0] == b@[at_stamp as int]);
            }
        }
        return None;
    };
    let d = Event {
        id,
        title,
        date,
        time,
        max_attendant,
        attachment_url,
        created_at,
        updated_at,
    };
    proof {
        match updated_at {
            None => {
                assert(b@.subrange(at_stamp as int, at_stamp + 1) =~= stamp_bytes(updated_at));
            },
            Some(t) => {
                assert(b@.subrange(at_stamp as int, at_stamp + 9) =~= stamp_bytes(updated_at));
            },
        }
        lemma_assemble(b@, d@);
        assert forall|e: EventView| #[trigger] encodes(b@, e) implies d@ == e by {
            lemma_event_bytes_injective(e, d@);
        }
    }
    Some(d)
}

proof fn lemma_text_at(b: Seq<u8>, pos: int, t1: Seq<char>, t2: Seq<char>)
    requires
        0 <= pos,
        pos + text_len(t1) <= b.len(),
        pos + text_len(t2) <= b.len(),
        encode_utf8(t1).len() <= MAX_SIZE,
        encode_utf8(t2).len() <= MAX_SIZE,
        b.subrange(pos, pos + text_len(t1)) == text_bytes(t1),
        b.subrange(pos, pos + text_len(t2)) == text_bytes(t2),
    ensures
        t1 == t2,
{
    assert(b.subrange(pos, pos + 4) =~= text_bytes(t1).subrange(0, 4));
    assert(text_bytes(t1).subrange(0, 4) =~= u32_le(encode_utf8(t1).len() as u32));
    assert(b.subrange(pos, pos + 4) =~= text_bytes(t2).subrange(0, 4));
    assert(text_bytes(t2).subrange(0, 4) =~= u32_le(encode_utf8(t2).len() as u32));
    lemma_u32_le_injective(encode_utf8(t1).len() as u32, encode_utf8(t2).len() as u32);
    assert(encode_utf8(t1) =~= text_bytes(t1).subrange(4, text_len(t1)));
    assert(encode_utf8(t2) =~= text_bytes(t2).subrange(4, text_len(t2)));
    assert(text_bytes(t1).subrange(4, text_len(t1)) =~= b.subrange(pos + 4, pos + text_len(t1)));
    assert(text_bytes(t2).subrange(4, text_len(t2)) =~= b.subrange(pos + 4, pos + text_len(t2)));
    lemma_utf8_injective(t1, t2);
}

/// Some record that fits is encoded by `b`.
pub open spec fn is_encoding(b: Seq<u8>) -> bool {
    exists|e: EventView| encodes(b, e)
}

/// The record that `b` encodes, where [`is_encoding`] holds.
pub open spec fn decoded(b: Seq<u8>) -> EventView {
    choose|e: EventView| encodes(b, e)
}

/// Decoding the encoding of a record that fits gives the record back.
pub proof fn lemma_round_trip(e: EventView)
    requires
        fits(e),
    ensures
        is_encoding(event_bytes(e)),
        decoded(event_bytes(e)) == e,
{
    assert(encodes(event_bytes(e), e));
    lemma_event_bytes_injective(decoded(event_bytes(e)), e);
}

/// Distinct events that fit have distinct encodings.
pub proof fn lemma_event_bytes_injective(e1: EventView, e2: EventView)
    requires
        encodes(event_bytes(e2), e1),
        fits(e2),
    ensures
        e1 == e2,
{
    let b = event_bytes(e2);
    lemma_encoded_layout(b, e1);
    lemma_encoded_layout(b, e2);
    lemma_u64_le_injective(e1.id, e2.id);
    lemma_text_at(b, 8, e1.title, e2.title);
    lemma_text_at(b, off_date(e1), e1.date, e2.date);
    lemma_text_at(b, off_time(e1), e1.time, e2.time);
    lemma_u32_le_injective(e1.max_attendant, e2.max_attendant);
    lemma_text_at(b, off_url(e1), e1.attachment_url, e2.attachment_url);
    lemma_u64_le_injective(e1.created_at, e2.created_at);
    let o = off_stamp(e1);
    assert(b[o] == stamp_bytes(e1.updated_at)[0]);
    assert(b[o] == stamp_bytes(e2.updated_at)[0]);
    match (e1.updated_at, e2.updated_at) {
        (Some(t1), Some(t2)) => {
            assert(off_stamp(e2) == o);
            assert(stamp_bytes(e1.updated_at).subrange(1, 9) =~= u64_le(t1));
            assert(stamp_bytes(e2.updated_at).subrange(1, 9) =~= u64_le(t2));
            assert(b.subrange(o + 1, o + 9) =~= b.subrange(o, o + 9).subrange(1, 9));
            lemma_u64_le_injective(t1, t2);
        },
        _ => {},
    }
}

impl EventPayload {
    /// Whether the events made of this payload fit in [`MAX_SIZE`] bytes,
    /// whatever their id and timestamps.
    pub fn fits(&self) -> (r: bool)
        ensures
            r == payload_fits(self@),
    {
        let a = self.title.as_str().as_bytes().len();
        let b = self.date.as_str().as_bytes().len();
        let c = self.time.as_str().as_bytes().len();
        let d = self.attachment_url.as_str().as_bytes().len();
        if a > MAX_SIZE || b > MAX_SIZE || c > MAX_SIZE || d > MAX_SIZE {
            return false;
        }
        FIXED_SIZE + a + b + c + d <= MAX_SIZE
    }
}

} // verus!
