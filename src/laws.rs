//! Laws of the store that relate several operations.
use crate::codec::{lemma_payload_size, lemma_round_trip, payload_fits};
use crate::event::{Error, EventView, PayloadView};
use crate::store::{
    StoreModel, create_spec, created, delete_spec, holds_record, read_spec, update_spec,
};
use vstd::prelude::*;

verus! {

/// The state and the events after creating each payload of `ps`, in order,
/// each at its own time.
pub open spec fn create_run(m: StoreModel, ps: Seq<(PayloadView, u64)>) -> (
    StoreModel,
    Seq<EventView>,
)
    decreases ps.len(),
{
    if ps.len() == 0 {
        (m, Seq::empty())
    } else {
        let (m1, es) = create_run(m, ps.drop_last());
        let (p, now) = ps.last();
        (create_spec(m1, p, now), es.push(created(m1, p, now)))
    }
}

/// Successive creates hand out ids that strictly increase, so no two are
/// equal.
pub proof fn law_ids_increase(m: StoreModel, ps: Seq<(PayloadView, u64)>)
    requires
        m.next_id + ps.len() <= u64::MAX,
    ensures
        create_run(m, ps).1.len() == ps.len(),
        create_run(m, ps).0.next_id == m.next_id + ps.len(),
        forall|i: int| 0 <= i < ps.len() ==> #[trigger] create_run(m, ps).1[i].id == m.next_id + i,
        forall|i: int, j: int|
            0 <= i < j < ps.len() ==> #[trigger] create_run(m, ps).1[i].id < #[trigger] create_run(
                m,
                ps,
            ).1[j].id,
    decreases ps.len(),
{
    if ps.len() > 0 {
        law_ids_increase(m, ps.drop_last());
        let es = create_run(m, ps).1;
        let prev = create_run(m, ps.drop_last()).1;
        assert forall|i: int| 0 <= i < ps.len() implies #[trigger] es[i].id == m.next_id + i by {
            if i < ps.len() - 1 {
                assert(es[i] == prev[i]);
            }
        }
        assert forall|i: int, j: int| 0 <= i < j < ps.len() implies #[trigger] es[i].id
            < #[trigger] es[j].id by {
            assert(es[i].id == m.next_id + i);
            assert(es[j].id == m.next_id + j);
        }
    }
}

/// Reading the id of a record just created gives that record unchanged.
pub proof fn law_read_after_create(m: StoreModel, p: PayloadView, now: u64)
    requires
        m.next_id < u64::MAX,
        payload_fits(p),
    ensures
        read_spec(create_spec(m, p, now), created(m, p, now).id) == Ok::<EventView, Error>(
            created(m, p, now),
        ),
{
    let e = created(m, p, now);
    lemma_payload_size(p, m.next_id, now, None);
    lemma_round_trip(e);
}

/// Updating a record just created keeps its id and creation time, stamps it
/// with the update's time, and takes the new payload whole.
pub proof fn law_update_after_create(
    m: StoreModel,
    p: PayloadView,
    now: u64,
    next_payload: PayloadView,
    next_now: u64,
)
    requires
        m.next_id < u64::MAX,
        payload_fits(p),
        now <= next_now,
    ensures
        ({
            let e = created(m, p, now);
            let r = update_spec(create_spec(m, p, now), e.id, next_payload, next_now).1;
            r matches Ok(updated) && updated.id == e.id && updated.created_at == e.created_at && updated.updated_at
                == Some(next_now) && next_now >= e.created_at && updated.payload() == next_payload
        }),
{
    law_read_after_create(m, p, now);
}

/// After a successful delete the id reads as not found, and deleting it
/// again finds nothing.
pub proof fn law_delete_final(m: StoreModel, id: u64)
    ensures
        delete_spec(m, id).1 is Ok ==> read_spec(delete_spec(m, id).0, id) == Err::<
            EventView,
            Error,
        >(Error::NotFound { id }) && delete_spec(delete_spec(m, id).0, id).1 == Err::<
            EventView,
            Error,
        >(Error::NotFound { id }),
{
}

/// Creating, updating another id, or deleting another id leaves what reading
/// `id` gives unchanged.
pub proof fn law_other_ids_unaffected(
    m: StoreModel,
    id: u64,
    other: u64,
    p: PayloadView,
    now: u64,
)
    requires
        m.wf(),
        id != other,
    ensures
        m.next_id < u64::MAX && m.next_id != id ==> read_spec(create_spec(m, p, now), id)
            == read_spec(m, id),
        read_spec(update_spec(m, other, p, now).0, id) == read_spec(m, id),
        read_spec(delete_spec(m, other).0, id) == read_spec(m, id),
{
    if m.next_id < u64::MAX && m.next_id != id {
        assert(create_spec(m, p, now).records.contains_key(id) == m.records.contains_key(id));
    }
}

/// Updating a stored record, however often it was updated before, keeps its
/// id and creation time, stamps it with the update's time, takes the new
/// payload whole, and is what a later read gives.
pub proof fn law_update_keeps_identity(m: StoreModel, id: u64, p: PayloadView, now: u64)
    requires
        read_spec(m, id) is Ok,
        payload_fits(p),
    ensures
        ({
            let e = read_spec(m, id)->Ok_0;
            let (m2, r) = update_spec(m, id, p, now);
            r matches Ok(updated) && updated.id == e.id && updated.created_at == e.created_at
                && updated.updated_at == Some(now) && updated.payload() == p && read_spec(m2, id)
                == Ok::<EventView, Error>(updated)
        }),
{
    let e = read_spec(m, id)->Ok_0;
    assert(holds_record(m.records[id], id));
    let updated = p.with(id, e.created_at, Some(now));
    lemma_payload_size(p, id, e.created_at, Some(now));
    lemma_round_trip(updated);
}

/// An id that holds no record and was already minted never holds one again:
/// each create mints a larger id, updates and deletes of it find nothing.
pub open spec fn gone_for_good(m: StoreModel, id: u64) -> bool {
    !m.records.contains_key(id) && id < m.next_id
}

/// A successful delete leaves its id gone for good, and every later create,
/// update or delete keeps it so; reading or deleting it then finds nothing.
pub proof fn law_deleted_stays_absent(
    m: StoreModel,
    id: u64,
    other: u64,
    p: PayloadView,
    now: u64,
)
    requires
        m.wf(),
    ensures
        delete_spec(m, id).1 is Ok ==> gone_for_good(delete_spec(m, id).0, id),
        gone_for_good(m, id) ==> {
            &&& read_spec(m, id) == Err::<EventView, Error>(Error::NotFound { id })
            &&& delete_spec(m, id).1 == Err::<EventView, Error>(Error::NotFound { id })
            &&& update_spec(m, id, p, now).1 == Err::<EventView, Error>(Error::NotFound { id })
            &&& (m.next_id < u64::MAX ==> gone_for_good(create_spec(m, p, now), id))
            &&& gone_for_good(update_spec(m, other, p, now).0, id)
            &&& gone_for_good(delete_spec(m, other).0, id)
        },
{
    if delete_spec(m, id).1 is Ok {
        assert(m.records.contains_key(id));
    }
}

} // verus!
