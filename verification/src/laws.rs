//! Proved laws relating the service operations.
//!
//! Each law is stated over the spec-level transitions that the executable
//! operations are proved to implement, so it holds of every run of the
//! service. The codec's round-trip laws live beside the codec itself.
use vstd::prelude::*;

use crate::entities::{
    BusPayloadV, BusV, Error, MaintenancePayloadV, ReservationV, SearchQueryV, bus_payload_valid,
    is_blank,
};
use crate::service::{
    ServiceV, add_bus_spec, add_customer_spec, add_maintenance_spec, bus_matches,
    cancel_reservation_spec, delete_bus_spec, ids_bounded, make_reservation_spec,
    update_bus_spec,
};

verus! {

/// One creation step: the operation drew the identifier after the one the
/// counter held and moved the counter to it.
pub open spec fn mints(pre: ServiceV, post: ServiceV, id: u64) -> bool {
    &&& pre.counter < u64::MAX
    &&& id == pre.counter + 1
    &&& post.counter == id
}

/// A successful `add_bus` mints the returned bus's identifier.
pub proof fn lemma_add_bus_mints(s: ServiceV, p: BusPayloadV, caller: Seq<char>, now: u64)
    requires
        s.counter < u64::MAX,
        bus_payload_valid(p),
    ensures
        ({
            let (s2, r2) = add_bus_spec(s, p, caller, now);
            r2 matches Ok(b) && mints(s, s2, b.id)
        }),
{
}

/// A successful `add_customer` mints the returned customer's identifier.
pub proof fn lemma_add_customer_mints(
    s: ServiceV,
    name: Seq<char>,
    contact: Seq<char>,
    caller: Seq<char>,
)
    requires
        s.counter < u64::MAX,
        !is_blank(name),
        !is_blank(contact),
    ensures
        ({
            let (s2, r2) = add_customer_spec(s, name, contact, caller);
            r2 matches Ok(c) && mints(s, s2, c.id)
        }),
{
}

/// `add_bus_maintenance_record` mints the returned record's identifier.
pub proof fn lemma_add_maintenance_mints(s: ServiceV, p: MaintenancePayloadV)
    requires
        s.counter < u64::MAX,
    ensures
        ({
            let (s2, m) = add_maintenance_spec(s, p);
            mints(s, s2, m.id)
        }),
{
}

/// Identifiers minted by consecutive creations strictly increase, whichever
/// collections the creations touch; by induction, every sequence of
/// creations returns strictly increasing identifiers.
pub proof fn lemma_minted_ids_strictly_increase(
    s0: ServiceV,
    s1: ServiceV,
    s2: ServiceV,
    id1: u64,
    id2: u64,
)
    requires
        mints(s0, s1, id1),
        mints(s1, s2, id2),
    ensures
        id1 < id2,
{
}

/// Along a chain of creations the counter strictly increases.
proof fn lemma_mint_chain_counters(states: Seq<ServiceV>, ids: Seq<u64>, i: int, j: int)
    requires
        states.len() == ids.len() + 1,
        forall|k: int| 0 <= k < ids.len() ==> mints(#[trigger] states[k], states[k + 1], ids[k]),
        0 <= i < j <= ids.len(),
    ensures
        states[i].counter < states[j].counter,
    decreases j - i,
{
    if j == i + 1 {
        assert(mints(states[i], states[i + 1], ids[i]));
    } else {
        lemma_mint_chain_counters(states, ids, i, j - 1);
        assert(mints(states[j - 1], states[j], ids[j - 1]));
    }
}

/// For every sequence of creations, the returned identifiers are strictly
/// increasing, and so never repeat, across all collections sharing the
/// counter.
pub proof fn lemma_mint_chain_ids_strictly_increase(states: Seq<ServiceV>, ids: Seq<u64>)
    requires
        states.len() == ids.len() + 1,
        forall|k: int| 0 <= k < ids.len() ==> mints(#[trigger] states[k], states[k + 1], ids[k]),
    ensures
        forall|i: int, j: int| 0 <= i < j < ids.len() ==> ids[i] < ids[j],
{
    assert forall|i: int, j: int| 0 <= i < j < ids.len() implies ids[i] < ids[j] by {
        assert(mints(states[i], states[i + 1], ids[i]));
        assert(mints(states[j], states[j + 1], ids[j]));
        if i + 1 < j {
            lemma_mint_chain_counters(states, ids, i + 1, j);
        }
    }
}

/// After a successful `add_bus`, a successful `add_customer` on the
/// resulting state returns a strictly larger identifier, whoever the
/// callers are.
pub proof fn lemma_add_bus_then_add_customer_ids_increase(
    s: ServiceV,
    p: BusPayloadV,
    caller: Seq<char>,
    now: u64,
    name: Seq<char>,
    contact: Seq<char>,
    caller2: Seq<char>,
)
    requires
        s.counter < u64::MAX - 1,
        bus_payload_valid(p),
        !is_blank(name),
        !is_blank(contact),
    ensures
        ({
            let (s1, r1) = add_bus_spec(s, p, caller, now);
            let (s2, r2) = add_customer_spec(s1, name, contact, caller2);
            r1 matches Ok(b) && r2 matches Ok(c) && b.id < c.id
        }),
{
}

/// A minted identifier is fresh: a well-formed service stores no record
/// under the identifier it mints next, in any collection that draws from
/// the counter.
pub proof fn lemma_minted_id_fresh(s: ServiceV, post: ServiceV, id: u64)
    requires
        ids_bounded(s),
        mints(s, post, id),
    ensures
        !s.buses.dom().contains(id),
        !s.customers.dom().contains(id),
        !s.maintenance.dom().contains(id),
{
}

/// `update_bus` called by anyone but the owner fails authentication and
/// leaves the state unchanged.
pub proof fn lemma_update_bus_requires_owner(
    s: ServiceV,
    id: u64,
    p: BusPayloadV,
    caller: Seq<char>,
    now: u64,
)
    requires
        s.buses.dom().contains(id),
        s.buses[id].owner_principal != caller,
    ensures
        update_bus_spec(s, id, p, caller, now) == (
            s,
            Err::<BusV, Error>(Error::FailedAuthentication),
        ),
{
}

/// `delete_bus` called by anyone but the owner fails authentication and
/// leaves the state unchanged.
pub proof fn lemma_delete_bus_requires_owner(s: ServiceV, id: u64, caller: Seq<char>)
    requires
        s.buses.dom().contains(id),
        s.buses[id].owner_principal != caller,
    ensures
        delete_bus_spec(s, id, caller) == (s, Err::<BusV, Error>(Error::FailedAuthentication)),
{
}

/// Booking exclusivity: once a reservation of a bus succeeds, any further
/// reservation of the same bus — by any existing customer acting for
/// itself — is refused as already booked until the first is cancelled.
pub proof fn lemma_booking_exclusive(
    s: ServiceV,
    bus_id: u64,
    customer_id: u64,
    caller: Seq<char>,
    now: u64,
    customer_id2: u64,
    caller2: Seq<char>,
    now2: u64,
)
    requires
        make_reservation_spec(s, bus_id, customer_id, caller, now).1 is Ok,
        s.customers.dom().contains(customer_id2),
        s.customers[customer_id2].customer_principal == caller2,
    ensures
        ({
            let s1 = make_reservation_spec(s, bus_id, customer_id, caller, now).0;
            make_reservation_spec(s1, bus_id, customer_id2, caller2, now2).1 == Err::<
                ReservationV,
                Error,
            >(Error::AlreadyBooked)
        }),
{
    let s1 = make_reservation_spec(s, bus_id, customer_id, caller, now).0;
    assert(s1.buses.dom().contains(bus_id));
    assert(s1.buses[bus_id].is_booked);
}

/// Cancellation symmetry: after a successful reservation, the reserving
/// customer may cancel; the cancellation removes the row, restores the bus
/// to available, and a subsequent reservation of the bus — by any existing
/// customer acting for itself — succeeds.
pub proof fn lemma_cancellation_restores_availability(
    s: ServiceV,
    bus_id: u64,
    customer_id: u64,
    caller: Seq<char>,
    now: u64,
    customer_id3: u64,
    caller3: Seq<char>,
    now3: u64,
)
    requires
        make_reservation_spec(s, bus_id, customer_id, caller, now).1 is Ok,
        s.customers.dom().contains(customer_id3),
        s.customers[customer_id3].customer_principal == caller3,
    ensures
        ({
            let s1 = make_reservation_spec(s, bus_id, customer_id, caller, now).0;
            let (s2, rc) = cancel_reservation_spec(s1, bus_id, caller);
            &&& rc == Ok::<(), Error>(())
            &&& !s2.reservations.dom().contains(bus_id)
            &&& s2.buses.dom().contains(bus_id) && !s2.buses[bus_id].is_booked
            &&& make_reservation_spec(s2, bus_id, customer_id3, caller3, now3).1 is Ok
        }),
{
    let s1 = make_reservation_spec(s, bus_id, customer_id, caller, now).0;
    assert(s1.reservations.dom().contains(bus_id));
    assert(s1.reservations[bus_id].customer_id == customer_id);
    assert(s1.customers == s.customers);
    assert(s1.customers[customer_id].customer_principal == caller);
    let (s2, rc) = cancel_reservation_spec(s1, bus_id, caller);
    assert(s2.buses.dom().contains(bus_id) && !s2.buses[bus_id].is_booked);
    assert(s2.customers == s.customers);
}

/// A query with every predicate absent matches every bus, so `search_buses`
/// with such a query returns every stored bus, in ascending key order, as
/// `generate_report` does.
pub proof fn lemma_empty_query_matches_all(b: BusV, q: SearchQueryV)
    requires
        q.make is None,
        q.model is None,
        q.year is None,
        q.color is None,
        q.is_booked is None,
    ensures
        bus_matches(b, q),
{
}

} // verus!
