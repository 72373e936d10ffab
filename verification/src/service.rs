//! The service: typed collections over the persistent regions, the
//! identifier counter, owner authorization and booking exclusivity.
use vstd::prelude::*;

use crate::codec::{
    bus_le, customer_le, dec_bus, dec_customer,
    dec_maintenance, dec_reservation, decode_bus, decode_customer, decode_maintenance,
    decode_reservation, encode_bus, encode_customer, encode_maintenance, encode_reservation,
    lemma_bus_round_trip, lemma_customer_round_trip, lemma_maintenance_round_trip,
    lemma_reservation_round_trip, maintenance_le, reservation_le,
};
use crate::entities::{
    Bus, BusPayload, BusPayloadV, BusV, Customer, CustomerV, Error, MaintenancePayload,
    MaintenancePayloadV, MaintenanceRecord, MaintenanceRecordV, Reservation, ReservationV,
    SearchQuery, SearchQueryV, TimeRange, bus_payload_valid, is_blank,
};
use crate::persist::{
    CounterCell, RegionAllocator, RegionByteMap, byte_map_contents, counter_value,
};

verus! {

/// Region index of the identifier counter.
pub const REGION_COUNTER: u8 = 0;

/// Region index of the bus collection.
pub const REGION_BUSES: u8 = 1;

/// Region index of the customer collection.
pub const REGION_CUSTOMERS: u8 = 2;

/// Region index of the reservation collection.
pub const REGION_RESERVATIONS: u8 = 3;

/// Region index of the maintenance-record collection.
pub const REGION_MAINTENANCE: u8 = 4;

/// Mathematical view of the whole service state: the counter and the four
/// collections as maps over record views.
#[verifier::ext_equal]
pub ghost struct ServiceV {
    pub counter: u64,
    pub buses: Map<u64, BusV>,
    pub customers: Map<u64, CustomerV>,
    pub reservations: Map<u64, ReservationV>,
    pub maintenance: Map<u64, MaintenanceRecordV>,
}

/// Every stored bus byte string decodes to a bus whose identifier is its
/// key.
pub open spec fn wf_bus_map(m: Map<u64, Seq<u8>>) -> bool {
    forall|k: u64| #[trigger]
        m.dom().contains(k) ==> dec_bus(m[k]) is Some && dec_bus(m[k]).unwrap().id == k
}

/// Every stored customer byte string decodes to a customer whose identifier
/// is its key.
pub open spec fn wf_customer_map(m: Map<u64, Seq<u8>>) -> bool {
    forall|k: u64| #[trigger]
        m.dom().contains(k) ==> dec_customer(m[k]) is Some && dec_customer(m[k]).unwrap().id == k
}

/// Every stored reservation byte string decodes to a row whose bus
/// identifier is its key.
pub open spec fn wf_reservation_map(m: Map<u64, Seq<u8>>) -> bool {
    forall|k: u64| #[trigger]
        m.dom().contains(k) ==> dec_reservation(m[k]) is Some && dec_reservation(
            m[k],
        ).unwrap().bus_id == k
}

/// Every stored maintenance byte string decodes to a record whose identifier
/// is its key.
pub open spec fn wf_maintenance_map(m: Map<u64, Seq<u8>>) -> bool {
    forall|k: u64| #[trigger]
        m.dom().contains(k) ==> dec_maintenance(m[k]) is Some && dec_maintenance(
            m[k],
        ).unwrap().id == k
}

/// The typed view of a bus region.
pub open spec fn bus_map_view(m: Map<u64, Seq<u8>>) -> Map<u64, BusV> {
    m.map_values(|v: Seq<u8>| dec_bus(v).unwrap())
}

/// The typed view of a customer region.
pub open spec fn customer_map_view(m: Map<u64, Seq<u8>>) -> Map<u64, CustomerV> {
    m.map_values(|v: Seq<u8>| dec_customer(v).unwrap())
}

/// The typed view of a reservation region.
pub open spec fn reservation_map_view(m: Map<u64, Seq<u8>>) -> Map<u64, ReservationV> {
    m.map_values(|v: Seq<u8>| dec_reservation(v).unwrap())
}

/// The typed view of a maintenance region.
pub open spec fn maintenance_map_view(m: Map<u64, Seq<u8>>) -> Map<u64, MaintenanceRecordV> {
    m.map_values(|v: Seq<u8>| dec_maintenance(v).unwrap())
}

/// Every identifier drawn so far is no greater than the counter, so the next
/// identifier is fresh in every collection that mints identifiers.
pub open spec fn ids_bounded(s: ServiceV) -> bool {
    &&& forall|k: u64| #[trigger] s.buses.dom().contains(k) ==> k <= s.counter
    &&& forall|k: u64| #[trigger] s.customers.dom().contains(k) ==> k <= s.counter
    &&& forall|k: u64| #[trigger] s.maintenance.dom().contains(k) ==> k <= s.counter
}

/// Identifier boundedness is preserved whenever the counter does not shrink
/// and no identifier-keyed collection gains a key.
proof fn lemma_preserve_ids_bounded(pre: ServiceV, post: ServiceV)
    requires
        ids_bounded(pre),
        pre.counter <= post.counter,
        forall|k: u64| #[trigger] post.buses.dom().contains(k) ==> pre.buses.dom().contains(k),
        forall|k: u64| #[trigger]
            post.customers.dom().contains(k) ==> pre.customers.dom().contains(k),
        forall|k: u64| #[trigger]
            post.maintenance.dom().contains(k) ==> pre.maintenance.dom().contains(k),
    ensures
        ids_bounded(post),
{
}

/// Whether a bus satisfies every present predicate of a query; an absent
/// predicate matches everything.
pub open spec fn bus_matches(b: BusV, q: SearchQueryV) -> bool {
    &&& (q.make matches Some(m) ==> b.make == m)
    &&& (q.model matches Some(m) ==> b.model == m)
    &&& (q.year matches Some(y) ==> b.year == y)
    &&& (q.color matches Some(c) ==> b.color == c)
    &&& (q.is_booked matches Some(f) ==> b.is_booked == f)
}

/// Decides `bus_matches` for a concrete bus and query.
pub fn bus_matches_exec(b: &Bus, q: &SearchQuery) -> (r: bool)
    ensures
        r == bus_matches(b@, q@),
{
    let make_ok = match &q.make {
        Some(m) => m.eq(&b.make),
        None => true,
    };
    let model_ok = match &q.model {
        Some(m) => m.eq(&b.model),
        None => true,
    };
    let year_ok = match &q.year {
        Some(y) => *y == b.year,
        None => true,
    };
    let color_ok = match &q.color {
        Some(c) => c.eq(&b.color),
        None => true,
    };
    let booked_ok = match &q.is_booked {
        Some(f) => *f == b.is_booked,
        None => true,
    };
    make_ok && model_ok && year_ok && color_ok && booked_ok
}

/// The view of a bus result: record views on success, errors unchanged.
pub open spec fn bus_result_view(r: Result<Bus, Error>) -> Result<BusV, Error> {
    match r {
        Ok(b) => Ok(b@),
        Err(e) => Err(e),
    }
}

/// The view of a customer result.
pub open spec fn customer_result_view(r: Result<Customer, Error>) -> Result<CustomerV, Error> {
    match r {
        Ok(c) => Ok(c@),
        Err(e) => Err(e),
    }
}

/// The view of a reservation result.
pub open spec fn reservation_result_view(r: Result<Reservation, Error>) -> Result<
    ReservationV,
    Error,
> {
    match r {
        Ok(x) => Ok(x@),
        Err(e) => Err(e),
    }
}

/// What `add_bus` does: an invalid payload is rejected and the state kept;
/// otherwise a fresh identifier names a new bus owned by the caller, created
/// now, not yet updated.
pub open spec fn add_bus_spec(s: ServiceV, p: BusPayloadV, caller: Seq<char>, now: u64) -> (
    ServiceV,
    Result<BusV, Error>,
) {
    if !bus_payload_valid(p) {
        (s, Err(Error::InvalidInputData))
    } else {
        let id = (s.counter + 1) as u64;
        let b = BusV {
            id,
            owner_principal: caller,
            make: p.make,
            model: p.model,
            year: p.year,
            color: p.color,
            created_at: now,
            updated_at: None,
            is_booked: p.is_booked,
        };
        (ServiceV { counter: id, buses: s.buses.insert(id, b), ..s }, Ok(b))
    }
}

/// What `update_bus` does: absent bus, wrong owner, and invalid payload are
/// rejected in that order with the state kept; otherwise the caller-supplied
/// fields are replaced and the update instant stamped, while identity,
/// ownership and creation instant stay.
pub open spec fn update_bus_spec(
    s: ServiceV,
    id: u64,
    p: BusPayloadV,
    caller: Seq<char>,
    now: u64,
) -> (ServiceV, Result<BusV, Error>) {
    if !s.buses.dom().contains(id) {
        (s, Err(Error::NotFound))
    } else if s.buses[id].owner_principal != caller {
        (s, Err(Error::FailedAuthentication))
    } else if !bus_payload_valid(p) {
        (s, Err(Error::InvalidInputData))
    } else {
        let b = BusV {
            id,
            owner_principal: s.buses[id].owner_principal,
            make: p.make,
            model: p.model,
            year: p.year,
            color: p.color,
            created_at: s.buses[id].created_at,
            updated_at: Some(now),
            is_booked: p.is_booked,
        };
        (ServiceV { buses: s.buses.insert(id, b), ..s }, Ok(b))
    }
}

/// What `delete_bus` does: absent bus and wrong owner are rejected with the
/// state kept; otherwise the bus is removed and returned.
pub open spec fn delete_bus_spec(s: ServiceV, id: u64, caller: Seq<char>) -> (
    ServiceV,
    Result<BusV, Error>,
) {
    if !s.buses.dom().contains(id) {
        (s, Err(Error::NotFound))
    } else if s.buses[id].owner_principal != caller {
        (s, Err(Error::FailedAuthentication))
    } else {
        (ServiceV { buses: s.buses.remove(id), ..s }, Ok(s.buses[id]))
    }
}

/// What `get_bus` returns: the stored bus, or not-found.
pub open spec fn get_bus_spec(s: ServiceV, id: u64) -> Result<BusV, Error> {
    if s.buses.dom().contains(id) {
        Ok(s.buses[id])
    } else {
        Err(Error::NotFound)
    }
}

/// What `is_booked` returns: the stored bus's booking flag, or not-found.
pub open spec fn is_booked_spec(s: ServiceV, id: u64) -> Result<bool, Error> {
    if s.buses.dom().contains(id) {
        Ok(s.buses[id].is_booked)
    } else {
        Err(Error::NotFound)
    }
}

/// What `add_customer` does: blank inputs are rejected and the state kept;
/// otherwise a fresh identifier names a new customer owned by the caller.
pub open spec fn add_customer_spec(
    s: ServiceV,
    name: Seq<char>,
    contact: Seq<char>,
    caller: Seq<char>,
) -> (ServiceV, Result<CustomerV, Error>) {
    if is_blank(name) || is_blank(contact) {
        (s, Err(Error::InvalidInputData))
    } else {
        let id = (s.counter + 1) as u64;
        let c = CustomerV { id, customer_principal: caller, name, contact };
        (ServiceV { counter: id, customers: s.customers.insert(id, c), ..s }, Ok(c))
    }
}

/// What `get_customer` returns: the stored customer, or not-found.
pub open spec fn get_customer_spec(s: ServiceV, id: u64) -> Result<CustomerV, Error> {
    if s.customers.dom().contains(id) {
        Ok(s.customers[id])
    } else {
        Err(Error::NotFound)
    }
}

/// What `delete_customer` does: absent customer and wrong principal are
/// rejected with the state kept; otherwise the customer is removed and
/// returned.
pub open spec fn delete_customer_spec(s: ServiceV, id: u64, caller: Seq<char>) -> (
    ServiceV,
    Result<CustomerV, Error>,
) {
    if !s.customers.dom().contains(id) {
        (s, Err(Error::NotFound))
    } else if s.customers[id].customer_principal != caller {
        (s, Err(Error::FailedAuthentication))
    } else {
        (ServiceV { customers: s.customers.remove(id), ..s }, Ok(s.customers[id]))
    }
}

/// What `make_reservation` does: the bus and the customer must exist, the
/// caller must be that customer, and the bus must be available, the checks
/// made in that order; on success the reservation row keyed by the bus and
/// the flip of the bus to booked happen together.
pub open spec fn make_reservation_spec(
    s: ServiceV,
    bus_id: u64,
    customer_id: u64,
    caller: Seq<char>,
    now: u64,
) -> (ServiceV, Result<ReservationV, Error>) {
    if !(s.buses.dom().contains(bus_id) && s.customers.dom().contains(customer_id)) {
        (s, Err(Error::NotFound))
    } else if s.customers[customer_id].customer_principal != caller {
        (s, Err(Error::FailedAuthentication))
    } else if s.buses[bus_id].is_booked {
        (s, Err(Error::AlreadyBooked))
    } else {
        let r = ReservationV { bus_id, customer_id, reservation_time: now };
        let booked = BusV { is_booked: true, ..s.buses[bus_id] };
        (
            ServiceV {
                reservations: s.reservations.insert(bus_id, r),
                buses: s.buses.insert(bus_id, booked),
                ..s
            },
            Ok(r),
        )
    }
}

/// Whether the caller may cancel the reservation: it is the reserving
/// customer, if that customer still exists, or the bus owner, if the bus
/// still exists.
pub open spec fn may_cancel(s: ServiceV, r: ReservationV, bus_id: u64, caller: Seq<char>) -> bool {
    ||| (s.customers.dom().contains(r.customer_id) && s.customers[r.customer_id].customer_principal
        == caller)
    ||| (s.buses.dom().contains(bus_id) && s.buses[bus_id].owner_principal == caller)
}

/// What `cancel_reservation` does: an absent row is rejected; a row whose
/// customer and bus are both gone is rejected as not found; an unauthorized
/// caller is rejected; otherwise the row is removed and the bus, if still
/// stored, flipped back to available.
pub open spec fn cancel_reservation_spec(s: ServiceV, bus_id: u64, caller: Seq<char>) -> (
    ServiceV,
    Result<(), Error>,
) {
    if !s.reservations.dom().contains(bus_id) {
        (s, Err(Error::NotFound))
    } else {
        let r = s.reservations[bus_id];
        if !s.customers.dom().contains(r.customer_id) && !s.buses.dom().contains(bus_id) {
            (s, Err(Error::NotFound))
        } else if !may_cancel(s, r, bus_id, caller) {
            (s, Err(Error::FailedAuthentication))
        } else {
            let buses = if s.buses.dom().contains(bus_id) {
                s.buses.insert(bus_id, BusV { is_booked: false, ..s.buses[bus_id] })
            } else {
                s.buses
            };
            (ServiceV { reservations: s.reservations.remove(bus_id), buses, ..s }, Ok(()))
        }
    }
}

/// What `get_reservation` returns: the stored row, or not-found.
pub open spec fn get_reservation_spec(s: ServiceV, bus_id: u64) -> Result<ReservationV, Error> {
    if s.reservations.dom().contains(bus_id) {
        Ok(s.reservations[bus_id])
    } else {
        Err(Error::NotFound)
    }
}

/// What `check_bus_availability` returns: not-found for an absent bus, and
/// otherwise true exactly when no reservation of the bus has its instant in
/// the closed interval.
pub open spec fn check_availability_spec(s: ServiceV, bus_id: u64, range: TimeRange) -> Result<
    bool,
    Error,
> {
    if !s.buses.dom().contains(bus_id) {
        Err(Error::NotFound)
    } else {
        Ok(
            !(s.reservations.dom().contains(bus_id) && range.start_time
                <= s.reservations[bus_id].reservation_time && s.reservations[
                bus_id
            ].reservation_time <= range.end_time),
        )
    }
}

/// What `add_bus_maintenance_record` does: a fresh identifier names a new
/// record with the supplied fields.
pub open spec fn add_maintenance_spec(s: ServiceV, p: MaintenancePayloadV) -> (
    ServiceV,
    MaintenanceRecordV,
) {
    let id = (s.counter + 1) as u64;
    let m = MaintenanceRecordV {
        id,
        bus_id: p.bus_id,
        maintenance_date: p.maintenance_date,
        details: p.details,
    };
    (ServiceV { counter: id, maintenance: s.maintenance.insert(id, m), ..s }, m)
}

/// What `delete_bus_maintenance_record` does: an absent record is rejected
/// with the state kept; otherwise it is removed.
pub open spec fn delete_maintenance_spec(s: ServiceV, id: u64) -> (ServiceV, Result<(), Error>) {
    if !s.maintenance.dom().contains(id) {
        (s, Err(Error::NotFound))
    } else {
        (ServiceV { maintenance: s.maintenance.remove(id), ..s }, Ok(()))
    }
}

/// The rental service: one persistent counter and four persistent
/// collections, each in its own region.
pub struct Service {
    alloc: RegionAllocator,
    counter: CounterCell,
    buses: RegionByteMap,
    customers: RegionByteMap,
    reservations: RegionByteMap,
    maintenance: RegionByteMap,
}

impl View for Service {
    type V = ServiceV;

    closed spec fn view(&self) -> ServiceV {
        ServiceV {
            counter: counter_value(self.counter),
            buses: bus_map_view(byte_map_contents(self.buses)),
            customers: customer_map_view(byte_map_contents(self.customers)),
            reservations: reservation_map_view(byte_map_contents(self.reservations)),
            maintenance: maintenance_map_view(byte_map_contents(self.maintenance)),
        }
    }
}

impl Service {
    /// Well-formedness: every stored byte string decodes to a record keyed
    /// by its own identifier, and no stored identifier exceeds the counter.
    pub closed spec fn wf(&self) -> bool {
        &&& wf_bus_map(byte_map_contents(self.buses))
        &&& wf_customer_map(byte_map_contents(self.customers))
        &&& wf_reservation_map(byte_map_contents(self.reservations))
        &&& wf_maintenance_map(byte_map_contents(self.maintenance))
        &&& ids_bounded(self.view())
    }

    /// A well-formed service has every stored identifier bounded by its
    /// counter.
    pub proof fn lemma_wf_ids_bounded(&self)
        requires
            self.wf(),
        ensures
            ids_bounded(self@),
    {
    }

    /// In a well-formed service every stored record is keyed by its own
    /// identifier: a bus, customer or maintenance record by its `id`, a
    /// reservation row by its `bus_id`.
    pub proof fn lemma_wf_keys_agree(&self)
        requires
            self.wf(),
        ensures
            forall|k: u64| #[trigger] self@.buses.dom().contains(k) ==> self@.buses[k].id == k,
            forall|k: u64| #[trigger]
                self@.customers.dom().contains(k) ==> self@.customers[k].id == k,
            forall|k: u64| #[trigger]
                self@.reservations.dom().contains(k) ==> self@.reservations[k].bus_id == k,
            forall|k: u64| #[trigger]
                self@.maintenance.dom().contains(k) ==> self@.maintenance[k].id == k,
    {
        assert forall|k: u64| #[trigger] self@.buses.dom().contains(k) implies self@.buses[k].id
            == k by {
            assert(byte_map_contents(self.buses).dom().contains(k));
        }
        assert forall|k: u64| #[trigger] self@.customers.dom().contains(k) implies self@.customers[
            k
        ].id == k by {
            assert(byte_map_contents(self.customers).dom().contains(k));
        }
        assert forall|k: u64| #[trigger]
            self@.reservations.dom().contains(k) implies self@.reservations[k].bus_id == k by {
            assert(byte_map_contents(self.reservations).dom().contains(k));
        }
        assert forall|k: u64| #[trigger]
            self@.maintenance.dom().contains(k) implies self@.maintenance[k].id == k by {
            assert(byte_map_contents(self.maintenance).dom().contains(k));
        }
    }

    /// Looks a bus up by identifier.
    fn find_bus(&self, id: u64) -> (r: Option<Bus>)
        requires
            self.wf(),
        ensures
            match r {
                Some(b) => self@.buses.dom().contains(id) && b@ == self@.buses[id],
                None => !self@.buses.dom().contains(id),
            },
    {
        match self.buses.get(id) {
            None => None,
            Some(v) => match decode_bus(&v) {
                Some(b) => Some(b),
                None => vstd::pervasive::unreached(),
            },
        }
    }

    /// Looks a customer up by identifier.
    fn find_customer(&self, id: u64) -> (r: Option<Customer>)
        requires
            self.wf(),
        ensures
            match r {
                Some(c) => self@.customers.dom().contains(id) && c@ == self@.customers[id],
                None => !self@.customers.dom().contains(id),
            },
    {
        match self.customers.get(id) {
            None => None,
            Some(v) => match decode_customer(&v) {
                Some(c) => Some(c),
                None => vstd::pervasive::unreached(),
            },
        }
    }

    /// Looks a reservation up by bus identifier.
    fn find_reservation(&self, bus_id: u64) -> (r: Option<Reservation>)
        requires
            self.wf(),
        ensures
            match r {
                Some(x) => self@.reservations.dom().contains(bus_id) && x@
                    == self@.reservations[bus_id],
                None => !self@.reservations.dom().contains(bus_id),
            },
    {
        match self.reservations.get(bus_id) {
            None => None,
            Some(v) => match decode_reservation(&v) {
                Some(x) => Some(x),
                None => vstd::pervasive::unreached(),
            },
        }
    }

    /// Looks a maintenance record up by identifier.
    fn find_maintenance(&self, id: u64) -> (r: Option<MaintenanceRecord>)
        requires
            self.wf(),
        ensures
            match r {
                Some(m) => self@.maintenance.dom().contains(id) && m@ == self@.maintenance[id],
                None => !self@.maintenance.dom().contains(id),
            },
    {
        match self.maintenance.get(id) {
            None => None,
            Some(v) => match decode_maintenance(&v) {
                Some(m) => Some(m),
                None => vstd::pervasive::unreached(),
            },
        }
    }

    /// Stores a bus under its identifier, overwriting any previous record.
    pub fn do_insert_bus(&mut self, bus: &Bus)
        requires
            old(self).wf(),
            bus@.id <= old(self)@.counter,
        ensures
            final(self).wf(),
            final(self)@ =~= (ServiceV {
                buses: old(self)@.buses.insert(bus@.id, bus@),
                ..old(self)@
            }),
    {
        let bytes = encode_bus(bus);
        let ghost pre = byte_map_contents(self.buses);
        self.buses.insert(bus.id, bytes);
        proof {
            lemma_bus_round_trip(bus@);
            let post = byte_map_contents(self.buses);
            assert(post == pre.insert(bus@.id, bus_le(bus@)));
            assert(wf_bus_map(post));
            assert(bus_map_view(post) =~= bus_map_view(pre).insert(bus@.id, bus@));
        }
    }

    /// Stores a customer under its identifier, overwriting any previous
    /// record.
    pub fn do_insert_customer(&mut self, customer: &Customer)
        requires
            old(self).wf(),
            customer@.id <= old(self)@.counter,
        ensures
            final(self).wf(),
            final(self)@ =~= (ServiceV {
                customers: old(self)@.customers.insert(customer@.id, customer@),
                ..old(self)@
            }),
    {
        let bytes = encode_customer(customer);
        let ghost pre = byte_map_contents(self.customers);
        self.customers.insert(customer.id, bytes);
        proof {
            lemma_customer_round_trip(customer@);
            let post = byte_map_contents(self.customers);
            assert(post == pre.insert(customer@.id, customer_le(customer@)));
            assert(wf_customer_map(post));
            assert(customer_map_view(post) =~= customer_map_view(pre).insert(
                customer@.id,
                customer@,
            ));
        }
    }

    /// Stores a reservation under its bus identifier, overwriting any
    /// previous row.
    pub fn do_insert_reservation(&mut self, reservation: &Reservation)
        requires
            old(self).wf(),
        ensures
            final(self).wf(),
            final(self)@ =~= (ServiceV {
                reservations: old(self)@.reservations.insert(reservation@.bus_id, reservation@),
                ..old(self)@
            }),
    {
        let bytes = encode_reservation(reservation);
        let ghost pre = byte_map_contents(self.reservations);
        self.reservations.insert(reservation.bus_id, bytes);
        proof {
            lemma_reservation_round_trip(reservation@);
            let post = byte_map_contents(self.reservations);
            assert(post == pre.insert(reservation@.bus_id, reservation_le(reservation@)));
            assert(wf_reservation_map(post));
            assert(reservation_map_view(post) =~= reservation_map_view(pre).insert(
                reservation@.bus_id,
                reservation@,
            ));
            lemma_preserve_ids_bounded(old(self)@, self@);
        }
    }

    /// Stores a maintenance record under its identifier.
    fn insert_maintenance(&mut self, record: &MaintenanceRecord)
        requires
            old(self).wf(),
            record@.id <= old(self)@.counter,
        ensures
            final(self).wf(),
            final(self)@ =~= (ServiceV {
                maintenance: old(self)@.maintenance.insert(record@.id, record@),
                ..old(self)@
            }),
    {
        let bytes = encode_maintenance(record);
        let ghost pre = byte_map_contents(self.maintenance);
        self.maintenance.insert(record.id, bytes);
        proof {
            lemma_maintenance_round_trip(record@);
            let post = byte_map_contents(self.maintenance);
            assert(post == pre.insert(record@.id, maintenance_le(record@)));
            assert(wf_maintenance_map(post));
            assert(maintenance_map_view(post) =~= maintenance_map_view(pre).insert(
                record@.id,
                record@,
            ));
        }
    }

    /// Removes the bus stored under the identifier, if any.
    fn remove_bus(&mut self, id: u64)
        requires
            old(self).wf(),
        ensures
            final(self).wf(),
            final(self)@ =~= (ServiceV { buses: old(self)@.buses.remove(id), ..old(self)@ }),
    {
        let ghost pre = byte_map_contents(self.buses);
        self.buses.remove(id);
        proof {
            let post = byte_map_contents(self.buses);
            assert(post == pre.remove(id));
            assert(wf_bus_map(post));
            assert(bus_map_view(post) =~= bus_map_view(pre).remove(id));
            lemma_preserve_ids_bounded(old(self)@, self@);
        }
    }

    /// Removes the customer stored under the identifier, if any.
    fn remove_customer(&mut self, id: u64)
        requires
            old(self).wf(),
        ensures
            final(self).wf(),
            final(self)@ =~= (ServiceV {
                customers: old(self)@.customers.remove(id),
                ..old(self)@
            }),
    {
        let ghost pre = byte_map_contents(self.customers);
        self.customers.remove(id);
        proof {
            let post = byte_map_contents(self.customers);
            assert(post == pre.remove(id));
            assert(wf_customer_map(post));
            assert(customer_map_view(post) =~= customer_map_view(pre).remove(id));
            lemma_preserve_ids_bounded(old(self)@, self@);
        }
    }

    /// Removes the reservation stored under the bus identifier, if any.
    fn remove_reservation(&mut self, bus_id: u64)
        requires
            old(self).wf(),
        ensures
            final(self).wf(),
            final(self)@ =~= (ServiceV {
                reservations: old(self)@.reservations.remove(bus_id),
                ..old(self)@
            }),
    {
        let ghost pre = byte_map_contents(self.reservations);
        self.reservations.remove(bus_id);
        proof {
            let post = byte_map_contents(self.reservations);
            assert(post == pre.remove(bus_id));
            assert(wf_reservation_map(post));
            assert(reservation_map_view(post) =~= reservation_map_view(pre).remove(bus_id));
            lemma_preserve_ids_bounded(old(self)@, self@);
        }
    }

    /// Removes the maintenance record stored under the identifier, if any.
    fn remove_maintenance(&mut self, id: u64)
        requires
            old(self).wf(),
        ensures
            final(self).wf(),
            final(self)@ =~= (ServiceV {
                maintenance: old(self)@.maintenance.remove(id),
                ..old(self)@
            }),
    {
        let ghost pre = byte_map_contents(self.maintenance);
        self.maintenance.remove(id);
        proof {
            let post = byte_map_contents(self.maintenance);
            assert(post == pre.remove(id));
            assert(wf_maintenance_map(post));
            assert(maintenance_map_view(post) =~= maintenance_map_view(pre).remove(id));
            lemma_preserve_ids_bounded(old(self)@, self@);
        }
    }

    /// Returns the bus stored under the identifier.
    pub fn get_bus(&self, id: u64) -> (r: Result<Bus, Error>)
        requires
            self.wf(),
        ensures
            bus_result_view(r) == get_bus_spec(self@, id),
    {
        match self.find_bus(id) {
            Some(b) => Ok(b),
            None => Err(Error::NotFound),
        }
    }

    /// Validates the payload, mints a fresh identifier, and stores a new bus
    /// owned by the caller.
    pub fn add_bus(&mut self, payload: &BusPayload, caller: &String, now: u64) -> (r: Result<
        Bus,
        Error,
    >)
        requires
            old(self).wf(),
            old(self)@.counter < u64::MAX,
        ensures
            final(self).wf(),
            ({
                let (s2, r2) = add_bus_spec(old(self)@, payload@, caller@, now);
                final(self)@ == s2 && bus_result_view(r) == r2
            }),
    {
        if !crate::entities::is_valid_bus_payload(payload) {
            return Err(Error::InvalidInputData);
        }
        let id = self.next_id();
        let bus = Bus {
            id,
            owner_principal: caller.clone(),
            make: payload.make.clone(),
            model: payload.model.clone(),
            year: payload.year,
            color: payload.color.clone(),
            created_at: now,
            updated_at: None,
            is_booked: payload.is_booked,
        };
        self.do_insert_bus(&bus);
        proof {
            let (s2, r2) = add_bus_spec(old(self)@, payload@, caller@, now);
            assert(self@ =~= s2);
        }
        Ok(bus)
    }

    /// Replaces the caller-supplied fields of an existing bus; only its
    /// owner may do so.
    pub fn update_bus(&mut self, id: u64, payload: &BusPayload, caller: &String, now: u64) -> (r:
        Result<Bus, Error>)
        requires
            old(self).wf(),
        ensures
            final(self).wf(),
            ({
                let (s2, r2) = update_bus_spec(old(self)@, id, payload@, caller@, now);
                final(self)@ == s2 && bus_result_view(r) == r2
            }),
    {
        let stored = match self.find_bus(id) {
            None => {
                return Err(Error::NotFound);
            },
            Some(b) => b,
        };
        if !stored.owner_principal.eq(caller) {
            return Err(Error::FailedAuthentication);
        }
        if !crate::entities::is_valid_bus_payload(payload) {
            return Err(Error::InvalidInputData);
        }
        let updated = Bus {
            id,
            owner_principal: stored.owner_principal,
            make: payload.make.clone(),
            model: payload.model.clone(),
            year: payload.year,
            color: payload.color.clone(),
            created_at: stored.created_at,
            updated_at: Some(now),
            is_booked: payload.is_booked,
        };
        self.do_insert_bus(&updated);
        proof {
            let (s2, r2) = update_bus_spec(old(self)@, id, payload@, caller@, now);
            assert(self@ =~= s2);
        }
        Ok(updated)
    }

    /// Removes an existing bus and returns it; only its owner may do so.
    pub fn delete_bus(&mut self, id: u64, caller: &String) -> (r: Result<Bus, Error>)
        requires
            old(self).wf(),
        ensures
            final(self).wf(),
            ({
                let (s2, r2) = delete_bus_spec(old(self)@, id, caller@);
                final(self)@ == s2 && bus_result_view(r) == r2
            }),
    {
        let stored = match self.find_bus(id) {
            None => {
                return Err(Error::NotFound);
            },
            Some(b) => b,
        };
        if !stored.owner_principal.eq(caller) {
            return Err(Error::FailedAuthentication);
        }
        self.remove_bus(id);
        proof {
            let (s2, r2) = delete_bus_spec(old(self)@, id, caller@);
            assert(self@ =~= s2);
        }
        Ok(stored)
    }

    /// Returns whether the bus stored under the identifier is booked.
    pub fn is_booked(&self, id: u64) -> (r: Result<bool, Error>)
        requires
            self.wf(),
        ensures
            r == is_booked_spec(self@, id),
    {
        match self.find_bus(id) {
            Some(b) => Ok(b.is_booked),
            None => Err(Error::NotFound),
        }
    }

    /// Validates the inputs, mints a fresh identifier, and stores a new
    /// customer owned by the caller.
    pub fn add_customer(&mut self, name: String, contact: String, caller: &String) -> (r: Result<
        Customer,
        Error,
    >)
        requires
            old(self).wf(),
            old(self)@.counter < u64::MAX,
        ensures
            final(self).wf(),
            ({
                let (s2, r2) = add_customer_spec(old(self)@, name@, contact@, caller@);
                final(self)@ == s2 && customer_result_view(r) == r2
            }),
    {
        if crate::entities::is_invalid_string(&name) || crate::entities::is_invalid_string(
            &contact,
        ) {
            return Err(Error::InvalidInputData);
        }
        let id = self.next_id();
        let customer = Customer { id, customer_principal: caller.clone(), name, contact };
        self.do_insert_customer(&customer);
        proof {
            let (s2, r2) = add_customer_spec(old(self)@, name@, contact@, caller@);
            assert(self@ =~= s2);
        }
        Ok(customer)
    }

    /// Returns the customer stored under the identifier.
    pub fn get_customer(&self, id: u64) -> (r: Result<Customer, Error>)
        requires
            self.wf(),
        ensures
            customer_result_view(r) == get_customer_spec(self@, id),
    {
        match self.find_customer(id) {
            Some(c) => Ok(c),
            None => Err(Error::NotFound),
        }
    }

    /// Removes an existing customer and returns it; only that customer may
    /// do so.
    pub fn delete_customer(&mut self, id: u64, caller: &String) -> (r: Result<Customer, Error>)
        requires
            old(self).wf(),
        ensures
            final(self).wf(),
            ({
                let (s2, r2) = delete_customer_spec(old(self)@, id, caller@);
                final(self)@ == s2 && customer_result_view(r) == r2
            }),
    {
        let stored = match self.find_customer(id) {
            None => {
                return Err(Error::NotFound);
            },
            Some(c) => c,
        };
        if !stored.customer_principal.eq(caller) {
            return Err(Error::FailedAuthentication);
        }
        self.remove_customer(id);
        proof {
            let (s2, r2) = delete_customer_spec(old(self)@, id, caller@);
            assert(self@ =~= s2);
        }
        Ok(stored)
    }

    /// Books a bus for a customer: both must exist, the caller must be that
    /// customer, and the bus must be available. On success the reservation
    /// row is inserted and the bus is flipped to booked, as one logical
    /// operation.
    pub fn make_reservation(&mut self, bus_id: u64, customer_id: u64, caller: &String, now: u64)
        -> (r: Result<Reservation, Error>)
        requires
            old(self).wf(),
        ensures
            final(self).wf(),
            ({
                let (s2, r2) = make_reservation_spec(old(self)@, bus_id, customer_id, caller@, now);
                final(self)@ == s2 && reservation_result_view(r) == r2
            }),
    {
        let bus = self.find_bus(bus_id);
        let customer = self.find_customer(customer_id);
        let (bus, customer) = match (bus, customer) {
            (Some(b), Some(c)) => (b, c),
            _ => {
                return Err(Error::NotFound);
            },
        };
        if !customer.customer_principal.eq(caller) {
            return Err(Error::FailedAuthentication);
        }
        if bus.is_booked {
            return Err(Error::AlreadyBooked);
        }
        let reservation = Reservation { bus_id, customer_id, reservation_time: now };
        self.do_insert_reservation(&reservation);
        let booked = Bus { is_booked: true, ..bus };
        self.do_insert_bus(&booked);
        proof {
            let (s2, r2) = make_reservation_spec(old(self)@, bus_id, customer_id, caller@, now);
            assert(self@ =~= s2);
        }
        Ok(reservation)
    }

    /// Cancels the reservation of a bus: the caller must be the reserving
    /// customer or the bus owner. The row is removed and the bus flipped
    /// back to available.
    pub fn cancel_reservation(&mut self, bus_id: u64, caller: &String) -> (r: Result<(), Error>)
        requires
            old(self).wf(),
        ensures
            final(self).wf(),
            ({
                let (s2, r2) = cancel_reservation_spec(old(self)@, bus_id, caller@);
                final(self)@ == s2 && r == r2
            }),
    {
        let reservation = match self.find_reservation(bus_id) {
            None => {
                return Err(Error::NotFound);
            },
            Some(x) => x,
        };
        let customer = self.find_customer(reservation.customer_id);
        let bus = self.find_bus(bus_id);
        let customer_ok = match &customer {
            Some(c) => c.customer_principal.eq(caller),
            None => false,
        };
        let bus_ok = match &bus {
            Some(b) => b.owner_principal.eq(caller),
            None => false,
        };
        if customer.is_none() && bus.is_none() {
            return Err(Error::NotFound);
        }
        if !(customer_ok || bus_ok) {
            return Err(Error::FailedAuthentication);
        }
        self.remove_reservation(bus_id);
        match bus {
            Some(b) => {
                let unbooked = Bus { is_booked: false, ..b };
                self.do_insert_bus(&unbooked);
            },
            None => {},
        }
        proof {
            let (s2, r2) = cancel_reservation_spec(old(self)@, bus_id, caller@);
            assert(self@ =~= s2);
        }
        Ok(())
    }

    /// Returns the reservation stored under the bus identifier.
    pub fn get_reservation(&self, bus_id: u64) -> (r: Result<Reservation, Error>)
        requires
            self.wf(),
        ensures
            reservation_result_view(r) == get_reservation_spec(self@, bus_id),
    {
        match self.find_reservation(bus_id) {
            Some(x) => Ok(x),
            None => Err(Error::NotFound),
        }
    }

    /// Returns whether the bus is free of any reservation whose instant
    /// falls within the closed interval.
    pub fn check_bus_availability(&self, bus_id: u64, range: &TimeRange) -> (r: Result<bool, Error>)
        requires
            self.wf(),
        ensures
            r == check_availability_spec(self@, bus_id, *range),
    {
        if self.find_bus(bus_id).is_none() {
            return Err(Error::NotFound);
        }
        match self.find_reservation(bus_id) {
            None => Ok(true),
            Some(x) => Ok(
                !(range.start_time <= x.reservation_time && x.reservation_time
                    <= range.end_time),
            ),
        }
    }

    /// Mints a fresh identifier and stores a new maintenance record.
    pub fn add_bus_maintenance_record(&mut self, payload: &MaintenancePayload) -> (r:
        MaintenanceRecord)
        requires
            old(self).wf(),
            old(self)@.counter < u64::MAX,
        ensures
            final(self).wf(),
            ({
                let (s2, r2) = add_maintenance_spec(old(self)@, payload@);
                final(self)@ == s2 && r@ == r2
            }),
    {
        let id = self.next_id();
        let record = MaintenanceRecord {
            id,
            bus_id: payload.bus_id,
            maintenance_date: payload.maintenance_date,
            details: payload.details.clone(),
        };
        self.insert_maintenance(&record);
        proof {
            let (s2, r2) = add_maintenance_spec(old(self)@, payload@);
            assert(self@ =~= s2);
        }
        record
    }

    /// Removes the maintenance record stored under the identifier.
    pub fn delete_bus_maintenance_record(&mut self, id: u64) -> (r: Result<(), Error>)
        requires
            old(self).wf(),
        ensures
            final(self).wf(),
            ({
                let (s2, r2) = delete_maintenance_spec(old(self)@, id);
                final(self)@ == s2 && r == r2
            }),
    {
        if self.find_maintenance(id).is_none() {
            return Err(Error::NotFound);
        }
        self.remove_maintenance(id);
        proof {
            let (s2, r2) = delete_maintenance_spec(old(self)@, id);
            assert(self@ =~= s2);
        }
        Ok(())
    }

    /// Checks that every stored bus byte string decodes to a bus keyed by
    /// its own identifier, no greater than `limit`.
    fn validate_bus_region(m: &RegionByteMap, limit: u64) -> (ok: bool)
        ensures
            ok == (wf_bus_map(byte_map_contents(*m)) && (forall|k: u64| #[trigger]
                byte_map_contents(*m).dom().contains(k) ==> k <= limit)),
    {
        let entries = m.entries();
        let n = entries.len();
        let mut i: usize = 0;
        while i < n
            invariant
                n == entries@.len(),
                0 <= i <= n,
                forall|j: int|
                    0 <= j < entries@.len() ==> byte_map_contents(*m).contains_pair(
                        (#[trigger] entries@[j]).0,
                        entries@[j].1@,
                    ),
                forall|j: int|
                    0 <= j < i ==> {
                        let (k, v) = #[trigger] entries@[j];
                        &&& dec_bus(v@) is Some
                        &&& dec_bus(v@).unwrap().id == k
                        &&& k <= limit
                    },
            decreases n - i,
        {
            let pair = &entries[i];
            let decoded = decode_bus(&pair.1);
            let ok = match decoded {
                None => false,
                Some(b) => b.id == pair.0 && pair.0 <= limit,
            };
            if !ok {
                proof {
                    let contents = byte_map_contents(*m);
                    assert(contents.contains_pair(pair.0, pair.1@));
                    assert(contents.dom().contains(pair.0));
                    assert(contents[pair.0] == pair.1@);
                }
                return false;
            }
            i = i + 1;
        }
        proof {
            let contents = byte_map_contents(*m);
            assert forall|k: u64| #[trigger] contents.dom().contains(k) implies dec_bus(contents[k])
                is Some && dec_bus(contents[k]).unwrap().id == k && k <= limit by {
                let idx = choose|idx: int|
                    0 <= idx < entries@.len() && (#[trigger] entries@[idx]).0 == k;
                assert(contents.contains_pair(entries@[idx].0, entries@[idx].1@));
            }
        }
        true
    }

    /// Checks that every stored customer byte string decodes to a customer
    /// keyed by its own identifier, no greater than `limit`.
    fn validate_customer_region(m: &RegionByteMap, limit: u64) -> (ok: bool)
        ensures
            ok == (wf_customer_map(byte_map_contents(*m)) && (forall|k: u64| #[trigger]
                byte_map_contents(*m).dom().contains(k) ==> k <= limit)),
    {
        let entries = m.entries();
        let n = entries.len();
        let mut i: usize = 0;
        while i < n
            invariant
                n == entries@.len(),
                0 <= i <= n,
                forall|j: int|
                    0 <= j < entries@.len() ==> byte_map_contents(*m).contains_pair(
                        (#[trigger] entries@[j]).0,
                        entries@[j].1@,
                    ),
                forall|j: int|
                    0 <= j < i ==> {
                        let (k, v) = #[trigger] entries@[j];
                        &&& dec_customer(v@) is Some
                        &&& dec_customer(v@).unwrap().id == k
                        &&& k <= limit
                    },
            decreases n - i,
        {
            let pair = &entries[i];
            let decoded = decode_customer(&pair.1);
            let ok = match decoded {
                None => false,
                Some(c) => c.id == pair.0 && pair.0 <= limit,
            };
            if !ok {
                proof {
                    let contents = byte_map_contents(*m);
                    assert(contents.contains_pair(pair.0, pair.1@));
                    assert(contents.dom().contains(pair.0));
                    assert(contents[pair.0] == pair.1@);
                }
                return false;
            }
            i = i + 1;
        }
        proof {
            let contents = byte_map_contents(*m);
            assert forall|k: u64| #[trigger] contents.dom().contains(k) implies dec_customer(
                contents[k],
            ) is Some && dec_customer(contents[k]).unwrap().id == k && k <= limit by {
                let idx = choose|idx: int|
                    0 <= idx < entries@.len() && (#[trigger] entries@[idx]).0 == k;
                assert(contents.contains_pair(entries@[idx].0, entries@[idx].1@));
            }
        }
        true
    }

    /// Checks that every stored reservation byte string decodes to a row
    /// keyed by its own bus identifier.
    fn validate_reservation_region(m: &RegionByteMap) -> (ok: bool)
        ensures
            ok == wf_reservation_map(byte_map_contents(*m)),
    {
        let entries = m.entries();
        let n = entries.len();
        let mut i: usize = 0;
        while i < n
            invariant
                n == entries@.len(),
                0 <= i <= n,
                forall|j: int|
                    0 <= j < entries@.len() ==> byte_map_contents(*m).contains_pair(
                        (#[trigger] entries@[j]).0,
                        entries@[j].1@,
                    ),
                forall|j: int|
                    0 <= j < i ==> {
                        let (k, v) = #[trigger] entries@[j];
                        &&& dec_reservation(v@) is Some
                        &&& dec_reservation(v@).unwrap().bus_id == k
                    },
            decreases n - i,
        {
            let pair = &entries[i];
            let decoded = decode_reservation(&pair.1);
            let ok = match decoded {
                None => false,
                Some(x) => x.bus_id == pair.0,
            };
            if !ok {
                proof {
                    let contents = byte_map_contents(*m);
                    assert(contents.contains_pair(pair.0, pair.1@));
                    assert(contents.dom().contains(pair.0));
                    assert(contents[pair.0] == pair.1@);
                }
                return false;
            }
            i = i + 1;
        }
        proof {
            let contents = byte_map_contents(*m);
            assert forall|k: u64| #[trigger] contents.dom().contains(k) implies dec_reservation(
                contents[k],
            ) is Some && dec_reservation(contents[k]).unwrap().bus_id == k by {
                let idx = choose|idx: int|
                    0 <= idx < entries@.len() && (#[trigger] entries@[idx]).0 == k;
                assert(contents.contains_pair(entries@[idx].0, entries@[idx].1@));
            }
        }
        true
    }

    /// Checks that every stored maintenance byte string decodes to a record
    /// keyed by its own identifier, no greater than `limit`.
    fn validate_maintenance_region(m: &RegionByteMap, limit: u64) -> (ok: bool)
        ensures
            ok == (wf_maintenance_map(byte_map_contents(*m)) && (forall|k: u64| #[trigger]
                byte_map_contents(*m).dom().contains(k) ==> k <= limit)),
    {
        let entries = m.entries();
        let n = entries.len();
        let mut i: usize = 0;
        while i < n
            invariant
                n == entries@.len(),
                0 <= i <= n,
                forall|j: int|
                    0 <= j < entries@.len() ==> byte_map_contents(*m).contains_pair(
                        (#[trigger] entries@[j]).0,
                        entries@[j].1@,
                    ),
                forall|j: int|
                    0 <= j < i ==> {
                        let (k, v) = #[trigger] entries@[j];
                        &&& dec_maintenance(v@) is Some
                        &&& dec_maintenance(v@).unwrap().id == k
                        &&& k <= limit
                    },
            decreases n - i,
        {
            let pair = &entries[i];
            let decoded = decode_maintenance(&pair.1);
            let ok = match decoded {
                None => false,
                Some(x) => x.id == pair.0 && pair.0 <= limit,
            };
            if !ok {
                proof {
                    let contents = byte_map_contents(*m);
                    assert(contents.contains_pair(pair.0, pair.1@));
                    assert(contents.dom().contains(pair.0));
                    assert(contents[pair.0] == pair.1@);
                }
                return false;
            }
            i = i + 1;
        }
        proof {
            let contents = byte_map_contents(*m);
            assert forall|k: u64| #[trigger] contents.dom().contains(k) implies dec_maintenance(
                contents[k],
            ) is Some && dec_maintenance(contents[k]).unwrap().id == k && k <= limit by {
                let idx = choose|idx: int|
                    0 <= idx < entries@.len() && (#[trigger] entries@[idx]).0 == k;
                assert(contents.contains_pair(entries@[idx].0, entries@[idx].1@));
            }
        }
        true
    }

    /// Opens the five regions, restores the counter and the collections
    /// persisted in them, and checks every stored record. A service is
    /// returned only when every region holds what this library would have
    /// written and the identifier counter is not exhausted; otherwise the
    /// service refuses to start. The allocator is consumed and owned by the
    /// service, so one allocator yields at most one live service; two live
    /// services over one memory space would not see each other's writes
    /// coherently.
    pub fn restore(alloc: RegionAllocator) -> (r: Option<Service>)
        ensures
            r matches Some(s) ==> s.wf() && s@.counter < u64::MAX,
    {
        let counter = CounterCell::init(alloc.region(REGION_COUNTER), 0);
        let buses = RegionByteMap::init(alloc.region(REGION_BUSES));
        let customers = RegionByteMap::init(alloc.region(REGION_CUSTOMERS));
        let reservations = RegionByteMap::init(alloc.region(REGION_RESERVATIONS));
        let maintenance = RegionByteMap::init(alloc.region(REGION_MAINTENANCE));
        let limit = counter.get();
        if limit == u64::MAX {
            return None;
        }
        if !Self::validate_bus_region(&buses, limit) {
            return None;
        }
        if !Self::validate_customer_region(&customers, limit) {
            return None;
        }
        if !Self::validate_reservation_region(&reservations) {
            return None;
        }
        if !Self::validate_maintenance_region(&maintenance, limit) {
            return None;
        }
        let s = Service { alloc, counter, buses, customers, reservations, maintenance };
        Some(s)
    }

    /// Shuts the service down and hands its memory space back: the counter
    /// and the collections are dropped, so the allocator may be restored
    /// from again.
    pub fn into_allocator(self) -> RegionAllocator {
        let Service { alloc, .. } = self;
        alloc
    }

    /// Returns every stored bus, in ascending identifier order.
    pub fn generate_report(&self) -> (r: Vec<Bus>)
        requires
            self.wf(),
        ensures
            forall|i: int|
                0 <= i < r@.len() ==> self@.buses.contains_pair((#[trigger] r@[i])@.id, r@[i]@),
            forall|k: u64| #[trigger]
                self@.buses.dom().contains(k) ==> exists|i: int|
                    0 <= i < r@.len() && (#[trigger] r@[i])@.id == k,
            forall|i: int, j: int| 0 <= i < j < r@.len() ==> r@[i]@.id < r@[j]@.id,
    {
        let entries = self.buses.entries();
        let n = entries.len();
        let mut out: Vec<Bus> = Vec::new();
        let mut i: usize = 0;
        while i < n
            invariant
                self.wf(),
                n == entries@.len(),
                0 <= i <= n,
                out@.len() == i,
                forall|j: int|
                    0 <= j < entries@.len() ==> byte_map_contents(self.buses).contains_pair(
                        (#[trigger] entries@[j]).0,
                        entries@[j].1@,
                    ),
                forall|j: int, l: int|
                    0 <= j < l < entries@.len() ==> entries@[j].0 < entries@[l].0,
                forall|j: int|
                    0 <= j < i ==> (#[trigger] out@[j])@.id == entries@[j].0 && out@[j]@
                        == self@.buses[entries@[j].0],
            decreases n - i,
        {
            let pair = &entries[i];
            match decode_bus(&pair.1) {
                Some(b) => {
                    out.push(b);
                },
                None => {
                    proof {
                        assert(byte_map_contents(self.buses).dom().contains(pair.0));
                    }
                    vstd::pervasive::unreached::<()>();
                },
            }
            i = i + 1;
        }
        proof {
            assert forall|k: u64| #[trigger] self@.buses.dom().contains(k) implies exists|j: int|
                0 <= j < out@.len() && (#[trigger] out@[j])@.id == k by {
                assert(byte_map_contents(self.buses).dom().contains(k));
                let idx = choose|idx: int|
                    0 <= idx < entries@.len() && (#[trigger] entries@[idx]).0 == k;
                assert((out@[idx])@.id == k);
            }
        }
        out
    }

    /// Returns every stored bus matching the query, in ascending identifier
    /// order.
    pub fn search_buses(&self, query: &SearchQuery) -> (r: Vec<Bus>)
        requires
            self.wf(),
        ensures
            forall|i: int|
                0 <= i < r@.len() ==> self@.buses.contains_pair((#[trigger] r@[i])@.id, r@[i]@)
                    && bus_matches(r@[i]@, query@),
            forall|k: u64|
                #[trigger] self@.buses.dom().contains(k) && bus_matches(self@.buses[k], query@)
                    ==> exists|i: int| 0 <= i < r@.len() && (#[trigger] r@[i])@.id == k,
            forall|i: int, j: int| 0 <= i < j < r@.len() ==> r@[i]@.id < r@[j]@.id,
    {
        let entries = self.buses.entries();
        let n = entries.len();
        let mut out: Vec<Bus> = Vec::new();
        let mut i: usize = 0;
        while i < n
            invariant
                self.wf(),
                n == entries@.len(),
                0 <= i <= n,
                forall|j: int|
                    0 <= j < entries@.len() ==> byte_map_contents(self.buses).contains_pair(
                        (#[trigger] entries@[j]).0,
                        entries@[j].1@,
                    ),
                forall|j: int, l: int|
                    0 <= j < l < entries@.len() ==> entries@[j].0 < entries@[l].0,
                forall|a: int|
                    0 <= a < out@.len() ==> self@.buses.contains_pair(
                        (#[trigger] out@[a])@.id,
                        out@[a]@,
                    ) && bus_matches(out@[a]@, query@),
                forall|a: int, b: int| 0 <= a < b < out@.len() ==> out@[a]@.id < out@[b]@.id,
                i < n ==> forall|a: int|
                    0 <= a < out@.len() ==> (#[trigger] out@[a])@.id < entries@[i as int].0,
                forall|j: int|
                    0 <= j < i && bus_matches(
                        dec_bus((#[trigger] entries@[j]).1@).unwrap(),
                        query@,
                    ) ==> exists|a: int| 0 <= a < out@.len() && (#[trigger] out@[a])@.id
                        == entries@[j].0,
            decreases n - i,
        {
            let pair = &entries[i];
            let ghost out_before = out@;
            match decode_bus(&pair.1) {
                Some(b) => {
                    if bus_matches_exec(&b, query) {
                        out.push(b);
                        proof {
                            assert((out@[out@.len() - 1])@.id == entries@[i as int].0);
                        }
                    }
                },
                None => {
                    proof {
                        assert(byte_map_contents(self.buses).dom().contains(pair.0));
                    }
                    vstd::pervasive::unreached::<()>();
                },
            }
            proof {
                assert forall|j: int|
                    0 <= j < i && bus_matches(
                        dec_bus((#[trigger] entries@[j]).1@).unwrap(),
                        query@,
                    ) implies exists|a: int|
                    0 <= a < out@.len() && (#[trigger] out@[a])@.id == entries@[j].0 by {
                    let a0 = choose|a: int|
                        0 <= a < out_before.len() && (#[trigger] out_before[a])@.id
                            == entries@[j].0;
                    assert((out@[a0])@.id == entries@[j].0);
                }
            }
            i = i + 1;
        }
        proof {
            assert forall|k: u64|
                #[trigger] self@.buses.dom().contains(k) && bus_matches(
                    self@.buses[k],
                    query@,
                ) implies exists|a: int| 0 <= a < out@.len() && (#[trigger] out@[a])@.id == k by {
                assert(byte_map_contents(self.buses).dom().contains(k));
                let idx = choose|idx: int|
                    0 <= idx < entries@.len() && (#[trigger] entries@[idx]).0 == k;
                assert(bus_matches(dec_bus(entries@[idx].1@).unwrap(), query@));
            }
        }
        out
    }

    /// Returns every reservation row of the given customer, in ascending
    /// bus-identifier order.
    pub fn get_customer_reservations(&self, customer_id: u64) -> (r: Vec<Reservation>)
        requires
            self.wf(),
        ensures
            forall|i: int|
                0 <= i < r@.len() ==> self@.reservations.contains_pair(
                    (#[trigger] r@[i])@.bus_id,
                    r@[i]@,
                ) && r@[i]@.customer_id == customer_id,
            forall|k: u64|
                #[trigger] self@.reservations.dom().contains(k)
                    && self@.reservations[k].customer_id == customer_id ==> exists|i: int|
                    0 <= i < r@.len() && (#[trigger] r@[i])@.bus_id == k,
            forall|i: int, j: int| 0 <= i < j < r@.len() ==> r@[i]@.bus_id < r@[j]@.bus_id,
    {
        let entries = self.reservations.entries();
        let n = entries.len();
        let mut out: Vec<Reservation> = Vec::new();
        let mut i: usize = 0;
        while i < n
            invariant
                self.wf(),
                n == entries@.len(),
                0 <= i <= n,
                forall|j: int|
                    0 <= j < entries@.len() ==> byte_map_contents(self.reservations).contains_pair(
                        (#[trigger] entries@[j]).0,
                        entries@[j].1@,
                    ),
                forall|j: int, l: int|
                    0 <= j < l < entries@.len() ==> entries@[j].0 < entries@[l].0,
                forall|a: int|
                    0 <= a < out@.len() ==> self@.reservations.contains_pair(
                        (#[trigger] out@[a])@.bus_id,
                        out@[a]@,
                    ) && out@[a]@.customer_id == customer_id,
                forall|a: int, b: int| 0 <= a < b < out@.len() ==> out@[a]@.bus_id < out@[b]@.bus_id,
                i < n ==> forall|a: int|
                    0 <= a < out@.len() ==> (#[trigger] out@[a])@.bus_id < entries@[i as int].0,
                forall|j: int|
                    0 <= j < i && dec_reservation((#[trigger] entries@[j]).1@).unwrap().customer_id
                        == customer_id ==> exists|a: int| 0 <= a < out@.len() && (#[trigger] out@[a])@.bus_id
                        == entries@[j].0,
            decreases n - i,
        {
            let pair = &entries[i];
            let ghost out_before = out@;
            match decode_reservation(&pair.1) {
                Some(x) => {
                    if x.customer_id == customer_id {
                        out.push(x);
                        proof {
                            assert((out@[out@.len() - 1])@.bus_id == entries@[i as int].0);
                        }
                    }
                },
                None => {
                    proof {
                        assert(byte_map_contents(self.reservations).dom().contains(pair.0));
                    }
                    vstd::pervasive::unreached::<()>();
                },
            }
            proof {
                assert forall|j: int|
                    0 <= j < i && dec_reservation((#[trigger] entries@[j]).1@).unwrap().customer_id
                        == customer_id implies exists|a: int|
                    0 <= a < out@.len() && (#[trigger] out@[a])@.bus_id == entries@[j].0 by {
                    let a0 = choose|a: int|
                        0 <= a < out_before.len() && (#[trigger] out_before[a])@.bus_id
                            == entries@[j].0;
                    assert((out@[a0])@.bus_id == entries@[j].0);
                }
            }
            i = i + 1;
        }
        proof {
            assert forall|k: u64|
                #[trigger] self@.reservations.dom().contains(k) && self@.reservations[
                    k
                ].customer_id == customer_id implies exists|a: int|
                0 <= a < out@.len() && (#[trigger] out@[a])@.bus_id == k by {
                assert(byte_map_contents(self.reservations).dom().contains(k));
                let idx = choose|idx: int|
                    0 <= idx < entries@.len() && (#[trigger] entries@[idx]).0 == k;
                assert(dec_reservation(entries@[idx].1@).unwrap().customer_id == customer_id);
            }
        }
        out
    }

    /// Returns every maintenance record of the given bus, in ascending
    /// record-identifier order.
    pub fn get_bus_maintenance_records(&self, bus_id: u64) -> (r: Vec<MaintenanceRecord>)
        requires
            self.wf(),
        ensures
            forall|i: int|
                0 <= i < r@.len() ==> self@.maintenance.contains_pair(
                    (#[trigger] r@[i])@.id,
                    r@[i]@,
                ) && r@[i]@.bus_id == bus_id,
            forall|k: u64|
                #[trigger] self@.maintenance.dom().contains(k) && self@.maintenance[k].bus_id
                    == bus_id ==> exists|i: int| 0 <= i < r@.len() && (#[trigger] r@[i])@.id == k,
            forall|i: int, j: int| 0 <= i < j < r@.len() ==> r@[i]@.id < r@[j]@.id,
    {
        let entries = self.maintenance.entries();
        let n = entries.len();
        let mut out: Vec<MaintenanceRecord> = Vec::new();
        let mut i: usize = 0;
        while i < n
            invariant
                self.wf(),
                n == entries@.len(),
                0 <= i <= n,
                forall|j: int|
                    0 <= j < entries@.len() ==> byte_map_contents(self.maintenance).contains_pair(
                        (#[trigger] entries@[j]).0,
                        entries@[j].1@,
                    ),
                forall|j: int, l: int|
                    0 <= j < l < entries@.len() ==> entries@[j].0 < entries@[l].0,
                forall|a: int|
                    0 <= a < out@.len() ==> self@.maintenance.contains_pair(
                        (#[trigger] out@[a])@.id,
                        out@[a]@,
                    ) && out@[a]@.bus_id == bus_id,
                forall|a: int, b: int| 0 <= a < b < out@.len() ==> out@[a]@.id < out@[b]@.id,
                i < n ==> forall|a: int|
                    0 <= a < out@.len() ==> (#[trigger] out@[a])@.id < entries@[i as int].0,
                forall|j: int|
                    0 <= j < i && dec_maintenance((#[trigger] entries@[j]).1@).unwrap().bus_id
                        == bus_id ==> exists|a: int| 0 <= a < out@.len() && (#[trigger] out@[a])@.id
                        == entries@[j].0,
            decreases n - i,
        {
            let pair = &entries[i];
            let ghost out_before = out@;
            match decode_maintenance(&pair.1) {
                Some(x) => {
                    if x.bus_id == bus_id {
                        out.push(x);
                        proof {
                            assert((out@[out@.len() - 1])@.id == entries@[i as int].0);
                        }
                    }
                },
                None => {
                    proof {
                        assert(byte_map_contents(self.maintenance).dom().contains(pair.0));
                    }
                    vstd::pervasive::unreached::<()>();
                },
            }
            proof {
                assert forall|j: int|
                    0 <= j < i && dec_maintenance((#[trigger] entries@[j]).1@).unwrap().bus_id
                        == bus_id implies exists|a: int|
                    0 <= a < out@.len() && (#[trigger] out@[a])@.id == entries@[j].0 by {
                    let a0 = choose|a: int|
                        0 <= a < out_before.len() && (#[trigger] out_before[a])@.id
                            == entries@[j].0;
                    assert((out@[a0])@.id == entries@[j].0);
                }
            }
            i = i + 1;
        }
        proof {
            assert forall|k: u64|
                #[trigger] self@.maintenance.dom().contains(k) && self@.maintenance[k].bus_id
                    == bus_id implies exists|a: int|
                0 <= a < out@.len() && (#[trigger] out@[a])@.id == k by {
                assert(byte_map_contents(self.maintenance).dom().contains(k));
                let idx = choose|idx: int|
                    0 <= idx < entries@.len() && (#[trigger] entries@[idx]).0 == k;
                assert(dec_maintenance(entries@[idx].1@).unwrap().bus_id == bus_id);
            }
        }
        out
    }

    /// The current value of the identifier counter: the identifier most
    /// recently minted, or zero in a fresh service. The next creation mints
    /// one more than this value, so the register holding the next identifier
    /// to hand out reads one above it.
    pub fn id_counter(&self) -> (r: u64)
        ensures
            r == self@.counter,
    {
        self.counter.get()
    }

    /// Draws a fresh identifier: increments the counter durably and returns
    /// the new value.
    fn next_id(&mut self) -> (id: u64)
        requires
            old(self).wf(),
            old(self)@.counter < u64::MAX,
        ensures
            final(self).wf(),
            id == old(self)@.counter + 1,
            final(self)@ =~= (ServiceV { counter: id, ..old(self)@ }),
            !old(self)@.buses.dom().contains(id),
            !old(self)@.customers.dom().contains(id),
            !old(self)@.maintenance.dom().contains(id),
    {
        let current = self.counter.get();
        let fresh = current + 1;
        self.counter.set(fresh);
        fresh
    }
}

} // verus!
