//! Entity records of the rental service, their mathematical views, and input
//! validation shared by the create and update paths.
use vstd::prelude::*;
use vstd::string::StrSliceExecFns;

verus! {

/// Lower bound (inclusive) on an acceptable bus model year.
pub const YEAR_MIN: u32 = 1995;

/// Upper bound (inclusive) on an acceptable bus model year.
pub const YEAR_MAX: u32 = 2024;

/// Errors returned to callers; every failure is visible in the returned value.
#[derive(Clone, Copy, Debug, PartialEq, Eq, Structural)]
pub enum Error {
    /// A referenced identifier is absent.
    NotFound,
    /// A required string is blank, or a year lies outside the accepted range.
    InvalidInputData,
    /// A booking was attempted on a bus that is not available.
    AlreadyBooked,
    /// The caller is not the principal the operation requires.
    FailedAuthentication,
}

/// A bus record as stored.
#[derive(Debug)]
pub struct Bus {
    pub id: u64,
    pub owner_principal: String,
    pub make: String,
    pub model: String,
    pub year: u32,
    pub color: String,
    pub created_at: u64,
    pub updated_at: Option<u64>,
    pub is_booked: bool,
}

/// Mathematical view of a bus record.
pub ghost struct BusV {
    pub id: u64,
    pub owner_principal: Seq<char>,
    pub make: Seq<char>,
    pub model: Seq<char>,
    pub year: u32,
    pub color: Seq<char>,
    pub created_at: u64,
    pub updated_at: Option<u64>,
    pub is_booked: bool,
}

impl View for Bus {
    type V = BusV;

    open spec fn view(&self) -> BusV {
        BusV {
            id: self.id,
            owner_principal: self.owner_principal@,
            make: self.make@,
            model: self.model@,
            year: self.year,
            color: self.color@,
            created_at: self.created_at,
            updated_at: self.updated_at,
            is_booked: self.is_booked,
        }
    }
}

/// The caller-supplied fields of a bus; everything but the identity and the
/// ownership data, which the service assigns itself.
#[derive(Debug)]
pub struct BusPayload {
    pub make: String,
    pub model: String,
    pub year: u32,
    pub color: String,
    pub is_booked: bool,
}

/// Mathematical view of a bus payload.
pub ghost struct BusPayloadV {
    pub make: Seq<char>,
    pub model: Seq<char>,
    pub year: u32,
    pub color: Seq<char>,
    pub is_booked: bool,
}

impl View for BusPayload {
    type V = BusPayloadV;

    open spec fn view(&self) -> BusPayloadV {
        BusPayloadV {
            make: self.make@,
            model: self.model@,
            year: self.year,
            color: self.color@,
            is_booked: self.is_booked,
        }
    }
}

/// A customer record as stored.
#[derive(Debug)]
pub struct Customer {
    pub id: u64,
    pub customer_principal: String,
    pub name: String,
    pub contact: String,
}

/// Mathematical view of a customer record.
pub ghost struct CustomerV {
    pub id: u64,
    pub customer_principal: Seq<char>,
    pub name: Seq<char>,
    pub contact: Seq<char>,
}

impl View for Customer {
    type V = CustomerV;

    open spec fn view(&self) -> CustomerV {
        CustomerV {
            id: self.id,
            customer_principal: self.customer_principal@,
            name: self.name@,
            contact: self.contact@,
        }
    }
}

/// A reservation row; the key of the reservation collection is the bus
/// identifier, so a bus has at most one live reservation.
#[derive(Clone, Copy, Debug, PartialEq, Eq, Structural)]
pub struct Reservation {
    pub bus_id: u64,
    pub customer_id: u64,
    pub reservation_time: u64,
}

/// Mathematical view of a reservation row.
pub ghost struct ReservationV {
    pub bus_id: u64,
    pub customer_id: u64,
    pub reservation_time: u64,
}

impl View for Reservation {
    type V = ReservationV;

    open spec fn view(&self) -> ReservationV {
        ReservationV {
            bus_id: self.bus_id,
            customer_id: self.customer_id,
            reservation_time: self.reservation_time,
        }
    }
}

/// A maintenance record; many records may reference the same bus.
#[derive(Debug)]
pub struct MaintenanceRecord {
    pub id: u64,
    pub bus_id: u64,
    pub maintenance_date: u64,
    pub details: String,
}

/// Mathematical view of a maintenance record.
pub ghost struct MaintenanceRecordV {
    pub id: u64,
    pub bus_id: u64,
    pub maintenance_date: u64,
    pub details: Seq<char>,
}

impl View for MaintenanceRecord {
    type V = MaintenanceRecordV;

    open spec fn view(&self) -> MaintenanceRecordV {
        MaintenanceRecordV {
            id: self.id,
            bus_id: self.bus_id,
            maintenance_date: self.maintenance_date,
            details: self.details@,
        }
    }
}

/// The caller-supplied fields of a maintenance record.
#[derive(Debug)]
pub struct MaintenancePayload {
    pub bus_id: u64,
    pub maintenance_date: u64,
    pub details: String,
}

/// Mathematical view of a maintenance payload.
pub ghost struct MaintenancePayloadV {
    pub bus_id: u64,
    pub maintenance_date: u64,
    pub details: Seq<char>,
}

impl View for MaintenancePayload {
    type V = MaintenancePayloadV;

    open spec fn view(&self) -> MaintenancePayloadV {
        MaintenancePayloadV {
            bus_id: self.bus_id,
            maintenance_date: self.maintenance_date,
            details: self.details@,
        }
    }
}

/// A closed time interval used by availability queries.
#[derive(Clone, Copy, Debug, PartialEq, Eq, Structural)]
pub struct TimeRange {
    pub start_time: u64,
    pub end_time: u64,
}

/// An optional conjunction of predicates over bus fields; an absent field
/// matches every bus.
#[derive(Debug)]
pub struct SearchQuery {
    pub make: Option<String>,
    pub model: Option<String>,
    pub year: Option<u32>,
    pub color: Option<String>,
    pub is_booked: Option<bool>,
}

/// Mathematical view of a search query.
pub ghost struct SearchQueryV {
    pub make: Option<Seq<char>>,
    pub model: Option<Seq<char>>,
    pub year: Option<u32>,
    pub color: Option<Seq<char>>,
    pub is_booked: Option<bool>,
}

impl View for SearchQuery {
    type V = SearchQueryV;

    open spec fn view(&self) -> SearchQueryV {
        SearchQueryV {
            make: match self.make {
                Some(ref s) => Some(s@),
                None => None,
            },
            model: match self.model {
                Some(ref s) => Some(s@),
                None => None,
            },
            year: self.year,
            color: match self.color {
                Some(ref s) => Some(s@),
                None => None,
            },
            is_booked: self.is_booked,
        }
    }
}

/// The Unicode white-space characters — the set `str::trim` strips: the
/// ASCII spacing controls and space, next line, no-break space, ogham space
/// mark, the en-quad through hair-space block, the line and paragraph
/// separators, narrow no-break space, medium mathematical space, and
/// ideographic space.
pub open spec fn is_space(c: char) -> bool {
    let u = c as u32;
    ||| u == 0x09 || u == 0x0A || u == 0x0B || u == 0x0C || u == 0x0D || u == 0x20
    ||| u == 0x85 || u == 0xA0 || u == 0x1680
    ||| (0x2000 <= u && u <= 0x200A)
    ||| u == 0x2028 || u == 0x2029 || u == 0x202F || u == 0x205F || u == 0x3000
}

/// A string is blank when every character is blank space; the empty string is
/// blank.
pub open spec fn is_blank(s: Seq<char>) -> bool {
    forall|i: int| 0 <= i < s.len() ==> is_space(#[trigger] s[i])
}

/// A required string is invalid exactly when it is blank.
pub fn is_invalid_string(str: &String) -> (r: bool)
    ensures
        r == is_blank(str@),
{
    let text = str.as_str();
    let n = text.unicode_len();
    let mut i: usize = 0;
    while i < n
        invariant
            text@ == str@,
            n == text@.len(),
            0 <= i <= n,
            forall|j: int| 0 <= j < i ==> is_space(#[trigger] text@[j]),
        decreases n - i,
    {
        let c = text.get_char(i);
        let u = c as u32;
        let space = u == 0x09 || u == 0x0A || u == 0x0B || u == 0x0C || u == 0x0D || u == 0x20
            || u == 0x85 || u == 0xA0 || u == 0x1680 || (0x2000 <= u && u <= 0x200A) || u == 0x2028
            || u == 0x2029 || u == 0x202F || u == 0x205F || u == 0x3000;
        if !space {
            proof {
                assert(!is_space(text@[i as int]));
            }
            return false;
        }
        i = i + 1;
    }
    true
}

/// A model year is acceptable when it lies within the configured range.
pub open spec fn year_in_range(year: u32) -> bool {
    YEAR_MIN <= year <= YEAR_MAX
}

/// A bus payload is valid when its required strings are not blank and its
/// year is acceptable.
pub open spec fn bus_payload_valid(p: BusPayloadV) -> bool {
    &&& !is_blank(p.make)
    &&& !is_blank(p.model)
    &&& !is_blank(p.color)
    &&& year_in_range(p.year)
}

/// Decides `bus_payload_valid` for a concrete payload.
pub fn is_valid_bus_payload(p: &BusPayload) -> (r: bool)
    ensures
        r == bus_payload_valid(p@),
{
    !is_invalid_string(&p.make) && !is_invalid_string(&p.model) && !is_invalid_string(&p.color)
        && YEAR_MIN <= p.year && p.year <= YEAR_MAX
}

} // verus!
