//! The byte codec for entity records.
//!
//! Every collection region stores records as byte strings. The codec fixes
//! the exact layout — little-endian integers, length-prefixed character
//! strings, tagged options — and proves that decoding inverts encoding, so
//! the typed collections can recover exactly what they stored.
use vstd::prelude::*;

verus! {

// ---------------------------------------------------------------------------
// Little-endian unsigned integers
// ---------------------------------------------------------------------------
/// The eight little-endian bytes of a 64-bit integer.
pub open spec fn u64_le(x: u64) -> Seq<u8> {
    seq![
        (x & 0xff) as u8,
        ((x >> 8) & 0xff) as u8,
        ((x >> 16) & 0xff) as u8,
        ((x >> 24) & 0xff) as u8,
        ((x >> 32) & 0xff) as u8,
        ((x >> 40) & 0xff) as u8,
        ((x >> 48) & 0xff) as u8,
        ((x >> 56) & 0xff) as u8,
    ]
}

/// The 64-bit integer read from eight little-endian bytes.
pub open spec fn u64_from_le(
    b0: u8,
    b1: u8,
    b2: u8,
    b3: u8,
    b4: u8,
    b5: u8,
    b6: u8,
    b7: u8,
) -> u64 {
    (b0 as u64) | ((b1 as u64) << 8) | ((b2 as u64) << 16) | ((b3 as u64) << 24) | ((b4
        as u64) << 32) | ((b5 as u64) << 40) | ((b6 as u64) << 48) | ((b7 as u64) << 56)
}

/// Reading back the eight little-endian bytes of `x` yields `x`.
pub proof fn lemma_u64_le_inverts(x: u64)
    ensures
        u64_from_le(
            (x & 0xff) as u8,
            ((x >> 8) & 0xff) as u8,
            ((x >> 16) & 0xff) as u8,
            ((x >> 24) & 0xff) as u8,
            ((x >> 32) & 0xff) as u8,
            ((x >> 40) & 0xff) as u8,
            ((x >> 48) & 0xff) as u8,
            ((x >> 56) & 0xff) as u8,
        ) == x,
{
    assert((((x & 0xff) as u8) as u64) | (((((x >> 8) & 0xff) as u8) as u64) << 8) | (((((x >> 16)
        & 0xff) as u8) as u64) << 16) | (((((x >> 24) & 0xff) as u8) as u64) << 24) | (((((x >> 32)
        & 0xff) as u8) as u64) << 32) | (((((x >> 40) & 0xff) as u8) as u64) << 40) | (((((x >> 48)
        & 0xff) as u8) as u64) << 48) | (((((x >> 56) & 0xff) as u8) as u64) << 56) == x)
        by (bit_vector);
}

/// The four little-endian bytes of a 32-bit integer.
pub open spec fn u32_le(x: u32) -> Seq<u8> {
    seq![
        (x & 0xff) as u8,
        ((x >> 8) & 0xff) as u8,
        ((x >> 16) & 0xff) as u8,
        ((x >> 24) & 0xff) as u8,
    ]
}

/// The 32-bit integer read from four little-endian bytes.
pub open spec fn u32_from_le(b0: u8, b1: u8, b2: u8, b3: u8) -> u32 {
    (b0 as u32) | ((b1 as u32) << 8) | ((b2 as u32) << 16) | ((b3 as u32) << 24)
}

/// Reading back the four little-endian bytes of `x` yields `x`.
pub proof fn lemma_u32_le_inverts(x: u32)
    ensures
        u32_from_le(
            (x & 0xff) as u8,
            ((x >> 8) & 0xff) as u8,
            ((x >> 16) & 0xff) as u8,
            ((x >> 24) & 0xff) as u8,
        ) == x,
{
    assert((((x & 0xff) as u8) as u32) | (((((x >> 8) & 0xff) as u8) as u32) << 8) | (((((x >> 16)
        & 0xff) as u8) as u32) << 16) | (((((x >> 24) & 0xff) as u8) as u32) << 24) == x)
        by (bit_vector);
}

// ---------------------------------------------------------------------------
// Prefix decoders: read one value off the front, return the rest
// ---------------------------------------------------------------------------
/// Decodes a 64-bit integer from the front of `s`.
pub open spec fn dec_u64_p(s: Seq<u8>) -> Option<(u64, Seq<u8>)> {
    if s.len() >= 8 {
        Some((u64_from_le(s[0], s[1], s[2], s[3], s[4], s[5], s[6], s[7]), s.skip(8)))
    } else {
        None
    }
}

/// Decodes a 32-bit integer from the front of `s`.
pub open spec fn dec_u32_p(s: Seq<u8>) -> Option<(u32, Seq<u8>)> {
    if s.len() >= 4 {
        Some((u32_from_le(s[0], s[1], s[2], s[3]), s.skip(4)))
    } else {
        None
    }
}

/// The single byte encoding a boolean.
pub open spec fn bool_le(b: bool) -> Seq<u8> {
    seq![if b { 1u8 } else { 0u8 }]
}

/// Decodes a boolean from the front of `s`; any byte other than 0 or 1 is
/// rejected.
pub open spec fn dec_bool_p(s: Seq<u8>) -> Option<(bool, Seq<u8>)> {
    if s.len() >= 1 {
        if s[0] == 0u8 {
            Some((false, s.skip(1)))
        } else if s[0] == 1u8 {
            Some((true, s.skip(1)))
        } else {
            None
        }
    } else {
        None
    }
}

/// A tagged optional 64-bit integer: 0 for absent, 1 followed by the value.
pub open spec fn opt_u64_le(o: Option<u64>) -> Seq<u8> {
    match o {
        None => seq![0u8],
        Some(x) => seq![1u8] + u64_le(x),
    }
}

/// Decodes an optional 64-bit integer from the front of `s`.
pub open spec fn dec_opt_u64_p(s: Seq<u8>) -> Option<(Option<u64>, Seq<u8>)> {
    if s.len() >= 1 {
        if s[0] == 0u8 {
            Some((None, s.skip(1)))
        } else if s[0] == 1u8 {
            match dec_u64_p(s.skip(1)) {
                None => None,
                Some((x, rest)) => Some((Some(x), rest)),
            }
        } else {
            None
        }
    } else {
        None
    }
}

/// Decoding a 64-bit integer off `u64_le(x) + rest` yields `x` and `rest`.
pub proof fn lemma_dec_u64_p(x: u64, rest: Seq<u8>)
    ensures
        dec_u64_p(u64_le(x) + rest) == Some((x, rest)),
{
    let s = u64_le(x) + rest;
    assert(s.skip(8) =~= rest);
    lemma_u64_le_inverts(x);
    assert(s[0] == u64_le(x)[0] && s[1] == u64_le(x)[1] && s[2] == u64_le(x)[2] && s[3] == u64_le(
        x,
    )[3] && s[4] == u64_le(x)[4] && s[5] == u64_le(x)[5] && s[6] == u64_le(x)[6] && s[7] == u64_le(
        x,
    )[7]);
}

/// Decoding a 32-bit integer off `u32_le(x) + rest` yields `x` and `rest`.
pub proof fn lemma_dec_u32_p(x: u32, rest: Seq<u8>)
    ensures
        dec_u32_p(u32_le(x) + rest) == Some((x, rest)),
{
    let s = u32_le(x) + rest;
    assert(s.skip(4) =~= rest);
    lemma_u32_le_inverts(x);
    assert(s[0] == u32_le(x)[0] && s[1] == u32_le(x)[1] && s[2] == u32_le(x)[2] && s[3] == u32_le(
        x,
    )[3]);
}

/// Decoding a boolean off `bool_le(b) + rest` yields `b` and `rest`.
pub proof fn lemma_dec_bool_p(b: bool, rest: Seq<u8>)
    ensures
        dec_bool_p(bool_le(b) + rest) == Some((b, rest)),
{
    let s = bool_le(b) + rest;
    assert(s.skip(1) =~= rest);
}

/// Decoding an optional integer off `opt_u64_le(o) + rest` yields `o` and
/// `rest`.
pub proof fn lemma_dec_opt_u64_p(o: Option<u64>, rest: Seq<u8>)
    ensures
        dec_opt_u64_p(opt_u64_le(o) + rest) == Some((o, rest)),
{
    let s = opt_u64_le(o) + rest;
    match o {
        None => {
            assert(s.skip(1) =~= rest);
        },
        Some(x) => {
            assert(s.skip(1) =~= u64_le(x) + rest);
            lemma_dec_u64_p(x, rest);
        },
    }
}

// ---------------------------------------------------------------------------
// Character strings: a 64-bit length followed by one 32-bit code per character
// ---------------------------------------------------------------------------
/// The four bytes encoding one character.
pub open spec fn char_le(c: char) -> Seq<u8> {
    u32_le(c as u32)
}

/// The bytes encoding a character sequence, one 32-bit code each.
pub open spec fn chars_le(cs: Seq<char>) -> Seq<u8>
    decreases cs.len(),
{
    if cs.len() == 0 {
        Seq::empty()
    } else {
        char_le(cs[0]) + chars_le(cs.skip(1))
    }
}

/// Decodes `n` characters from the front of `s`.
pub open spec fn dec_chars_p(s: Seq<u8>, n: nat) -> Option<(Seq<char>, Seq<u8>)>
    decreases n,
{
    if n == 0 {
        Some((Seq::empty(), s))
    } else {
        match dec_u32_p(s) {
            None => None,
            Some((u, rest)) => if vstd::utf8::is_scalar(u) {
                match dec_chars_p(rest, (n - 1) as nat) {
                    None => None,
                    Some((cs, rest2)) => Some((seq![u as char] + cs, rest2)),
                }
            } else {
                None
            },
        }
    }
}

/// A successful character decode yields exactly the requested count.
pub proof fn lemma_dec_chars_p_len(s: Seq<u8>, n: nat)
    ensures
        dec_chars_p(s, n) matches Some(p) ==> p.0.len() == n,
    decreases n,
{
    if n > 0 {
        match dec_u32_p(s) {
            None => {},
            Some((u, rest)) => {
                lemma_dec_chars_p_len(rest, (n - 1) as nat);
            },
        }
    }
}

/// The bytes encoding a string: its character count, then its characters.
pub open spec fn str_le(cs: Seq<char>) -> Seq<u8> {
    u64_le(cs.len() as u64) + chars_le(cs)
}

/// Decodes a string from the front of `s`.
pub open spec fn dec_str_p(s: Seq<u8>) -> Option<(Seq<char>, Seq<u8>)> {
    match dec_u64_p(s) {
        None => None,
        Some((n, rest)) => dec_chars_p(rest, n as nat),
    }
}

/// Appending one character to a sequence appends its four bytes to the
/// sequence's encoding.
pub proof fn lemma_chars_le_push(cs: Seq<char>, c: char)
    ensures
        chars_le(cs.push(c)) == chars_le(cs) + char_le(c),
    decreases cs.len(),
{
    let p = cs.push(c);
    if cs.len() == 0 {
        assert(p[0] == c);
        assert(p.skip(1) =~= Seq::<char>::empty());
        assert(chars_le(p) == char_le(c) + chars_le(Seq::<char>::empty()));
        assert(char_le(c) + Seq::<u8>::empty() =~= Seq::<u8>::empty() + char_le(c));
        assert(chars_le(cs) == Seq::<u8>::empty());
    } else {
        assert(cs.push(c).skip(1) =~= cs.skip(1).push(c));
        lemma_chars_le_push(cs.skip(1), c);
        assert(cs.push(c)[0] == cs[0]);
        assert(chars_le(cs.push(c)) == char_le(cs[0]) + (chars_le(cs.skip(1)) + char_le(c)));
        assert(char_le(cs[0]) + (chars_le(cs.skip(1)) + char_le(c)) =~= (char_le(cs[0]) + chars_le(
            cs.skip(1),
        )) + char_le(c));
    }
}

/// Decoding `cs.len()` characters off `chars_le(cs) + rest` yields `cs` and
/// `rest`.
pub proof fn lemma_dec_chars_p(cs: Seq<char>, rest: Seq<u8>)
    ensures
        dec_chars_p(chars_le(cs) + rest, cs.len()) == Some((cs, rest)),
    decreases cs.len(),
{
    if cs.len() == 0 {
        assert(chars_le(cs) + rest =~= rest);
    } else {
        let c = cs[0];
        let tail = cs.skip(1);
        assert(chars_le(cs) + rest =~= u32_le(c as u32) + (chars_le(tail) + rest));
        lemma_dec_u32_p(c as u32, chars_le(tail) + rest);
        vstd::utf8::char_is_scalar(c);
        lemma_dec_chars_p(tail, rest);
        vstd::utf8::char_u32_cast(c, c as u32);
        assert(seq![c] + tail =~= cs);
    }
}

/// Decoding a string off `str_le(cs) + rest` yields `cs` and `rest`, provided
/// the character count fits the length prefix.
pub proof fn lemma_dec_str_p(cs: Seq<char>, rest: Seq<u8>)
    requires
        cs.len() <= u64::MAX,
    ensures
        dec_str_p(str_le(cs) + rest) == Some((cs, rest)),
{
    assert(str_le(cs) + rest =~= u64_le(cs.len() as u64) + (chars_le(cs) + rest));
    lemma_dec_u64_p(cs.len() as u64, chars_le(cs) + rest);
    lemma_dec_chars_p(cs, rest);
}

// ---------------------------------------------------------------------------
// Records
// ---------------------------------------------------------------------------
/// Whether every string of a bus fits the codec's length prefix; every bus
/// built from real strings does.
pub open spec fn bus_encodable(b: crate::entities::BusV) -> bool {
    &&& b.owner_principal.len() <= u64::MAX
    &&& b.make.len() <= u64::MAX
    &&& b.model.len() <= u64::MAX
    &&& b.color.len() <= u64::MAX
}

/// The bytes encoding a bus record, field after field.
pub open spec fn bus_le(b: crate::entities::BusV) -> Seq<u8> {
    u64_le(b.id) + (str_le(b.owner_principal) + (str_le(b.make) + (str_le(b.model) + (u32_le(
        b.year,
    ) + (str_le(b.color) + (u64_le(b.created_at) + (opt_u64_le(b.updated_at) + bool_le(
        b.is_booked,
    ))))))))
}

/// Decodes a whole bus record; trailing bytes are rejected.
pub open spec fn dec_bus(s: Seq<u8>) -> Option<crate::entities::BusV> {
    match dec_u64_p(s) {
        None => None,
        Some((id, s1)) => match dec_str_p(s1) {
            None => None,
            Some((owner_principal, s2)) => match dec_str_p(s2) {
                None => None,
                Some((make, s3)) => match dec_str_p(s3) {
                    None => None,
                    Some((model, s4)) => match dec_u32_p(s4) {
                        None => None,
                        Some((year, s5)) => match dec_str_p(s5) {
                            None => None,
                            Some((color, s6)) => match dec_u64_p(s6) {
                                None => None,
                                Some((created_at, s7)) => match dec_opt_u64_p(s7) {
                                    None => None,
                                    Some((updated_at, s8)) => match dec_bool_p(s8) {
                                        None => None,
                                        Some((is_booked, s9)) => if s9.len() == 0 {
                                            Some(
                                                crate::entities::BusV {
                                                    id,
                                                    owner_principal,
                                                    make,
                                                    model,
                                                    year,
                                                    color,
                                                    created_at,
                                                    updated_at,
                                                    is_booked,
                                                },
                                            )
                                        } else {
                                            None
                                        },
                                    },
                                },
                            },
                        },
                    },
                },
            },
        },
    }
}

/// Round trip: decoding the encoding of a bus yields that bus.
pub proof fn lemma_bus_round_trip(b: crate::entities::BusV)
    requires
        bus_encodable(b),
    ensures
        dec_bus(bus_le(b)) == Some(b),
{
    let t8 = bool_le(b.is_booked);
    let t7 = opt_u64_le(b.updated_at) + t8;
    let t6 = u64_le(b.created_at) + t7;
    let t5 = str_le(b.color) + t6;
    let t4 = u32_le(b.year) + t5;
    let t3 = str_le(b.model) + t4;
    let t2 = str_le(b.make) + t3;
    let t1 = str_le(b.owner_principal) + t2;
    let empty = Seq::<u8>::empty();
    lemma_dec_u64_p(b.id, t1);
    lemma_dec_str_p(b.owner_principal, t2);
    lemma_dec_str_p(b.make, t3);
    lemma_dec_str_p(b.model, t4);
    lemma_dec_u32_p(b.year, t5);
    lemma_dec_str_p(b.color, t6);
    lemma_dec_u64_p(b.created_at, t7);
    lemma_dec_opt_u64_p(b.updated_at, t8);
    assert(t8 =~= bool_le(b.is_booked) + empty);
    lemma_dec_bool_p(b.is_booked, empty);
}

/// Whether every string of a customer fits the codec's length prefix.
pub open spec fn customer_encodable(c: crate::entities::CustomerV) -> bool {
    &&& c.customer_principal.len() <= u64::MAX
    &&& c.name.len() <= u64::MAX
    &&& c.contact.len() <= u64::MAX
}

/// The bytes encoding a customer record.
pub open spec fn customer_le(c: crate::entities::CustomerV) -> Seq<u8> {
    u64_le(c.id) + (str_le(c.customer_principal) + (str_le(c.name) + str_le(c.contact)))
}

/// Decodes a whole customer record; trailing bytes are rejected.
pub open spec fn dec_customer(s: Seq<u8>) -> Option<crate::entities::CustomerV> {
    match dec_u64_p(s) {
        None => None,
        Some((id, s1)) => match dec_str_p(s1) {
            None => None,
            Some((customer_principal, s2)) => match dec_str_p(s2) {
                None => None,
                Some((name, s3)) => match dec_str_p(s3) {
                    None => None,
                    Some((contact, s4)) => if s4.len() == 0 {
                        Some(crate::entities::CustomerV { id, customer_principal, name, contact })
                    } else {
                        None
                    },
                },
            },
        },
    }
}

/// Round trip: decoding the encoding of a customer yields that customer.
pub proof fn lemma_customer_round_trip(c: crate::entities::CustomerV)
    requires
        customer_encodable(c),
    ensures
        dec_customer(customer_le(c)) == Some(c),
{
    let t3 = str_le(c.contact);
    let t2 = str_le(c.name) + t3;
    let t1 = str_le(c.customer_principal) + t2;
    let empty = Seq::<u8>::empty();
    lemma_dec_u64_p(c.id, t1);
    lemma_dec_str_p(c.customer_principal, t2);
    lemma_dec_str_p(c.name, t3);
    assert(t3 =~= str_le(c.contact) + empty);
    lemma_dec_str_p(c.contact, empty);
}

/// The bytes encoding a reservation row.
pub open spec fn reservation_le(r: crate::entities::ReservationV) -> Seq<u8> {
    u64_le(r.bus_id) + (u64_le(r.customer_id) + u64_le(r.reservation_time))
}

/// Decodes a whole reservation row; trailing bytes are rejected.
pub open spec fn dec_reservation(s: Seq<u8>) -> Option<crate::entities::ReservationV> {
    match dec_u64_p(s) {
        None => None,
        Some((bus_id, s1)) => match dec_u64_p(s1) {
            None => None,
            Some((customer_id, s2)) => match dec_u64_p(s2) {
                None => None,
                Some((reservation_time, s3)) => if s3.len() == 0 {
                    Some(crate::entities::ReservationV { bus_id, customer_id, reservation_time })
                } else {
                    None
                },
            },
        },
    }
}

/// Round trip: decoding the encoding of a reservation yields that
/// reservation.
pub proof fn lemma_reservation_round_trip(r: crate::entities::ReservationV)
    ensures
        dec_reservation(reservation_le(r)) == Some(r),
{
    let t2 = u64_le(r.reservation_time);
    let t1 = u64_le(r.customer_id) + t2;
    let empty = Seq::<u8>::empty();
    lemma_dec_u64_p(r.bus_id, t1);
    lemma_dec_u64_p(r.customer_id, t2);
    assert(t2 =~= u64_le(r.reservation_time) + empty);
    lemma_dec_u64_p(r.reservation_time, empty);
}

/// Whether the details string of a maintenance record fits the codec's
/// length prefix.
pub open spec fn maintenance_encodable(m: crate::entities::MaintenanceRecordV) -> bool {
    m.details.len() <= u64::MAX
}

/// The bytes encoding a maintenance record.
pub open spec fn maintenance_le(m: crate::entities::MaintenanceRecordV) -> Seq<u8> {
    u64_le(m.id) + (u64_le(m.bus_id) + (u64_le(m.maintenance_date) + str_le(m.details)))
}

/// Decodes a whole maintenance record; trailing bytes are rejected.
pub open spec fn dec_maintenance(s: Seq<u8>) -> Option<crate::entities::MaintenanceRecordV> {
    match dec_u64_p(s) {
        None => None,
        Some((id, s1)) => match dec_u64_p(s1) {
            None => None,
            Some((bus_id, s2)) => match dec_u64_p(s2) {
                None => None,
                Some((maintenance_date, s3)) => match dec_str_p(s3) {
                    None => None,
                    Some((details, s4)) => if s4.len() == 0 {
                        Some(
                            crate::entities::MaintenanceRecordV {
                                id,
                                bus_id,
                                maintenance_date,
                                details,
                            },
                        )
                    } else {
                        None
                    },
                },
            },
        },
    }
}

/// Round trip: decoding the encoding of a maintenance record yields that
/// record.
pub proof fn lemma_maintenance_round_trip(m: crate::entities::MaintenanceRecordV)
    requires
        maintenance_encodable(m),
    ensures
        dec_maintenance(maintenance_le(m)) == Some(m),
{
    let t3 = str_le(m.details);
    let t2 = u64_le(m.maintenance_date) + t3;
    let t1 = u64_le(m.bus_id) + t2;
    let empty = Seq::<u8>::empty();
    lemma_dec_u64_p(m.id, t1);
    lemma_dec_u64_p(m.bus_id, t2);
    lemma_dec_u64_p(m.maintenance_date, t3);
    assert(t3 =~= str_le(m.details) + empty);
    lemma_dec_str_p(m.details, empty);
}

// ---------------------------------------------------------------------------
// Trusted characters-and-strings helpers
// ---------------------------------------------------------------------------
/// Relies on char::from_u32: returns the character with the given code
/// exactly when the code is a Unicode scalar value, and None otherwise.
#[verifier::external_body]
fn char_from_u32(u: u32) -> (r: Option<char>)
    ensures
        r matches Some(c) ==> c as u32 == u,
        vstd::utf8::is_scalar(u) ==> r is Some,
{
    char::from_u32(u)
}

/// Relies on String::push: appends the given character to the end of the
/// string.
#[verifier::external_body]
fn string_push(s: &mut String, c: char)
    ensures
        final(s)@ == old(s)@.push(c),
{
    s.push(c);
}

// ---------------------------------------------------------------------------
// Executable encoders
// ---------------------------------------------------------------------------
/// Appends the eight little-endian bytes of `x`.
fn enc_u64(out: &mut Vec<u8>, x: u64)
    ensures
        final(out)@ == old(out)@ + u64_le(x),
{
    out.push((x & 0xff) as u8);
    out.push(((x >> 8) & 0xff) as u8);
    out.push(((x >> 16) & 0xff) as u8);
    out.push(((x >> 24) & 0xff) as u8);
    out.push(((x >> 32) & 0xff) as u8);
    out.push(((x >> 40) & 0xff) as u8);
    out.push(((x >> 48) & 0xff) as u8);
    out.push(((x >> 56) & 0xff) as u8);
    proof {
        assert(out@ =~= old(out)@ + u64_le(x));
    }
}

/// Appends the four little-endian bytes of `x`.
fn enc_u32(out: &mut Vec<u8>, x: u32)
    ensures
        final(out)@ == old(out)@ + u32_le(x),
{
    out.push((x & 0xff) as u8);
    out.push(((x >> 8) & 0xff) as u8);
    out.push(((x >> 16) & 0xff) as u8);
    out.push(((x >> 24) & 0xff) as u8);
    proof {
        assert(out@ =~= old(out)@ + u32_le(x));
    }
}

/// Appends the byte encoding `b`.
fn enc_bool(out: &mut Vec<u8>, b: bool)
    ensures
        final(out)@ == old(out)@ + bool_le(b),
{
    out.push(if b { 1u8 } else { 0u8 });
    proof {
        assert(out@ =~= old(out)@ + bool_le(b));
    }
}

/// Appends the tagged encoding of `o`.
fn enc_opt_u64(out: &mut Vec<u8>, o: &Option<u64>)
    ensures
        final(out)@ == old(out)@ + opt_u64_le(*o),
{
    match o {
        None => {
            out.push(0u8);
            proof {
                assert(out@ =~= old(out)@ + opt_u64_le(*o));
            }
        },
        Some(x) => {
            out.push(1u8);
            enc_u64(out, *x);
            proof {
                assert(out@ =~= old(out)@ + opt_u64_le(*o));
            }
        },
    }
}

/// Appends the length-prefixed encoding of `s`.
fn enc_str(out: &mut Vec<u8>, s: &String)
    ensures
        final(out)@ == old(out)@ + str_le(s@),
        s@.len() <= u64::MAX,
{
    let text = s.as_str();
    let n = text.unicode_len();
    enc_u64(out, n as u64);
    let mut i: usize = 0;
    while i < n
        invariant
            text@ == s@,
            n == text@.len(),
            0 <= i <= n,
            out@ == old(out)@ + u64_le(n as u64) + chars_le(text@.take(i as int)),
        decreases n - i,
    {
        let c = text.get_char(i);
        enc_u32(out, c as u32);
        proof {
            lemma_chars_le_push(text@.take(i as int), c);
            assert(text@.take(i as int).push(c) =~= text@.take(i + 1));
            assert(old(out)@ + u64_le(n as u64) + (chars_le(text@.take(i as int)) + char_le(c))
                =~= (old(out)@ + u64_le(n as u64) + chars_le(text@.take(i as int))) + char_le(c));
        }
        i = i + 1;
    }
    proof {
        assert(text@.take(n as int) =~= s@);
        assert(old(out)@ + u64_le(n as u64) + chars_le(s@) =~= old(out)@ + str_le(s@));
    }
}

/// Encodes a bus record.
pub fn encode_bus(b: &crate::entities::Bus) -> (r: Vec<u8>)
    ensures
        r@ == bus_le(b@),
        bus_encodable(b@),
{
    let mut out: Vec<u8> = Vec::new();
    enc_u64(&mut out, b.id);
    enc_str(&mut out, &b.owner_principal);
    enc_str(&mut out, &b.make);
    enc_str(&mut out, &b.model);
    enc_u32(&mut out, b.year);
    enc_str(&mut out, &b.color);
    enc_u64(&mut out, b.created_at);
    enc_opt_u64(&mut out, &b.updated_at);
    enc_bool(&mut out, b.is_booked);
    proof {
        assert(out@ =~= bus_le(b@));
    }
    out
}

/// Encodes a customer record.
pub fn encode_customer(c: &crate::entities::Customer) -> (r: Vec<u8>)
    ensures
        r@ == customer_le(c@),
        customer_encodable(c@),
{
    let mut out: Vec<u8> = Vec::new();
    enc_u64(&mut out, c.id);
    enc_str(&mut out, &c.customer_principal);
    enc_str(&mut out, &c.name);
    enc_str(&mut out, &c.contact);
    proof {
        assert(out@ =~= customer_le(c@));
    }
    out
}

/// Encodes a reservation row.
pub fn encode_reservation(r: &crate::entities::Reservation) -> (out: Vec<u8>)
    ensures
        out@ == reservation_le(r@),
{
    let mut out: Vec<u8> = Vec::new();
    enc_u64(&mut out, r.bus_id);
    enc_u64(&mut out, r.customer_id);
    enc_u64(&mut out, r.reservation_time);
    proof {
        assert(out@ =~= reservation_le(r@));
    }
    out
}

/// Encodes a maintenance record.
pub fn encode_maintenance(m: &crate::entities::MaintenanceRecord) -> (r: Vec<u8>)
    ensures
        r@ == maintenance_le(m@),
        maintenance_encodable(m@),
{
    let mut out: Vec<u8> = Vec::new();
    enc_u64(&mut out, m.id);
    enc_u64(&mut out, m.bus_id);
    enc_u64(&mut out, m.maintenance_date);
    enc_str(&mut out, &m.details);
    proof {
        assert(out@ =~= maintenance_le(m@));
    }
    out
}

// ---------------------------------------------------------------------------
// Executable decoders: a cursor `i` walks the byte string front to back
// ---------------------------------------------------------------------------
/// Decodes a 64-bit integer at cursor `i`.
fn dec_u64_at(s: &Vec<u8>, i: usize) -> (r: Option<(u64, usize)>)
    requires
        i <= s@.len(),
    ensures
        match dec_u64_p(s@.skip(i as int)) {
            Some(p) => {
                &&& r matches Some(q)
                &&& q.0 == p.0
                &&& i <= q.1 <= s@.len()
                &&& s@.skip(q.1 as int) == p.1
            },
            None => r is None,
        },
{
    if s.len() - i >= 8 {
        let x = (s[i] as u64) | ((s[i + 1] as u64) << 8) | ((s[i + 2] as u64) << 16) | ((s[i + 3]
            as u64) << 24) | ((s[i + 4] as u64) << 32) | ((s[i + 5] as u64) << 40) | ((s[i + 6]
            as u64) << 48) | ((s[i + 7] as u64) << 56);
        proof {
            let t = s@.skip(i as int);
            assert(t[0] == s@[i as int] && t[1] == s@[i + 1] && t[2] == s@[i + 2] && t[3] == s@[i
                + 3] && t[4] == s@[i + 4] && t[5] == s@[i + 5] && t[6] == s@[i + 6] && t[7] == s@[i
                + 7]);
            assert(t.skip(8) =~= s@.skip((i + 8) as int));
        }
        Some((x, i + 8))
    } else {
        None
    }
}

/// Decodes a 32-bit integer at cursor `i`.
fn dec_u32_at(s: &Vec<u8>, i: usize) -> (r: Option<(u32, usize)>)
    requires
        i <= s@.len(),
    ensures
        match dec_u32_p(s@.skip(i as int)) {
            Some(p) => {
                &&& r matches Some(q)
                &&& q.0 == p.0
                &&& i <= q.1 <= s@.len()
                &&& s@.skip(q.1 as int) == p.1
            },
            None => r is None,
        },
{
    if s.len() - i >= 4 {
        let x = (s[i] as u32) | ((s[i + 1] as u32) << 8) | ((s[i + 2] as u32) << 16) | ((s[i + 3]
            as u32) << 24);
        proof {
            let t = s@.skip(i as int);
            assert(t[0] == s@[i as int] && t[1] == s@[i + 1] && t[2] == s@[i + 2] && t[3] == s@[i
                + 3]);
            assert(t.skip(4) =~= s@.skip((i + 4) as int));
        }
        Some((x, i + 4))
    } else {
        None
    }
}

/// Decodes a boolean at cursor `i`.
fn dec_bool_at(s: &Vec<u8>, i: usize) -> (r: Option<(bool, usize)>)
    requires
        i <= s@.len(),
    ensures
        match dec_bool_p(s@.skip(i as int)) {
            Some(p) => {
                &&& r matches Some(q)
                &&& q.0 == p.0
                &&& i <= q.1 <= s@.len()
                &&& s@.skip(q.1 as int) == p.1
            },
            None => r is None,
        },
{
    if s.len() - i >= 1 {
        proof {
            let t = s@.skip(i as int);
            assert(t[0] == s@[i as int]);
            assert(t.skip(1) =~= s@.skip((i + 1) as int));
        }
        let b = s[i];
        if b == 0 {
            Some((false, i + 1))
        } else if b == 1 {
            Some((true, i + 1))
        } else {
            None
        }
    } else {
        None
    }
}

/// Decodes an optional 64-bit integer at cursor `i`.
fn dec_opt_u64_at(s: &Vec<u8>, i: usize) -> (r: Option<(Option<u64>, usize)>)
    requires
        i <= s@.len(),
    ensures
        match dec_opt_u64_p(s@.skip(i as int)) {
            Some(p) => {
                &&& r matches Some(q)
                &&& q.0 == p.0
                &&& i <= q.1 <= s@.len()
                &&& s@.skip(q.1 as int) == p.1
            },
            None => r is None,
        },
{
    if s.len() - i >= 1 {
        proof {
            let t = s@.skip(i as int);
            assert(t[0] == s@[i as int]);
            assert(t.skip(1) =~= s@.skip((i + 1) as int));
        }
        let b = s[i];
        if b == 0 {
            Some((None, i + 1))
        } else if b == 1 {
            match dec_u64_at(s, i + 1) {
                None => None,
                Some((x, j)) => Some((Some(x), j)),
            }
        } else {
            None
        }
    } else {
        None
    }
}

/// Decodes a length-prefixed string at cursor `i`.
fn dec_str_at(s: &Vec<u8>, i: usize) -> (r: Option<(String, usize)>)
    requires
        i <= s@.len(),
    ensures
        match dec_str_p(s@.skip(i as int)) {
            Some(p) => {
                &&& r matches Some(q)
                &&& q.0@ == p.0
                &&& i <= q.1 <= s@.len()
                &&& s@.skip(q.1 as int) == p.1
            },
            None => r is None,
        },
{
    let (n, start) = match dec_u64_at(s, i) {
        None => {
            return None;
        },
        Some(p) => p,
    };
    let mut acc = String::new();
    let mut j: usize = start;
    let mut k: u64 = 0;
    while k < n
        invariant
            start <= j <= s@.len(),
            0 <= k <= n,
            acc@.len() == k,
            dec_str_p(s@.skip(i as int)) == dec_chars_p(s@.skip(start as int), n as nat),
            match dec_chars_p(s@.skip(start as int), n as nat) {
                Some(p) => {
                    &&& dec_chars_p(s@.skip(j as int), (n - k) as nat) == Some(
                        (p.0.skip(k as int), p.1),
                    )
                    &&& acc@ == p.0.take(k as int)
                },
                None => dec_chars_p(s@.skip(j as int), (n - k) as nat) is None,
            },
        decreases n - k,
    {
        let ghost m = (n - k) as nat;
        let ghost whole = dec_chars_p(s@.skip(start as int), n as nat);
        let (u, j2) = match dec_u32_at(s, j) {
            None => {
                proof {
                    assert(dec_chars_p(s@.skip(j as int), m) is None);
                }
                return None;
            },
            Some(p) => p,
        };
        let c = match char_from_u32(u) {
            None => {
                proof {
                    assert(!vstd::utf8::is_scalar(u));
                    assert(dec_chars_p(s@.skip(j as int), m) is None);
                }
                return None;
            },
            Some(c) => c,
        };
        proof {
            vstd::utf8::char_is_scalar(c);
            vstd::utf8::char_u32_cast(c, u);
            lemma_dec_chars_p_len(s@.skip(start as int), n as nat);
            match whole {
                Some(p) => {
                    let suffix = p.0.skip(k as int);
                    assert(dec_chars_p(s@.skip(j as int), m) == Some((suffix, p.1)));
                    assert(suffix[0] == u as char);
                    vstd::seq_lib::lemma_seq_skip_of_skip(p.0, k as int, 1);
                    assert(suffix.skip(1) =~= p.0.skip(k + 1));
                    assert(seq![u as char] + suffix.skip(1) =~= suffix);
                    assert(suffix[0] == p.0[k as int]);
                    assert(p.0.take(k as int).push(c) =~= p.0.take(k + 1));
                },
                None => {},
            }
        }
        string_push(&mut acc, c);
        j = j2;
        k = k + 1;
    }
    proof {
        lemma_dec_chars_p_len(s@.skip(start as int), n as nat);
        match dec_chars_p(s@.skip(start as int), n as nat) {
            Some(p) => {
                assert(dec_chars_p(s@.skip(j as int), 0) == Some(
                    (Seq::<char>::empty(), s@.skip(j as int)),
                ));
                assert(p.0.skip(k as int) =~= Seq::<char>::empty());
                assert(p.0.take(k as int) =~= p.0);
                assert(p.1 == s@.skip(j as int));
            },
            None => {
                assert(dec_chars_p(s@.skip(j as int), 0) is Some);
                assert(false);
            },
        }
    }
    Some((acc, j))
}

/// Decodes a bus record; the whole byte string must be consumed.
#[verifier::rlimit(50)]
pub fn decode_bus(s: &Vec<u8>) -> (r: Option<crate::entities::Bus>)
    ensures
        match dec_bus(s@) {
            Some(bv) => r matches Some(b) && b@ == bv,
            None => r is None,
        },
{
    proof {
        assert(s@.skip(0) =~= s@);
    }
    let (id, j1) = match dec_u64_at(s, 0) {
        None => {
            return None;
        },
        Some(p) => p,
    };
    let (owner_principal, j2) = match dec_str_at(s, j1) {
        None => {
            return None;
        },
        Some(p) => p,
    };
    let (make, j3) = match dec_str_at(s, j2) {
        None => {
            return None;
        },
        Some(p) => p,
    };
    let (model, j4) = match dec_str_at(s, j3) {
        None => {
            return None;
        },
        Some(p) => p,
    };
    let (year, j5) = match dec_u32_at(s, j4) {
        None => {
            return None;
        },
        Some(p) => p,
    };
    let (color, j6) = match dec_str_at(s, j5) {
        None => {
            return None;
        },
        Some(p) => p,
    };
    let (created_at, j7) = match dec_u64_at(s, j6) {
        None => {
            return None;
        },
        Some(p) => p,
    };
    let (updated_at, j8) = match dec_opt_u64_at(s, j7) {
        None => {
            return None;
        },
        Some(p) => p,
    };
    let (is_booked, j9) = match dec_bool_at(s, j8) {
        None => {
            return None;
        },
        Some(p) => p,
    };
    if j9 == s.len() {
        Some(
            crate::entities::Bus {
                id,
                owner_principal,
                make,
                model,
                year,
                color,
                created_at,
                updated_at,
                is_booked,
            },
        )
    } else {
        None
    }
}

/// Decodes a customer record; the whole byte string must be consumed.
pub fn decode_customer(s: &Vec<u8>) -> (r: Option<crate::entities::Customer>)
    ensures
        match dec_customer(s@) {
            Some(cv) => r matches Some(c) && c@ == cv,
            None => r is None,
        },
{
    proof {
        assert(s@.skip(0) =~= s@);
    }
    let (id, j1) = match dec_u64_at(s, 0) {
        None => {
            return None;
        },
        Some(p) => p,
    };
    let (customer_principal, j2) = match dec_str_at(s, j1) {
        None => {
            return None;
        },
        Some(p) => p,
    };
    let (name, j3) = match dec_str_at(s, j2) {
        None => {
            return None;
        },
        Some(p) => p,
    };
    let (contact, j4) = match dec_str_at(s, j3) {
        None => {
            return None;
        },
        Some(p) => p,
    };
    if j4 == s.len() {
        Some(crate::entities::Customer { id, customer_principal, name, contact })
    } else {
        None
    }
}

/// Decodes a reservation row; the whole byte string must be consumed.
pub fn decode_reservation(s: &Vec<u8>) -> (r: Option<crate::entities::Reservation>)
    ensures
        match dec_reservation(s@) {
            Some(rv) => r matches Some(x) && x@ == rv,
            None => r is None,
        },
{
    proof {
        assert(s@.skip(0) =~= s@);
    }
    let (bus_id, j1) = match dec_u64_at(s, 0) {
        None => {
            return None;
        },
        Some(p) => p,
    };
    let (customer_id, j2) = match dec_u64_at(s, j1) {
        None => {
            return None;
        },
        Some(p) => p,
    };
    let (reservation_time, j3) = match dec_u64_at(s, j2) {
        None => {
            return None;
        },
        Some(p) => p,
    };
    if j3 == s.len() {
        Some(crate::entities::Reservation { bus_id, customer_id, reservation_time })
    } else {
        None
    }
}

/// Decodes a maintenance record; the whole byte string must be consumed.
pub fn decode_maintenance(s: &Vec<u8>) -> (r: Option<crate::entities::MaintenanceRecord>)
    ensures
        match dec_maintenance(s@) {
            Some(mv) => r matches Some(m) && m@ == mv,
            None => r is None,
        },
{
    proof {
        assert(s@.skip(0) =~= s@);
    }
    let (id, j1) = match dec_u64_at(s, 0) {
        None => {
            return None;
        },
        Some(p) => p,
    };
    let (bus_id, j2) = match dec_u64_at(s, j1) {
        None => {
            return None;
        },
        Some(p) => p,
    };
    let (maintenance_date, j3) = match dec_u64_at(s, j2) {
        None => {
            return None;
        },
        Some(p) => p,
    };
    let (details, j4) = match dec_str_at(s, j3) {
        None => {
            return None;
        },
        Some(p) => p,
    };
    if j4 == s.len() {
        Some(crate::entities::MaintenanceRecord { id, bus_id, maintenance_date, details })
    } else {
        None
    }
}

} // verus!
