//! Wire format of a content announcement.
//!
//! A record holds the content name as field 1 (omitted when empty) and each
//! address as field 2, both length-delimited: a key byte, the payload length
//! as a varint, the payload. The whole record is then framed once more by a
//! varint length prefix, so that several records could later share one
//! broadcast payload.

use vstd::prelude::*;
use vstd::utf8::{decode_utf8, encode_utf8, valid_utf8};
use crate::bytes::{append_bytes, copy_range};
use crate::varint::{decode_varint, encode_varint, is_prefix, lemma_varint_unique, varint_of};

verus! {

/// Key byte of the name field: field 1, length-delimited.
pub const NAME_KEY: u8 = 0x0A;

/// Key byte of an address field: field 2, length-delimited.
pub const ADDRESS_KEY: u8 = 0x12;

/// Largest payload that the outer frame carries.
pub const MAX_FRAME_LEN: u64 = 134217728;

/// An announcement that a peer offers the content called `name`, reachable at
/// each of `addresses` (raw multi-protocol address bytes).
#[derive(Debug)]
pub struct ContentAnnouncement {
    pub name: String,
    pub addresses: Vec<Vec<u8>>,
}

/// Why a broadcast payload is not an announcement.
#[derive(Clone, Copy, Debug, PartialEq, Eq, Structural)]
pub enum DecodeError {
    /// The outer length prefix is missing, malformed, over the limit, or
    /// promises more bytes than there are.
    Frame,
    /// The framed bytes are not a well-formed record.
    Record,
}

impl View for ContentAnnouncement {
    type V = (Seq<char>, Seq<Seq<u8>>);

    open spec fn view(&self) -> (Seq<char>, Seq<Seq<u8>>) {
        (self.name@, self.addresses.deep_view())
    }
}

/// One length-delimited field.
pub open spec fn field_bytes(key: u8, payload: Seq<u8>) -> Seq<u8> {
    seq![key] + varint_of(payload.len()) + payload
}

/// The address fields, in order.
pub open spec fn addresses_bytes(addrs: Seq<Seq<u8>>) -> Seq<u8>
    decreases addrs.len(),
{
    if addrs.len() == 0 {
        seq![]
    } else {
        addresses_bytes(addrs.drop_last()) + field_bytes(ADDRESS_KEY, addrs.last())
    }
}

/// The name field, absent for the empty name.
pub open spec fn name_bytes(name: Seq<char>) -> Seq<u8> {
    if name.len() == 0 {
        seq![]
    } else {
        field_bytes(NAME_KEY, encode_utf8(name))
    }
}

/// The encoded record of an announcement.
pub open spec fn record_bytes(a: (Seq<char>, Seq<Seq<u8>>)) -> Seq<u8> {
    name_bytes(a.0) + addresses_bytes(a.1)
}

/// A record behind its length prefix.
pub open spec fn frame_bytes(record: Seq<u8>) -> Seq<u8> {
    varint_of(record.len()) + record
}

/// The 64-bit value encoded at the start of `s`, with its length in bytes.
pub open spec fn varint_at(s: Seq<u8>) -> Option<(nat, nat)> {
    if exists|n: u64| is_prefix(varint_of(n as nat), s) {
        let n = choose|n: u64| is_prefix(varint_of(n as nat), s);
        Some((n as nat, varint_of(n as nat).len()))
    } else {
        None
    }
}

/// The payload of the frame at the start of `s`; bytes after it are ignored.
pub open spec fn frame_payload(s: Seq<u8>) -> Option<Seq<u8>> {
    match varint_at(s) {
        Some((n, k)) => if n <= MAX_FRAME_LEN && k + n <= s.len() {
            Some(s.subrange(k as int, (k + n) as int))
        } else {
            None
        },
        None => None,
    }
}

/// Reads the fields of `s` on top of what was read before it: the bytes of
/// the last name field, and the addresses in order. Any other key, a bad
/// length, or a field running past the end makes the record malformed.
pub open spec fn parse_fields(s: Seq<u8>, name: Option<Seq<u8>>, addrs: Seq<Seq<u8>>) -> Option<
    (Option<Seq<u8>>, Seq<Seq<u8>>),
>
    decreases s.len(),
{
    if s.len() == 0 {
        Some((name, addrs))
    } else if s[0] != NAME_KEY && s[0] != ADDRESS_KEY {
        None
    } else {
        match varint_at(s.drop_first()) {
            None => None,
            Some((n, k)) => if 1 + k + n > s.len() {
                None
            } else {
                let payload = s.subrange((1 + k) as int, (1 + k + n) as int);
                let rest = s.subrange((1 + k + n) as int, s.len() as int);
                if s[0] == NAME_KEY {
                    parse_fields(rest, Some(payload), addrs)
                } else {
                    parse_fields(rest, name, addrs.push(payload))
                }
            },
        }
    }
}

/// The announcement that the record `s` holds, if it is well formed and its
/// name is valid UTF-8.
pub open spec fn parse_record(s: Seq<u8>) -> Option<(Seq<char>, Seq<Seq<u8>>)> {
    match parse_fields(s, None, seq![]) {
        None => None,
        Some((None, addrs)) => Some((seq![], addrs)),
        Some((Some(nb), addrs)) => if valid_utf8(nb) {
            Some((decode_utf8(nb), addrs))
        } else {
            None
        },
    }
}

/// What decoding `s` yields.
pub open spec fn decode_spec(s: Seq<u8>) -> Result<(Seq<char>, Seq<Seq<u8>>), DecodeError> {
    match frame_payload(s) {
        None => Err(DecodeError::Frame),
        Some(p) => match parse_record(p) {
            None => Err(DecodeError::Record),
            Some(a) => Ok(a),
        },
    }
}

/// Relies on `String::from_utf8`: `Ok` exactly for valid UTF-8, holding the
/// characters those bytes encode.
#[verifier::external_body]
pub(crate) fn string_from_utf8(b: Vec<u8>) -> (r: Option<String>)
    ensures
        match r {
            Some(s) => valid_utf8(b@) && s@ == decode_utf8(b@),
            None => !valid_utf8(b@),
        },
{
    String::from_utf8(b).ok()
}

proof fn lemma_varint_at(n: u64, s: Seq<u8>)
    requires
        is_prefix(varint_of(n as nat), s),
    ensures
        varint_at(s) == Some((n as nat, varint_of(n as nat).len())),
{
    let m = choose|m: u64| is_prefix(varint_of(m as nat), s);
    lemma_varint_unique(n as nat, m as nat, s);
}

proof fn lemma_varint_at_of(n: u64, rest: Seq<u8>)
    ensures
        varint_at(varint_of(n as nat) + rest) == Some((n as nat, varint_of(n as nat).len())),
{
    let s = varint_of(n as nat) + rest;
    assert(s.subrange(0, varint_of(n as nat).len() as int) =~= varint_of(n as nat));
    lemma_varint_at(n, s);
}

/// Appends one length-delimited field.
fn push_field(out: &mut Vec<u8>, key: u8, payload: &[u8])
    ensures
        final(out)@ == old(out)@ + field_bytes(key, payload@),
{
    out.push(key);
    encode_varint(payload.len() as u64, out);
    append_bytes(out, payload);
    assert(final(out)@ =~= old(out)@ + field_bytes(key, payload@));
}

/// Encodes an announcement as one framed record; `None` where the record is
/// longer than a frame may carry.
pub fn encode_announcement(a: &ContentAnnouncement) -> (r: Option<Vec<u8>>)
    ensures
        match r {
            Some(b) => record_bytes(a@).len() <= MAX_FRAME_LEN && b@ == frame_bytes(
                record_bytes(a@),
            ),
            None => record_bytes(a@).len() > MAX_FRAME_LEN,
        },
{
    let mut rec: Vec<u8> = Vec::new();
    let name: &str = a.name.as_str();
    if !name.is_empty() {
        push_field(&mut rec, NAME_KEY, name.as_bytes());
    }
    assert(rec@ =~= name_bytes(a.name@));
    let ghost dv = a.addresses.deep_view();
    let mut i: usize = 0;
    while i < a.addresses.len()
        invariant
            i <= a.addresses@.len(),
            dv == a.addresses.deep_view(),
            rec@ == name_bytes(a.name@) + addresses_bytes(dv.subrange(0, i as int)),
        decreases a.addresses@.len() - i,
    {
        let ghost before = rec@;
        push_field(&mut rec, ADDRESS_KEY, a.addresses[i].as_slice());
        proof {
            let sub = dv.subrange(0, i + 1);
            assert(sub.drop_last() =~= dv.subrange(0, i as int));
            assert(sub.last() =~= a.addresses@[i as int]@);
        }
        i = i + 1;
        assert(rec@ =~= name_bytes(a.name@) + addresses_bytes(dv.subrange(0, i as int)));
    }
    assert(dv.subrange(0, i as int) =~= dv);
    if rec.len() as u64 > MAX_FRAME_LEN {
        return None;
    }
    let mut out: Vec<u8> = Vec::new();
    encode_varint(rec.len() as u64, &mut out);
    append_bytes(&mut out, rec.as_slice());
    Some(out)
}

/// The bytes held, if any.
pub open spec fn bytes_opt_view(o: Option<Vec<u8>>) -> Option<Seq<u8>> {
    match o {
        Some(v) => Some(v@),
        None => None,
    }
}

/// Decodes the record `rec` (the payload of a frame).
pub fn decode_record(rec: &[u8]) -> (r: Option<ContentAnnouncement>)
    ensures
        match parse_record(rec@) {
            Some(m) => r is Some && r->Some_0@ == m,
            None => r is None,
        },
{
    let mut pos: usize = 0;
    let mut name: Option<Vec<u8>> = None;
    let mut addrs: Vec<Vec<u8>> = Vec::new();
    assert(rec@.subrange(0, rec@.len() as int) =~= rec@);
    assert(addrs.deep_view() =~= Seq::<Seq<u8>>::empty());
    while pos < rec.len()
        invariant
            pos <= rec@.len(),
            parse_fields(rec@, None, seq![]) == parse_fields(
                rec@.subrange(pos as int, rec@.len() as int),
                bytes_opt_view(name),
                addrs.deep_view(),
            ),
        decreases rec@.len() - pos,
    {
        let ghost s = rec@.subrange(pos as int, rec@.len() as int);
        let key: u8 = rec[pos];
        if key != NAME_KEY && key != ADDRESS_KEY {
            return None;
        }
        let ghost t = s.drop_first();
        assert(t =~= rec@.subrange(pos + 1, rec@.len() as int));
        match decode_varint(rec, pos + 1) {
            None => {
                assert(varint_at(t) is None);
                return None;
            },
            Some((n, end)) => {
                proof {
                    assert(t.subrange(0, end - pos - 1) =~= rec@.subrange(pos + 1, end as int));
                    lemma_varint_at(n, t);
                }
                if n > (rec.len() - end) as u64 {
                    return None;
                }
                let stop: usize = end + n as usize;
                let payload = copy_range(rec, end, stop);
                proof {
                    assert(s.subrange(end - pos, stop - pos) =~= payload@);
                    assert(s.subrange(stop - pos, s.len() as int) =~= rec@.subrange(
                        stop as int,
                        rec@.len() as int,
                    ));
                }
                if key == NAME_KEY {
                    name = Some(payload);
                } else {
                    let ghost before = addrs.deep_view();
                    assert(payload.deep_view() =~= payload@);
                    addrs.push(payload);
                    assert(addrs.deep_view() =~= before.push(payload@));
                }
                pos = stop;
            },
        }
    }
    assert(rec@.subrange(pos as int, rec@.len() as int) =~= Seq::<u8>::empty());
    match name {
        None => {
            let r = ContentAnnouncement { name: String::new(), addresses: addrs };
            assert(r@.0 =~= Seq::<char>::empty());
            Some(r)
        },
        Some(nb) => match string_from_utf8(nb) {
            Some(text) => Some(ContentAnnouncement { name: text, addresses: addrs }),
            None => None,
        },
    }
}

/// Decodes a broadcast payload: the frame first, then the record inside it.
pub fn decode_announcement(buf: &[u8]) -> (r: Result<ContentAnnouncement, DecodeError>)
    ensures
        match decode_spec(buf@) {
            Ok(m) => r is Ok && r->Ok_0@ == m,
            Err(e) => r == Err::<ContentAnnouncement, DecodeError>(e),
        },
{
    assert(buf@.subrange(0, buf@.len() as int) =~= buf@);
    match decode_varint(buf, 0) {
        None => {
            assert(varint_at(buf@) is None);
            Err(DecodeError::Frame)
        },
        Some((n, k)) => {
            proof {
                assert(buf@.subrange(0, k as int) =~= varint_of(n as nat));
                lemma_varint_at(n, buf@);
            }
            if n > MAX_FRAME_LEN || n > (buf.len() - k) as u64 {
                return Err(DecodeError::Frame);
            }
            let payload = copy_range(buf, k, k + n as usize);
            match decode_record(payload.as_slice()) {
                None => Err(DecodeError::Record),
                Some(a) => Ok(a),
            }
        },
    }
}

proof fn lemma_parse_field(key: u8, p: Seq<u8>, rest: Seq<u8>, name: Option<Seq<u8>>, addrs: Seq<Seq<u8>>)
    requires
        key == NAME_KEY || key == ADDRESS_KEY,
        p.len() <= MAX_FRAME_LEN,
    ensures
        parse_fields(field_bytes(key, p) + rest, name, addrs) == if key == NAME_KEY {
            parse_fields(rest, Some(p), addrs)
        } else {
            parse_fields(rest, name, addrs.push(p))
        },
{
    let s = field_bytes(key, p) + rest;
    let k: int = varint_of(p.len()).len() as int;
    assert(s.drop_first() =~= varint_of(p.len() as u64 as nat) + (p + rest));
    lemma_varint_at_of(p.len() as u64, p + rest);
    assert(s.subrange(1 + k, 1 + k + p.len() as int) =~= p);
    assert(s.subrange(1 + k + p.len() as int, s.len() as int) =~= rest);
}

proof fn lemma_parse_addresses(addrs: Seq<Seq<u8>>, rest: Seq<u8>, name: Option<Seq<u8>>, acc: Seq<Seq<u8>>)
    requires
        addresses_bytes(addrs).len() <= MAX_FRAME_LEN,
    ensures
        parse_fields(addresses_bytes(addrs) + rest, name, acc) == parse_fields(rest, name, acc + addrs),
    decreases addrs.len(),
{
    if addrs.len() == 0 {
        assert(addresses_bytes(addrs) + rest =~= rest);
        assert(acc + addrs =~= acc);
    } else {
        let init = addrs.drop_last();
        let f = field_bytes(ADDRESS_KEY, addrs.last());
        assert(addresses_bytes(addrs) + rest =~= addresses_bytes(init) + (f + rest));
        lemma_parse_addresses(init, f + rest, name, acc);
        lemma_parse_field(ADDRESS_KEY, addrs.last(), rest, name, acc + init);
        assert((acc + init).push(addrs.last()) =~= acc + addrs);
    }
}

/// Decoding the encoding of an announcement gives it back, with any number of
/// addresses, wherever the record fits in a frame.
pub proof fn lemma_decode_encode(a: (Seq<char>, Seq<Seq<u8>>))
    requires
        record_bytes(a).len() <= MAX_FRAME_LEN,
    ensures
        decode_spec(frame_bytes(record_bytes(a))) == Ok::<(Seq<char>, Seq<Seq<u8>>), DecodeError>(a),
{
    let r = record_bytes(a);
    let f = frame_bytes(r);
    lemma_varint_at_of(r.len() as u64, r);
    assert(f.subrange(varint_of(r.len()).len() as int, f.len() as int) =~= r);
    assert(frame_payload(f) == Some(r));
    if a.0.len() == 0 {
        assert(r =~= addresses_bytes(a.1) + Seq::<u8>::empty());
        lemma_parse_addresses(a.1, Seq::<u8>::empty(), None, seq![]);
        assert(Seq::<Seq<u8>>::empty() + a.1 =~= a.1);
        assert(a.0 =~= Seq::<char>::empty());
    } else {
        let nb = encode_utf8(a.0);
        assert(r =~= field_bytes(NAME_KEY, nb) + (addresses_bytes(a.1) + Seq::<u8>::empty()));
        lemma_parse_field(NAME_KEY, nb, addresses_bytes(a.1) + Seq::<u8>::empty(), None, seq![]);
        lemma_parse_addresses(a.1, Seq::<u8>::empty(), Some(nb), seq![]);
        assert(Seq::<Seq<u8>>::empty() + a.1 =~= a.1);
        vstd::utf8::encode_utf8_valid_utf8(a.0);
        vstd::utf8::encode_utf8_decode_utf8(a.0);
    }
}

/// A frame cut short anywhere is refused as a frame, never misread.
pub proof fn lemma_truncated_frame(record: Seq<u8>, len: int)
    requires
        record.len() <= MAX_FRAME_LEN,
        0 <= len < frame_bytes(record).len(),
    ensures
        decode_spec(frame_bytes(record).subrange(0, len)) == Err::<(Seq<char>, Seq<Seq<u8>>), DecodeError>(DecodeError::Frame),
{
    let f = frame_bytes(record);
    let t = f.subrange(0, len);
    if exists|n: u64| is_prefix(varint_of(n as nat), t) {
        let n = choose|n: u64| is_prefix(varint_of(n as nat), t);
        let m: u64 = record.len() as u64;
        assert(f.subrange(0, varint_of(n as nat).len() as int) =~= t.subrange(0, varint_of(n as nat).len() as int));
        assert(f.subrange(0, varint_of(m as nat).len() as int) =~= varint_of(m as nat));
        lemma_varint_unique(n as nat, m as nat, f);
    }
}

} // verus!
