//! The wire layout of a ticket record: fields in declaration order, text as a
//! little-endian `u32` byte length followed by its UTF-8 bytes, integers
//! little-endian, the status as one tag byte, keys as their 32 bytes.
use vstd::prelude::*;
use vstd::utf8::{decode_utf8, encode_utf8, valid_utf8};

use crate::key::PublicKey;
use crate::ticket::{Ticket, TicketStatus, TicketView};

verus! {

/// The eight little-endian bytes of `x`.
pub open spec fn u64_le(x: u64) -> Seq<u8> {
    seq![
        x as u8,
        (x >> 8u64) as u8,
        (x >> 16u64) as u8,
        (x >> 24u64) as u8,
        (x >> 32u64) as u8,
        (x >> 40u64) as u8,
        (x >> 48u64) as u8,
        (x >> 56u64) as u8,
    ]
}

/// The value of eight little-endian bytes.
pub open spec fn u64_from_le(b: Seq<u8>) -> u64 {
    (b[0] as u64) | ((b[1] as u64) << 8u64) | ((b[2] as u64) << 16u64) | ((b[3] as u64) << 24u64)
        | ((b[4] as u64) << 32u64) | ((b[5] as u64) << 40u64) | ((b[6] as u64) << 48u64) | ((
    b[7] as u64) << 56u64)
}

/// The four little-endian bytes of `x`.
pub open spec fn u32_le(x: u32) -> Seq<u8> {
    seq![x as u8, (x >> 8u32) as u8, (x >> 16u32) as u8, (x >> 24u32) as u8]
}

/// The value of four little-endian bytes.
pub open spec fn u32_from_le(b: Seq<u8>) -> u32 {
    (b[0] as u32) | ((b[1] as u32) << 8u32) | ((b[2] as u32) << 16u32) | ((b[3] as u32) << 24u32)
}

proof fn lemma_u64_le_round_trip(x: u64)
    ensures
        u64_from_le(u64_le(x)) == x,
{
    let b = u64_le(x);
    let (b0, b1, b2, b3, b4, b5, b6, b7) = (b[0], b[1], b[2], b[3], b[4], b[5], b[6], b[7]);
    assert(b0 == x as u8 && b1 == (x >> 8u64) as u8 && b2 == (x >> 16u64) as u8 && b3 == (x
        >> 24u64) as u8 && b4 == (x >> 32u64) as u8 && b5 == (x >> 40u64) as u8 && b6 == (x
        >> 48u64) as u8 && b7 == (x >> 56u64) as u8);
    assert((b0 == x as u8 && b1 == (x >> 8u64) as u8 && b2 == (x >> 16u64) as u8 && b3 == (x
        >> 24u64) as u8 && b4 == (x >> 32u64) as u8 && b5 == (x >> 40u64) as u8 && b6 == (x
        >> 48u64) as u8 && b7 == (x >> 56u64) as u8) ==> (b0 as u64) | ((b1 as u64) << 8u64) | ((
    b2 as u64) << 16u64) | ((b3 as u64) << 24u64) | ((b4 as u64) << 32u64) | ((b5 as u64)
        << 40u64) | ((b6 as u64) << 48u64) | ((b7 as u64) << 56u64) == x) by (bit_vector);
}

proof fn lemma_u64_from_le_round_trip(b: Seq<u8>)
    requires
        b.len() == 8,
    ensures
        u64_le(u64_from_le(b)) == b,
{
    let x = u64_from_le(b);
    let (b0, b1, b2, b3, b4, b5, b6, b7) = (b[0], b[1], b[2], b[3], b[4], b[5], b[6], b[7]);
    assert(x == (b0 as u64) | ((b1 as u64) << 8u64) | ((b2 as u64) << 16u64) | ((b3 as u64)
        << 24u64) | ((b4 as u64) << 32u64) | ((b5 as u64) << 40u64) | ((b6 as u64) << 48u64)
        | ((b7 as u64) << 56u64));
    assert(x == (b0 as u64) | ((b1 as u64) << 8u64) | ((b2 as u64) << 16u64) | ((b3 as u64)
        << 24u64) | ((b4 as u64) << 32u64) | ((b5 as u64) << 40u64) | ((b6 as u64) << 48u64)
        | ((b7 as u64) << 56u64) ==> b0 == x as u8 && b1 == (x >> 8u64) as u8 && b2 == (x
        >> 16u64) as u8 && b3 == (x >> 24u64) as u8 && b4 == (x >> 32u64) as u8 && b5 == (x
        >> 40u64) as u8 && b6 == (x >> 48u64) as u8 && b7 == (x >> 56u64) as u8) by (bit_vector);
    assert(u64_le(x) =~= b);
}

proof fn lemma_u32_le_round_trip(x: u32)
    ensures
        u32_from_le(u32_le(x)) == x,
{
    let b = u32_le(x);
    let (b0, b1, b2, b3) = (b[0], b[1], b[2], b[3]);
    assert(b0 == x as u8 && b1 == (x >> 8u32) as u8 && b2 == (x >> 16u32) as u8 && b3 == (x
        >> 24u32) as u8);
    assert((b0 == x as u8 && b1 == (x >> 8u32) as u8 && b2 == (x >> 16u32) as u8 && b3 == (x
        >> 24u32) as u8) ==> (b0 as u32) | ((b1 as u32) << 8u32) | ((b2 as u32) << 16u32) | ((
    b3 as u32) << 24u32) == x) by (bit_vector);
}

proof fn lemma_i64_as_u64_round_trip(x: i64)
    ensures
        (x as u64) as i64 == x,
{
    assert((x as u64) as i64 == x) by (bit_vector);
}


proof fn lemma_u32_from_le_round_trip(b: Seq<u8>)
    requires
        b.len() == 4,
    ensures
        u32_le(u32_from_le(b)) == b,
{
    let x = u32_from_le(b);
    let (b0, b1, b2, b3) = (b[0], b[1], b[2], b[3]);
    assert(x == (b0 as u32) | ((b1 as u32) << 8u32) | ((b2 as u32) << 16u32) | ((b3 as u32)
        << 24u32));
    assert(x == (b0 as u32) | ((b1 as u32) << 8u32) | ((b2 as u32) << 16u32) | ((b3 as u32)
        << 24u32) ==> b0 == x as u8 && b1 == (x >> 8u32) as u8 && b2 == (x >> 16u32) as u8
        && b3 == (x >> 24u32) as u8) by (bit_vector);
    assert(u32_le(x) =~= b);
}

/// A text field: its UTF-8 byte length as four little-endian bytes, then the
/// bytes.
pub open spec fn text_field(s: Seq<char>) -> Seq<u8> {
    u32_le(encode_utf8(s).len() as u32) + encode_utf8(s)
}

/// Whether the UTF-8 length of `s` fits the four-byte length prefix.
pub open spec fn text_fits(s: Seq<char>) -> bool {
    encode_utf8(s).len() <= u32::MAX
}

/// The tag byte of a status.
pub open spec fn status_tag(s: TicketStatus) -> u8 {
    match s {
        TicketStatus::Active => 0,
        TicketStatus::Redeemed => 1,
        TicketStatus::Cancelled => 2,
    }
}

/// Whether a ticket has a wire layout: text within the length prefix, keys of
/// 32 bytes.
pub open spec fn layout_fits(t: TicketView) -> bool {
    &&& text_fits(t.event_id)
    &&& text_fits(t.event_name)
    &&& text_fits(t.venue)
    &&& text_fits(t.attendee_name)
    &&& t.cnft_asset_id.len() == 32
    &&& t.owner.len() == 32
}

/// The wire layout of a ticket.
pub open spec fn ticket_layout(t: TicketView) -> Seq<u8> {
    text_field(t.event_id) + (text_field(t.event_name) + (u64_le(t.event_date as u64) + (
    text_field(t.venue) + (text_field(t.attendee_name) + (u64_le(t.price_paid) + (seq![
        status_tag(t.ticket_status),
    ] + (t.cnft_asset_id + (t.owner + (u64_le(t.created_at as u64) + seq![t.bump])))))))))
}

/// `piece` stands in `b` from `pos` on.
pub open spec fn starts_at(b: Seq<u8>, pos: int, piece: Seq<u8>) -> bool {
    0 <= pos && pos + piece.len() <= b.len() && b.subrange(pos, pos + piece.len()) == piece
}

proof fn lemma_split(b: Seq<u8>, pos: int, x: Seq<u8>, y: Seq<u8>)
    ensures
        starts_at(b, pos, x + y) <==> (starts_at(b, pos, x) && starts_at(b, pos + x.len(), y)),
{
    if starts_at(b, pos, x + y) {
        assert(b.subrange(pos, pos + x.len()) =~= (x + y).subrange(0, x.len() as int));
        assert(b.subrange(pos + x.len(), pos + x.len() + y.len()) =~= (x + y).subrange(
            x.len() as int,
            (x.len() + y.len()) as int,
        ));
        assert((x + y).subrange(0, x.len() as int) =~= x);
        assert((x + y).subrange(x.len() as int, (x.len() + y.len()) as int) =~= y);
    }
    if starts_at(b, pos, x) && starts_at(b, pos + x.len(), y) {
        assert forall|i: int| 0 <= i < x.len() + y.len() implies b.subrange(
            pos,
            pos + (x + y).len(),
        )[i] == (x + y)[i] by {
            if i < x.len() {
                assert(b.subrange(pos, pos + x.len())[i] == x[i]);
            } else {
                assert(b.subrange(pos + x.len(), pos + x.len() + y.len())[i - x.len()] == y[i
                    - x.len()]);
            }
        }
        assert(b.subrange(pos, pos + (x + y).len()) =~= x + y);
    }
}

proof fn lemma_peel(b: Seq<u8>, pos: int, x: Seq<u8>, y: Seq<u8>)
    requires
        starts_at(b, pos, x + y),
    ensures
        starts_at(b, pos, x),
        starts_at(b, pos + x.len(), y),
        pos + x.len() + y.len() <= b.len(),
{
    lemma_split(b, pos, x, y);
}

fn push_u64(out: &mut Vec<u8>, x: u64)
    ensures
        final(out)@ == old(out)@ + u64_le(x),
{
    out.push(x as u8);
    out.push((x >> 8u64) as u8);
    out.push((x >> 16u64) as u8);
    out.push((x >> 24u64) as u8);
    out.push((x >> 32u64) as u8);
    out.push((x >> 40u64) as u8);
    out.push((x >> 48u64) as u8);
    out.push((x >> 56u64) as u8);
    assert(out@ =~= old(out)@ + u64_le(x));
}

fn push_bytes(out: &mut Vec<u8>, bytes: &[u8])
    ensures
        final(out)@ == old(out)@ + bytes@,
{
    let ghost start = out@;
    let mut i: usize = 0;
    while i < bytes.len()
        invariant
            i <= bytes@.len(),
            out@ == start + bytes@.subrange(0, i as int),
        decreases bytes@.len() - i,
    {
        out.push(bytes[i]);
        i = i + 1;
        assert(out@ =~= start + bytes@.subrange(0, i as int));
    }
    assert(bytes@.subrange(0, i as int) =~= bytes@);
}

fn push_text(out: &mut Vec<u8>, s: &String)
    requires
        text_fits(s@),
    ensures
        final(out)@ == old(out)@ + text_field(s@),
{
    let bytes = s.as_str().as_bytes();
    let n = bytes.len() as u32;
    out.push(n as u8);
    out.push((n >> 8u32) as u8);
    out.push((n >> 16u32) as u8);
    out.push((n >> 24u32) as u8);
    assert(out@ =~= old(out)@ + u32_le(n));
    push_bytes(out, bytes);
    assert(out@ =~= old(out)@ + text_field(s@));
}

fn text_fits_exec(s: &String) -> (r: bool)
    ensures
        r == text_fits(s@),
{
    s.as_str().as_bytes().len() <= 0xffff_ffffusize
}

/// The wire layout of `t`, or `None` where a text field is too long for its
/// length prefix.
#[verifier::rlimit(40)]
pub fn encode_ticket(t: &Ticket) -> (r: Option<Vec<u8>>)
    ensures
        r is Some <==> layout_fits(t@),
        r matches Some(b) ==> b@ == ticket_layout(t@),
{
    if !(text_fits_exec(&t.event_id) && text_fits_exec(&t.event_name) && text_fits_exec(&t.venue)
        && text_fits_exec(&t.attendee_name)) {
        return None;
    }
    let mut out: Vec<u8> = Vec::new();
    push_text(&mut out, &t.event_id);
    push_text(&mut out, &t.event_name);
    push_u64(&mut out, #[verifier::truncate] (t.event_date as u64));
    push_text(&mut out, &t.venue);
    push_text(&mut out, &t.attendee_name);
    push_u64(&mut out, t.price_paid);
    let tag: u8 = match t.ticket_status {
        TicketStatus::Active => 0,
        TicketStatus::Redeemed => 1,
        TicketStatus::Cancelled => 2,
    };
    out.push(tag);
    push_bytes(&mut out, t.cnft_asset_id.bytes.as_slice());
    push_bytes(&mut out, t.owner.bytes.as_slice());
    push_u64(&mut out, #[verifier::truncate] (t.created_at as u64));
    out.push(t.bump);
    assert(out@ =~= ticket_layout(t@));
    Some(out)
}


proof fn lemma_u64_as_i64_round_trip(x: u64)
    ensures
        (x as i64) as u64 == x,
{
    assert((x as i64) as u64 == x) by (bit_vector);
}

/// Relies on `String::from_utf8` of std: it succeeds exactly on valid UTF-8,
/// and the string then holds the characters those bytes encode.
#[verifier::external_body]
fn string_from_utf8(bytes: Vec<u8>) -> (r: Option<String>)
    ensures
        r is Some <==> valid_utf8(bytes@),
        r matches Some(s) ==> s@ == decode_utf8(bytes@),
{
    String::from_utf8(bytes).ok()
}

fn read_byte(b: &[u8], pos: usize) -> (r: Option<u8>)
    ensures
        match r {
            Some(x) => starts_at(b@, pos as int, seq![x]),
            None => pos + 1 > b@.len(),
        },
        forall|y: u8| #[trigger] starts_at(b@, pos as int, seq![y]) ==> r == Some(y),
{
    if pos < b.len() {
        proof {
            assert(b@.subrange(pos as int, pos + 1) =~= seq![b@[pos as int]]);
            assert forall|y: u8| #[trigger] starts_at(b@, pos as int, seq![y]) implies y == b@[pos as int] by {
                assert(b@.subrange(pos as int, pos + 1)[0] == y);
            }
        }
        Some(b[pos])
    } else {
        None
    }
}

fn read_u32(b: &[u8], pos: usize) -> (r: Option<u32>)
    ensures
        match r {
            Some(x) => starts_at(b@, pos as int, u32_le(x)),
            None => pos + 4 > b@.len(),
        },
        forall|y: u32| #[trigger] starts_at(b@, pos as int, u32_le(y)) ==> r == Some(y),
{
    if pos > b.len() || b.len() - pos < 4 {
        return None;
    }
    let x = (b[pos] as u32) | ((b[pos + 1] as u32) << 8u32) | ((b[pos + 2] as u32) << 16u32) | ((
    b[pos + 3] as u32) << 24u32);
    proof {
        let sub = b@.subrange(pos as int, pos + 4);
        assert(x == u32_from_le(sub));
        lemma_u32_from_le_round_trip(sub);
        assert forall|y: u32| #[trigger] starts_at(b@, pos as int, u32_le(y)) implies x == y by {
            lemma_u32_le_round_trip(y);
        }
    }
    Some(x)
}

fn read_u64(b: &[u8], pos: usize) -> (r: Option<u64>)
    ensures
        match r {
            Some(x) => starts_at(b@, pos as int, u64_le(x)),
            None => pos + 8 > b@.len(),
        },
        forall|y: u64| #[trigger] starts_at(b@, pos as int, u64_le(y)) ==> r == Some(y),
{
    if pos > b.len() || b.len() - pos < 8 {
        return None;
    }
    let x = (b[pos] as u64) | ((b[pos + 1] as u64) << 8u64) | ((b[pos + 2] as u64) << 16u64) | ((
    b[pos + 3] as u64) << 24u64) | ((b[pos + 4] as u64) << 32u64) | ((b[pos + 5] as u64)
        << 40u64) | ((b[pos + 6] as u64) << 48u64) | ((b[pos + 7] as u64) << 56u64);
    proof {
        let sub = b@.subrange(pos as int, pos + 8);
        assert(x == u64_from_le(sub));
        lemma_u64_from_le_round_trip(sub);
        assert forall|y: u64| #[trigger] starts_at(b@, pos as int, u64_le(y)) implies x == y by {
            lemma_u64_le_round_trip(y);
        }
    }
    Some(x)
}

fn read_key(b: &[u8], pos: usize) -> (r: Option<PublicKey>)
    ensures
        match r {
            Some(k) => starts_at(b@, pos as int, k@),
            None => pos + 32 > b@.len(),
        },
        forall|s: Seq<u8>|
            s.len() == 32 && #[trigger] starts_at(b@, pos as int, s) ==> (r matches Some(k) && k@
                == s),
{
    if pos > b.len() || b.len() - pos < 32 {
        return None;
    }
    let mut bytes = [0u8; 32];
    let mut i: usize = 0;
    while i < 32
        invariant
            pos + 32 <= b.len(),
            i <= 32,
            bytes@.len() == 32,
            forall|j: int| 0 <= j < i ==> bytes@[j] == b@[pos + j],
        decreases 32 - i,
    {
        bytes[i] = b[pos + i];
        i = i + 1;
    }
    let k = PublicKey::new(bytes);
    proof {
        assert(b@.subrange(pos as int, pos + 32) =~= k@);
    }
    Some(k)
}

fn read_text(b: &[u8], pos: usize) -> (r: Option<(String, usize)>)
    ensures
        r matches Some((s, p)) ==> text_fits(s@) && p == pos + text_field(s@).len() && starts_at(
            b@,
            pos as int,
            text_field(s@),
        ),
        forall|c: Seq<char>|
            text_fits(c) && #[trigger] starts_at(b@, pos as int, text_field(c)) ==> (r matches Some(
                (s, p),
            ) && s@ == c),
{
    proof {
        assert forall|c: Seq<char>| text_fits(c) && #[trigger] starts_at(b@, pos as int, text_field(c))
            implies starts_at(b@, pos as int, u32_le(encode_utf8(c).len() as u32)) && starts_at(
            b@,
            pos + 4,
            encode_utf8(c),
        ) by {
            lemma_split(b@, pos as int, u32_le(encode_utf8(c).len() as u32), encode_utf8(c));
        }
    }
    let n = match read_u32(b, pos) {
        Some(n) => n,
        None => {
            return None;
        },
    };
    let len: usize = b.len();
    assert(len == b@.len());
    let start = pos + 4;
    if n as usize > b.len() - start {
        return None;
    }
    let end = start + n as usize;
    let bytes = vstd::slice::slice_to_vec(vstd::slice::slice_subrange(b, start, end));
    let ghost raw = bytes@;
    proof {
        assert forall|c: Seq<char>| text_fits(c) && #[trigger] starts_at(b@, pos as int, text_field(c))
            implies encode_utf8(c) == raw by {
            assert(u32_le(encode_utf8(c).len() as u32) == u32_le(n));
            lemma_u32_le_round_trip(n);
            lemma_u32_le_round_trip(encode_utf8(c).len() as u32);
            vstd::utf8::encode_utf8_valid_utf8(c);
        }
        assert forall|c: Seq<char>| text_fits(c) && #[trigger] starts_at(b@, pos as int, text_field(c))
            implies valid_utf8(raw) by {
            vstd::utf8::encode_utf8_valid_utf8(c);
        }
    }
    match string_from_utf8(bytes) {
        Some(s) => {
            proof {
                vstd::utf8::decode_utf8_encode_utf8(raw);
                assert(encode_utf8(s@) == raw);
                lemma_split(b@, pos as int, u32_le(n), raw);
                assert forall|c: Seq<char>| text_fits(c) && #[trigger] starts_at(
                    b@,
                    pos as int,
                    text_field(c),
                ) implies s@ == c by {
                    vstd::utf8::encode_utf8_decode_utf8(c);
                }
            }
            Some((s, end))
        },
        None => None,
    }
}


/// Where each field of `v` stands in a buffer that holds exactly its layout.
#[verifier::rlimit(100)]
proof fn lemma_layout_pieces(b: Seq<u8>, v: TicketView)
    requires
        ticket_layout(v) == b,
    ensures
        ({
            let o1 = text_field(v.event_id).len() as int;
            let o2 = o1 + text_field(v.event_name).len();
            let o3 = o2 + 8;
            let o4 = o3 + text_field(v.venue).len();
            let o5 = o4 + text_field(v.attendee_name).len();
            let o6 = o5 + 8;
            let o7 = o6 + 1;
            let o8 = o7 + v.cnft_asset_id.len();
            let o9 = o8 + v.owner.len();
            let o10 = o9 + 8;
            &&& starts_at(b, 0, text_field(v.event_id))
            &&& starts_at(b, o1, text_field(v.event_name))
            &&& starts_at(b, o2, u64_le(v.event_date as u64))
            &&& starts_at(b, o3, text_field(v.venue))
            &&& starts_at(b, o4, text_field(v.attendee_name))
            &&& starts_at(b, o5, u64_le(v.price_paid))
            &&& starts_at(b, o6, seq![status_tag(v.ticket_status)])
            &&& starts_at(b, o7, v.cnft_asset_id)
            &&& starts_at(b, o8, v.owner)
            &&& starts_at(b, o9, u64_le(v.created_at as u64))
            &&& starts_at(b, o10, seq![v.bump])
            &&& o10 + 1 == b.len()
        }),
{
    let p1 = text_field(v.event_id);
    let p2 = text_field(v.event_name);
    let p3 = u64_le(v.event_date as u64);
    let p4 = text_field(v.venue);
    let p5 = text_field(v.attendee_name);
    let p6 = u64_le(v.price_paid);
    let p7 = seq![status_tag(v.ticket_status)];
    let p8 = v.cnft_asset_id;
    let p9 = v.owner;
    let p10 = u64_le(v.created_at as u64);
    let p11 = seq![v.bump];
    let r10 = p10 + p11;
    let r9 = p9 + r10;
    let r8 = p8 + r9;
    let r7 = p7 + r8;
    let r6 = p6 + r7;
    let r5 = p5 + r6;
    let r4 = p4 + r5;
    let r3 = p3 + r4;
    let r2 = p2 + r3;
    assert(b == p1 + r2);
    assert(b.subrange(0, b.len() as int) =~= b);
    lemma_peel(b, 0, p1, r2);
    lemma_peel(b, p1.len() as int, p2, r3);
    let o2 = (p1.len() + p2.len()) as int;
    lemma_peel(b, o2, p3, r4);
    let o3 = o2 + 8;
    lemma_peel(b, o3, p4, r5);
    let o4 = o3 + p4.len();
    lemma_peel(b, o4, p5, r6);
    let o5 = o4 + p5.len();
    lemma_peel(b, o5, p6, r7);
    let o6 = o5 + 8;
    lemma_peel(b, o6, p7, r8);
    let o7 = o6 + 1;
    lemma_peel(b, o7, p8, r9);
    let o8 = o7 + p8.len();
    lemma_peel(b, o8, p9, r10);
    let o9 = o8 + p9.len();
    lemma_peel(b, o9, p10, p11);
}

/// Reads a ticket back from its wire layout. Every buffer that holds exactly
/// the layout of a ticket gives back that ticket, field for field; any other
/// buffer gives `None`.
#[verifier::rlimit(60)]
pub fn decode_ticket(b: &[u8]) -> (r: Option<Ticket>)
    ensures
        r matches Some(t) ==> layout_fits(t@) && ticket_layout(t@) == b@,
        forall|v: TicketView|
            layout_fits(v) && #[trigger] ticket_layout(v) == b@ ==> (r matches Some(t) && t@ == v),
{
    let ghost bs = b@;
    let ghost has = exists|v: TicketView| layout_fits(v) && ticket_layout(v) == bs;
    let ghost w = choose|v: TicketView| layout_fits(v) && ticket_layout(v) == bs;
    let len: usize = b.len();
    assert(len == bs.len());
    proof {
        if has {
            lemma_layout_pieces(bs, w);
        }
    }
    let (event_id, p1) = match read_text(b, 0) {
        Some(x) => x,
        None => {
            return None;
        },
    };
    let (event_name, p2) = match read_text(b, p1) {
        Some(x) => x,
        None => {
            return None;
        },
    };
    let event_date = match read_u64(b, p2) {
        Some(x) => x,
        None => {
            return None;
        },
    };
    let (venue, p4) = match read_text(b, p2 + 8) {
        Some(x) => x,
        None => {
            return None;
        },
    };
    let (attendee_name, p5) = match read_text(b, p4) {
        Some(x) => x,
        None => {
            return None;
        },
    };
    let price_paid = match read_u64(b, p5) {
        Some(x) => x,
        None => {
            return None;
        },
    };
    let tag = match read_byte(b, p5 + 8) {
        Some(x) => x,
        None => {
            return None;
        },
    };
    let ticket_status = if tag == 0 {
        TicketStatus::Active
    } else if tag == 1 {
        TicketStatus::Redeemed
    } else if tag == 2 {
        TicketStatus::Cancelled
    } else {
        return None;
    };
    let p7 = p5 + 9;
    let cnft_asset_id = match read_key(b, p7) {
        Some(k) => k,
        None => {
            return None;
        },
    };
    let owner = match read_key(b, p7 + 32) {
        Some(k) => k,
        None => {
            return None;
        },
    };
    let created_at = match read_u64(b, p7 + 64) {
        Some(x) => x,
        None => {
            return None;
        },
    };
    let bump = match read_byte(b, p7 + 72) {
        Some(x) => x,
        None => {
            return None;
        },
    };
    if p7 + 73 != b.len() {
        return None;
    }
    proof {
        lemma_u64_as_i64_round_trip(event_date);
        lemma_u64_as_i64_round_trip(created_at);
    }
    let t = Ticket {
        event_id,
        event_name,
        event_date: #[verifier::truncate] (event_date as i64),
        venue,
        attendee_name,
        price_paid,
        ticket_status,
        cnft_asset_id,
        owner,
        created_at: #[verifier::truncate] (created_at as i64),
        bump,
    };
    proof {
        assert(seq![tag] == seq![status_tag(t@.ticket_status)]);
        let v = t@;
        lemma_split(bs, p7 + 64, u64_le(v.created_at as u64), seq![v.bump]);
        lemma_split(bs, p7 + 32, v.owner, u64_le(v.created_at as u64) + seq![v.bump]);
        lemma_split(bs, p7 as int, v.cnft_asset_id, v.owner + (u64_le(v.created_at as u64) + seq![v.bump]));
        lemma_split(bs, p5 + 8, seq![status_tag(v.ticket_status)], v.cnft_asset_id + (v.owner + (u64_le(v.created_at as u64) + seq![v.bump])));
        let r7 = seq![status_tag(v.ticket_status)] + (v.cnft_asset_id + (v.owner + (u64_le(v.created_at as u64) + seq![v.bump])));
        lemma_split(bs, p5 as int, u64_le(v.price_paid), r7);
        let r6 = u64_le(v.price_paid) + r7;
        lemma_split(bs, p4 as int, text_field(v.attendee_name), r6);
        let r5 = text_field(v.attendee_name) + r6;
        lemma_split(bs, p2 + 8, text_field(v.venue), r5);
        let r4 = text_field(v.venue) + r5;
        lemma_split(bs, p2 as int, u64_le(v.event_date as u64), r4);
        let r3 = u64_le(v.event_date as u64) + r4;
        lemma_split(bs, p1 as int, text_field(v.event_name), r3);
        let r2 = text_field(v.event_name) + r3;
        lemma_split(bs, 0, text_field(v.event_id), r2);
        assert(ticket_layout(v) == text_field(v.event_id) + r2);
        assert(bs.subrange(0, bs.len() as int) =~= bs);
        assert forall|v2: TicketView| layout_fits(v2) && #[trigger] ticket_layout(v2) == bs implies t@ == v2 by {
            lemma_layout_pieces(bs, v2);
            lemma_i64_as_u64_round_trip(v2.event_date);
            lemma_i64_as_u64_round_trip(v2.created_at);
        }
    }
    Some(t)
}


proof fn lemma_text_unique(b: Seq<u8>, pos: int, c1: Seq<char>, c2: Seq<char>)
    requires
        text_fits(c1),
        text_fits(c2),
        starts_at(b, pos, text_field(c1)),
        starts_at(b, pos, text_field(c2)),
    ensures
        c1 == c2,
{
    let n1 = encode_utf8(c1).len() as u32;
    let n2 = encode_utf8(c2).len() as u32;
    lemma_peel(b, pos, u32_le(n1), encode_utf8(c1));
    lemma_peel(b, pos, u32_le(n2), encode_utf8(c2));
    lemma_u32_le_round_trip(n1);
    lemma_u32_le_round_trip(n2);
    vstd::utf8::encode_utf8_decode_utf8(c1);
    vstd::utf8::encode_utf8_decode_utf8(c2);
}

proof fn lemma_u64_unique(b: Seq<u8>, pos: int, x: u64, y: u64)
    requires
        starts_at(b, pos, u64_le(x)),
        starts_at(b, pos, u64_le(y)),
    ensures
        x == y,
{
    lemma_u64_le_round_trip(x);
    lemma_u64_le_round_trip(y);
}

/// The wire layout keeps every field: two tickets with the same layout are
/// the same ticket, so reading a layout back reproduces the ticket exactly.
pub proof fn lemma_layout_round_trip(v: TicketView, w: TicketView)
    requires
        layout_fits(v),
        layout_fits(w),
        ticket_layout(v) == ticket_layout(w),
    ensures
        v == w,
{
    let b = ticket_layout(v);
    lemma_layout_pieces(b, v);
    lemma_layout_pieces(b, w);
    lemma_text_unique(b, 0, v.event_id, w.event_id);
    let o1 = text_field(v.event_id).len() as int;
    lemma_text_unique(b, o1, v.event_name, w.event_name);
    let o2 = o1 + text_field(v.event_name).len();
    lemma_u64_unique(b, o2, v.event_date as u64, w.event_date as u64);
    lemma_i64_as_u64_round_trip(v.event_date);
    lemma_i64_as_u64_round_trip(w.event_date);
    let o3 = o2 + 8;
    lemma_text_unique(b, o3, v.venue, w.venue);
    let o4 = o3 + text_field(v.venue).len();
    lemma_text_unique(b, o4, v.attendee_name, w.attendee_name);
    let o5 = o4 + text_field(v.attendee_name).len();
    lemma_u64_unique(b, o5, v.price_paid, w.price_paid);
    let o6 = o5 + 8;
    assert(b.subrange(o6, o6 + 1)[0] == status_tag(v.ticket_status));
    assert(b.subrange(o6, o6 + 1)[0] == status_tag(w.ticket_status));
    let o7 = o6 + 1;
    let o8 = o7 + 32;
    let o9 = o8 + 32;
    lemma_u64_unique(b, o9, v.created_at as u64, w.created_at as u64);
    lemma_i64_as_u64_round_trip(v.created_at);
    lemma_i64_as_u64_round_trip(w.created_at);
    let o10 = o9 + 8;
    assert(b.subrange(o10, o10 + 1)[0] == v.bump);
    assert(b.subrange(o10, o10 + 1)[0] == w.bump);
}

} // verus!
