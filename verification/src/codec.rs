//! Binary codec for the entity records.
//!
//! Each record is laid out as a flat byte sequence: 64-bit integers in
//! little-endian order, text as a length-prefixed UTF-8 chunk, optional
//! integers behind a one-byte tag, and embedded sequences as a count followed
//! by the items in order. Every decoder carries the round-trip law in its
//! contract: a byte sequence produced by the matching encoder decodes to the
//! value it came from.

use vstd::prelude::*;
use vstd::utf8::{decode_utf8, encode_utf8, valid_utf8};
use vstd::utf8::{decode_utf8_encode_utf8, encode_utf8_decode_utf8, encode_utf8_valid_utf8};
use vstd::string::StrSliceExecFns;
use crate::types::{Farm, FarmModel, Fish, FishModel, Tank, TankModel};

verus! {

/// Hard ceiling on the byte length of one encoded record.
pub const MAX_RECORD_BYTES: usize = 1024;

/// A 64-bit integer as eight little-endian bytes.
pub open spec fn enc_u64(v: u64) -> Seq<u8> {
    seq![
        (v & 0xff) as u8,
        ((v >> 8) & 0xff) as u8,
        ((v >> 16) & 0xff) as u8,
        ((v >> 24) & 0xff) as u8,
        ((v >> 32) & 0xff) as u8,
        ((v >> 40) & 0xff) as u8,
        ((v >> 48) & 0xff) as u8,
        ((v >> 56) & 0xff) as u8,
    ]
}

/// A byte run prefixed with its length.
pub open spec fn enc_chunk(b: Seq<u8>) -> Seq<u8> {
    enc_u64(b.len() as u64) + b
}

/// Text as a length-prefixed run of its UTF-8 bytes.
pub open spec fn enc_text(s: Seq<char>) -> Seq<u8> {
    enc_chunk(encode_utf8(s))
}

/// An optional integer: tag byte 0, or tag byte 1 followed by the value.
pub open spec fn enc_opt_u64(o: Option<u64>) -> Seq<u8> {
    match o {
        None => seq![0u8],
        Some(v) => seq![1u8] + enc_u64(v),
    }
}

/// The fields of one fish, in declaration order.
pub open spec fn enc_fish(f: FishModel) -> Seq<u8> {
    enc_u64(f.id) + (enc_text(f.species) + (enc_text(f.description) + (enc_u64(f.quantity)
        + (enc_u64(f.age_in_months) + (enc_u64(f.created_at) + enc_opt_u64(f.updated_at))))))
}

/// The items of a fish sequence, back to back.
pub open spec fn enc_fish_list(s: Seq<FishModel>) -> Seq<u8>
    decreases s.len(),
{
    if s.len() == 0 {
        Seq::empty()
    } else {
        enc_fish(s[0]) + enc_fish_list(s.drop_first())
    }
}

/// A fish sequence: its count, then its items.
pub open spec fn enc_fish_seq(s: Seq<FishModel>) -> Seq<u8> {
    enc_u64(s.len() as u64) + enc_fish_list(s)
}

/// The fields of one tank, in declaration order.
pub open spec fn enc_tank(t: TankModel) -> Seq<u8> {
    enc_u64(t.id) + (enc_text(t.tank_name) + (enc_u64(t.capacity_liters)
        + (enc_fish_seq(t.current_stock) + (enc_u64(t.created_at) + enc_opt_u64(t.updated_at)))))
}

/// The items of a tank sequence, back to back.
pub open spec fn enc_tank_list(s: Seq<TankModel>) -> Seq<u8>
    decreases s.len(),
{
    if s.len() == 0 {
        Seq::empty()
    } else {
        enc_tank(s[0]) + enc_tank_list(s.drop_first())
    }
}

/// A tank sequence: its count, then its items.
pub open spec fn enc_tank_seq(s: Seq<TankModel>) -> Seq<u8> {
    enc_u64(s.len() as u64) + enc_tank_list(s)
}

/// The fields of one farm, in declaration order.
pub open spec fn enc_farm(f: FarmModel) -> Seq<u8> {
    enc_u64(f.id) + (enc_text(f.farm_name) + (enc_text(f.location)
        + (enc_tank_seq(f.tanks) + (enc_u64(f.created_at) + enc_opt_u64(f.updated_at)))))
}

/// `piece` occupies `b` from `pos` on.
pub open spec fn starts_at(b: Seq<u8>, pos: int, piece: Seq<u8>) -> bool {
    &&& 0 <= pos
    &&& pos + piece.len() <= b.len()
    &&& forall|i: int| 0 <= i < piece.len() ==> b[pos + i] == piece[i]
}

/// A run that starts at `pos` splits into its two halves.
pub proof fn lemma_starts_split(b: Seq<u8>, pos: int, x: Seq<u8>, y: Seq<u8>)
    requires
        starts_at(b, pos, x + y),
    ensures
        starts_at(b, pos, x),
        starts_at(b, pos + x.len(), y),
{
    assert forall|i: int| 0 <= i < x.len() implies b[pos + i] == x[i] by {
        assert(b[pos + i] == (x + y)[i]);
    }
    assert forall|i: int| 0 <= i < y.len() implies b[(pos + x.len()) + i] == y[i] by {
        assert(b[pos + (x.len() + i)] == (x + y)[x.len() + i]);
    }
}

/// Two adjacent runs join into one.
pub proof fn lemma_starts_join(b: Seq<u8>, pos: int, x: Seq<u8>, y: Seq<u8>)
    requires
        starts_at(b, pos, x),
        starts_at(b, pos + x.len(), y),
    ensures
        starts_at(b, pos, x + y),
{
    assert forall|i: int| 0 <= i < x.len() + y.len() implies b[pos + i] == (x + y)[i] by {
        if i < x.len() {
            assert(b[pos + i] == x[i]);
        } else {
            assert(b[(pos + x.len()) + (i - x.len())] == y[i - x.len()]);
        }
    }
}

proof fn lemma_u64_byte_bounds(v: u64)
    ensures
        v & 0xff < 256,
        (v >> 8) & 0xff < 256,
        (v >> 16) & 0xff < 256,
        (v >> 24) & 0xff < 256,
        (v >> 32) & 0xff < 256,
        (v >> 40) & 0xff < 256,
        (v >> 48) & 0xff < 256,
        (v >> 56) & 0xff < 256,
{
    assert(v & 0xff < 256 && (v >> 8) & 0xff < 256 && (v >> 16) & 0xff < 256 && (v >> 24) & 0xff
        < 256 && (v >> 32) & 0xff < 256 && (v >> 40) & 0xff < 256 && (v >> 48) & 0xff < 256 && (v
        >> 56) & 0xff < 256) by (bit_vector);
}

proof fn lemma_u64_reassemble(v: u64)
    ensures
        ((v & 0xff) as u8) as u64 | ((((v >> 8) & 0xff) as u8) as u64) << 8 | ((((v >> 16)
            & 0xff) as u8) as u64) << 16 | ((((v >> 24) & 0xff) as u8) as u64) << 24 | ((((v >> 32)
            & 0xff) as u8) as u64) << 32 | ((((v >> 40) & 0xff) as u8) as u64) << 40 | ((((v >> 48)
            & 0xff) as u8) as u64) << 48 | ((((v >> 56) & 0xff) as u8) as u64) << 56 == v,
{
    assert(((v & 0xff) as u8) as u64 | ((((v >> 8) & 0xff) as u8) as u64) << 8 | ((((v >> 16)
        & 0xff) as u8) as u64) << 16 | ((((v >> 24) & 0xff) as u8) as u64) << 24 | ((((v >> 32)
        & 0xff) as u8) as u64) << 32 | ((((v >> 40) & 0xff) as u8) as u64) << 40 | ((((v >> 48)
        & 0xff) as u8) as u64) << 48 | ((((v >> 56) & 0xff) as u8) as u64) << 56 == v)
        by (bit_vector);
}

proof fn lemma_u64_decompose(b0: u8, b1: u8, b2: u8, b3: u8, b4: u8, b5: u8, b6: u8, b7: u8)
    ensures
        ({
            let x = b0 as u64 | (b1 as u64) << 8 | (b2 as u64) << 16 | (b3 as u64) << 24 | (
            b4 as u64) << 32 | (b5 as u64) << 40 | (b6 as u64) << 48 | (b7 as u64) << 56;
            (x & 0xff) as u8 == b0 && ((x >> 8) & 0xff) as u8 == b1 && ((x >> 16) & 0xff) as u8
                == b2 && ((x >> 24) & 0xff) as u8 == b3 && ((x >> 32) & 0xff) as u8 == b4 && ((x
                >> 40) & 0xff) as u8 == b5 && ((x >> 48) & 0xff) as u8 == b6 && ((x >> 56)
                & 0xff) as u8 == b7
        }),
{
    let x = b0 as u64 | (b1 as u64) << 8 | (b2 as u64) << 16 | (b3 as u64) << 24 | (b4 as u64)
        << 32 | (b5 as u64) << 40 | (b6 as u64) << 48 | (b7 as u64) << 56;
    assert((x & 0xff) as u8 == b0 && ((x >> 8) & 0xff) as u8 == b1 && ((x >> 16) & 0xff) as u8
        == b2 && ((x >> 24) & 0xff) as u8 == b3 && ((x >> 32) & 0xff) as u8 == b4 && ((x >> 40)
        & 0xff) as u8 == b5 && ((x >> 48) & 0xff) as u8 == b6 && ((x >> 56) & 0xff) as u8 == b7)
        by (bit_vector)
        requires
            x == b0 as u64 | (b1 as u64) << 8 | (b2 as u64) << 16 | (b3 as u64) << 24 | (
            b4 as u64) << 32 | (b5 as u64) << 40 | (b6 as u64) << 48 | (b7 as u64) << 56,
    ;
}

/// Appends the little-endian bytes of `v`.
fn push_u64(out: &mut Vec<u8>, v: u64)
    ensures
        final(out)@ == old(out)@ + enc_u64(v),
{
    proof {
        lemma_u64_byte_bounds(v);
    }
    out.push((v & 0xff) as u8);
    out.push(((v >> 8) & 0xff) as u8);
    out.push(((v >> 16) & 0xff) as u8);
    out.push(((v >> 24) & 0xff) as u8);
    out.push(((v >> 32) & 0xff) as u8);
    out.push(((v >> 40) & 0xff) as u8);
    out.push(((v >> 48) & 0xff) as u8);
    out.push(((v >> 56) & 0xff) as u8);
    proof {
        assert(out@ =~= old(out)@ + enc_u64(v));
    }
}

/// Reads eight little-endian bytes as a 64-bit integer.
fn parse_u64(b: &Vec<u8>, pos: usize) -> (r: Option<(u64, usize)>)
    ensures
        r matches Some((v, end)) ==> end == pos + 8 && starts_at(b@, pos as int, enc_u64(v)),
        forall|w: u64|
            starts_at(b@, pos as int, enc_u64(w)) ==> (r matches Some((v, end)) && v == w && end
                == pos + 8),
{
    if pos >= b.len() || b.len() - pos < 8 {
        return None;
    }
    let b0 = b[pos];
    let b1 = b[pos + 1];
    let b2 = b[pos + 2];
    let b3 = b[pos + 3];
    let b4 = b[pos + 4];
    let b5 = b[pos + 5];
    let b6 = b[pos + 6];
    let b7 = b[pos + 7];
    let x = b0 as u64 | (b1 as u64) << 8u64 | (b2 as u64) << 16u64 | (b3 as u64) << 24u64 | (
    b4 as u64) << 32u64 | (b5 as u64) << 40u64 | (b6 as u64) << 48u64 | (b7 as u64) << 56u64;
    proof {
        lemma_u64_decompose(b0, b1, b2, b3, b4, b5, b6, b7);
        assert forall|i: int| 0 <= i < 8 implies b@[pos + i] == enc_u64(x)[i] by {
            assert(b@[pos + 0] == enc_u64(x)[0]);
            assert(b@[pos + 1] == enc_u64(x)[1]);
            assert(b@[pos + 2] == enc_u64(x)[2]);
            assert(b@[pos + 3] == enc_u64(x)[3]);
            assert(b@[pos + 4] == enc_u64(x)[4]);
            assert(b@[pos + 5] == enc_u64(x)[5]);
            assert(b@[pos + 6] == enc_u64(x)[6]);
            assert(b@[pos + 7] == enc_u64(x)[7]);
        }
        assert forall|w: u64| starts_at(b@, pos as int, enc_u64(w)) implies x == w by {
            assert(b@[pos + 0] == enc_u64(w)[0]);
            assert(b@[pos + 1] == enc_u64(w)[1]);
            assert(b@[pos + 2] == enc_u64(w)[2]);
            assert(b@[pos + 3] == enc_u64(w)[3]);
            assert(b@[pos + 4] == enc_u64(w)[4]);
            assert(b@[pos + 5] == enc_u64(w)[5]);
            assert(b@[pos + 6] == enc_u64(w)[6]);
            assert(b@[pos + 7] == enc_u64(w)[7]);
            lemma_u64_reassemble(w);
        }
    }
    Some((x, pos + 8))
}

/// Copies `b[start..end]` into a fresh vector.
fn copy_range(b: &Vec<u8>, start: usize, end: usize) -> (r: Vec<u8>)
    requires
        start <= end <= b@.len(),
    ensures
        r@ == b@.subrange(start as int, end as int),
{
    let mut out: Vec<u8> = Vec::new();
    let mut i: usize = start;
    while i < end
        invariant
            start <= i <= end <= b@.len(),
            out@ == b@.subrange(start as int, i as int),
        decreases end - i,
    {
        out.push(b[i]);
        i = i + 1;
        proof {
            assert(out@ =~= b@.subrange(start as int, i as int));
        }
    }
    out
}

/// Relies on `String::from_utf8`: it returns the string whose UTF-8 encoding
/// is the given byte sequence, and fails exactly when the bytes are not valid
/// UTF-8.
#[verifier::external_body]
fn bytes_to_string(b: Vec<u8>) -> (r: Option<String>)
    ensures
        r matches Some(s) ==> valid_utf8(b@) && s@ == decode_utf8(b@),
        valid_utf8(b@) ==> r is Some,
{
    String::from_utf8(b).ok()
}

/// Appends text as a length-prefixed run of its UTF-8 bytes.
fn push_text(out: &mut Vec<u8>, s: &String)
    ensures
        final(out)@ == old(out)@ + enc_text(s@),
{
    let mut bytes = s.as_str().as_bytes_vec();
    push_u64(out, bytes.len() as u64);
    out.append(&mut bytes);
    proof {
        assert(out@ =~= old(out)@ + enc_text(s@));
    }
}

/// A chunk that starts at `pos` splits into its length prefix and its bytes.
proof fn lemma_chunk_parts(b: Seq<u8>, pos: int, s: Seq<u8>)
    requires
        starts_at(b, pos, enc_chunk(s)),
    ensures
        starts_at(b, pos, enc_u64(s.len() as u64)),
        starts_at(b, pos + 8, s),
        8 + s.len() <= b.len() - pos,
{
    assert(enc_chunk(s).len() == 8 + s.len());
    lemma_starts_split(b, pos, enc_u64(s.len() as u64), s);
}

/// Reads a length-prefixed run of bytes.
fn parse_chunk(b: &Vec<u8>, pos: usize) -> (r: Option<(Vec<u8>, usize)>)
    ensures
        r matches Some((v, end)) ==> starts_at(b@, pos as int, enc_chunk(v@)) && end == pos
            + enc_chunk(v@).len(),
        forall|s: Seq<u8>|
            starts_at(b@, pos as int, enc_chunk(s)) ==> (r matches Some((v, end)) && v@ == s && end
                == pos + enc_chunk(s).len()),
{
    let blen = b.len();
    match parse_u64(b, pos) {
        None => {
            proof {
                assert forall|s: Seq<u8>| !starts_at(b@, pos as int, enc_chunk(s)) by {
                    if starts_at(b@, pos as int, enc_chunk(s)) {
                        lemma_chunk_parts(b@, pos as int, s);
                    }
                }
            }
            None
        },
        Some((n, p1)) => {
            if n > (blen - p1) as u64 {
                proof {
                    assert forall|s: Seq<u8>| !starts_at(b@, pos as int, enc_chunk(s)) by {
                        if starts_at(b@, pos as int, enc_chunk(s)) {
                            lemma_chunk_parts(b@, pos as int, s);
                            assert(s.len() <= blen - p1);
                        }
                    }
                }
                None
            } else {
                let m = n as usize;
                let v = copy_range(b, p1, p1 + m);
                proof {
                    assert(v@.len() as u64 == n);
                    assert forall|i: int| 0 <= i < m implies b@[p1 + i] == v@[i] by {
                        assert(v@[i] == b@.subrange(p1 as int, (p1 + m) as int)[i]);
                    }
                    assert(starts_at(b@, p1 as int, v@));
                    lemma_starts_join(b@, pos as int, enc_u64(n), v@);
                    assert forall|s: Seq<u8>| starts_at(b@, pos as int, enc_chunk(s)) implies (v@
                        == s && p1 + m == pos + enc_chunk(s).len()) by {
                        lemma_chunk_parts(b@, pos as int, s);
                        assert(v@.len() == s.len());
                        assert forall|i: int| 0 <= i < s.len() implies v@[i] == s[i] by {
                            assert(b@[(pos + 8) + i] == s[i]);
                            assert(b@[p1 + i] == v@[i]);
                        }
                        assert(v@ =~= s);
                    }
                }
                Some((v, p1 + m))
            }
        },
    }
}

/// Reads a length-prefixed run of UTF-8 bytes as text.
fn parse_text(b: &Vec<u8>, pos: usize) -> (r: Option<(String, usize)>)
    ensures
        r matches Some((s, end)) ==> starts_at(b@, pos as int, enc_text(s@)) && end == pos
            + enc_text(s@).len(),
        forall|t: Seq<char>|
            starts_at(b@, pos as int, enc_text(t)) ==> (r matches Some((s, end)) && s@ == t && end
                == pos + enc_text(t).len()),
{
    proof {
        broadcast use encode_utf8_valid_utf8;
        broadcast use encode_utf8_decode_utf8;

    }
    match parse_chunk(b, pos) {
        None => None,
        Some((bytes, end)) => {
            let ghost bv = bytes@;
            match bytes_to_string(bytes) {
                None => None,
                Some(s) => {
                    proof {
                        decode_utf8_encode_utf8(bv);
                        assert(enc_text(s@) == enc_chunk(bv));
                    }
                    Some((s, end))
                },
            }
        },
    }
}

/// Appends an optional integer behind its tag byte.
fn push_opt_u64(out: &mut Vec<u8>, o: &Option<u64>)
    ensures
        final(out)@ == old(out)@ + enc_opt_u64(*o),
{
    match o {
        None => {
            out.push(0u8);
            proof {
                assert(out@ =~= old(out)@ + enc_opt_u64(None::<u64>));
            }
        },
        Some(v) => {
            out.push(1u8);
            push_u64(out, *v);
            proof {
                assert(out@ =~= old(out)@ + enc_opt_u64(Some(*v)));
            }
        },
    }
}

/// Reads an optional integer behind its tag byte.
fn parse_opt_u64(b: &Vec<u8>, pos: usize) -> (r: Option<(Option<u64>, usize)>)
    ensures
        r matches Some((o, end)) ==> starts_at(b@, pos as int, enc_opt_u64(o)) && end == pos
            + enc_opt_u64(o).len(),
        forall|o: Option<u64>|
            starts_at(b@, pos as int, enc_opt_u64(o)) ==> (r matches Some((p, end)) && p == o && end
                == pos + enc_opt_u64(o).len()),
{
    if pos >= b.len() {
        return None;
    }
    let tag = b[pos];
    if tag == 0 {
        proof {
            assert(b@[pos + 0] == enc_opt_u64(None::<u64>)[0]);
            assert(starts_at(b@, pos as int, enc_opt_u64(None::<u64>)));
            assert forall|o: Option<u64>| starts_at(b@, pos as int, enc_opt_u64(o)) implies o
                is None by {
                if o is Some {
                    assert(b@[pos + 0] == enc_opt_u64(o)[0]);
                }
            }
        }
        Some((None, pos + 1))
    } else if tag == 1 {
        proof {
            assert forall|o: Option<u64>| starts_at(b@, pos as int, enc_opt_u64(o)) implies (o
                is Some && starts_at(b@, pos + 1, enc_u64(o.unwrap()))) by {
                assert(b@[pos + 0] == enc_opt_u64(o)[0]);
                match o {
                    Some(w) => lemma_starts_split(b@, pos as int, seq![1u8], enc_u64(w)),
                    None => {},
                }
            }
        }
        match parse_u64(b, pos + 1) {
            None => None,
            Some((v, end)) => {
                proof {
                    assert(b@[pos + 0] == seq![1u8][0]);
                    assert(starts_at(b@, pos as int, seq![1u8]));
                    lemma_starts_join(b@, pos as int, seq![1u8], enc_u64(v));
                }
                Some((Some(v), end))
            },
        }
    } else {
        proof {
            assert forall|o: Option<u64>| !starts_at(b@, pos as int, enc_opt_u64(o)) by {
                if starts_at(b@, pos as int, enc_opt_u64(o)) {
                    assert(b@[pos + 0] == enc_opt_u64(o)[0]);
                }
            }
        }
        None
    }
}

/// Appends the fields of one fish.
fn push_fish(out: &mut Vec<u8>, f: &Fish)
    ensures
        final(out)@ == old(out)@ + enc_fish(f@),
{
    push_u64(out, f.id);
    push_text(out, &f.species);
    push_text(out, &f.description);
    push_u64(out, f.quantity);
    push_u64(out, f.age_in_months);
    push_u64(out, f.created_at);
    push_opt_u64(out, &f.updated_at);
    proof {
        assert(out@ =~= old(out)@ + enc_fish(f@));
    }
}

/// A fish record that starts at `pos` splits into its fields.
proof fn lemma_fish_parts(b: Seq<u8>, pos: int, m: FishModel)
    requires
        starts_at(b, pos, enc_fish(m)),
    ensures
        starts_at(b, pos, enc_u64(m.id)),
        starts_at(b, pos + 8, enc_text(m.species)),
        starts_at(b, pos + 8 + enc_text(m.species).len(), enc_text(m.description)),
        starts_at(
            b,
            pos + 8 + enc_text(m.species).len() + enc_text(m.description).len(),
            enc_u64(m.quantity),
        ),
        starts_at(
            b,
            pos + 16 + enc_text(m.species).len() + enc_text(m.description).len(),
            enc_u64(m.age_in_months),
        ),
        starts_at(
            b,
            pos + 24 + enc_text(m.species).len() + enc_text(m.description).len(),
            enc_u64(m.created_at),
        ),
        starts_at(
            b,
            pos + 32 + enc_text(m.species).len() + enc_text(m.description).len(),
            enc_opt_u64(m.updated_at),
        ),
{
    let rest1 = enc_text(m.species) + (enc_text(m.description) + (enc_u64(m.quantity) + (enc_u64(
        m.age_in_months,
    ) + (enc_u64(m.created_at) + enc_opt_u64(m.updated_at)))));
    let rest2 = enc_text(m.description) + (enc_u64(m.quantity) + (enc_u64(m.age_in_months) + (
    enc_u64(m.created_at) + enc_opt_u64(m.updated_at))));
    let rest3 = enc_u64(m.quantity) + (enc_u64(m.age_in_months) + (enc_u64(m.created_at)
        + enc_opt_u64(m.updated_at)));
    let rest4 = enc_u64(m.age_in_months) + (enc_u64(m.created_at) + enc_opt_u64(m.updated_at));
    let rest5 = enc_u64(m.created_at) + enc_opt_u64(m.updated_at);
    lemma_starts_split(b, pos, enc_u64(m.id), rest1);
    lemma_starts_split(b, pos + 8, enc_text(m.species), rest2);
    lemma_starts_split(b, pos + 8 + enc_text(m.species).len(), enc_text(m.description), rest3);
    lemma_starts_split(
        b,
        pos + 8 + enc_text(m.species).len() + enc_text(m.description).len(),
        enc_u64(m.quantity),
        rest4,
    );
    lemma_starts_split(
        b,
        pos + 16 + enc_text(m.species).len() + enc_text(m.description).len(),
        enc_u64(m.age_in_months),
        rest5,
    );
    lemma_starts_split(
        b,
        pos + 24 + enc_text(m.species).len() + enc_text(m.description).len(),
        enc_u64(m.created_at),
        enc_opt_u64(m.updated_at),
    );
}

/// Reads the fields of one fish.
#[verifier::rlimit(100)]
fn parse_fish(b: &Vec<u8>, pos: usize) -> (r: Option<(Fish, usize)>)
    ensures
        r matches Some((f, end)) ==> starts_at(b@, pos as int, enc_fish(f@)) && end == pos
            + enc_fish(f@).len(),
        forall|m: FishModel|
            starts_at(b@, pos as int, enc_fish(m)) ==> (r matches Some((f, end)) && f@ == m && end
                == pos + enc_fish(m).len()),
{
    let id_r = parse_u64(b, pos);
    if id_r.is_none() {
        proof {
            assert forall|m: FishModel| !starts_at(b@, pos as int, enc_fish(m)) by {
                if starts_at(b@, pos as int, enc_fish(m)) {
                    lemma_fish_parts(b@, pos as int, m);
                }
            }
        }
        return None;
    }
    let (id, p1) = id_r.unwrap();
    let sp_r = parse_text(b, p1);
    if sp_r.is_none() {
        proof {
            assert forall|m: FishModel| !starts_at(b@, pos as int, enc_fish(m)) by {
                if starts_at(b@, pos as int, enc_fish(m)) {
                    lemma_fish_parts(b@, pos as int, m);
                }
            }
        }
        return None;
    }
    let (species, p2) = sp_r.unwrap();
    let de_r = parse_text(b, p2);
    if de_r.is_none() {
        proof {
            assert forall|m: FishModel| !starts_at(b@, pos as int, enc_fish(m)) by {
                if starts_at(b@, pos as int, enc_fish(m)) {
                    lemma_fish_parts(b@, pos as int, m);
                }
            }
        }
        return None;
    }
    let (description, p3) = de_r.unwrap();
    let qu_r = parse_u64(b, p3);
    if qu_r.is_none() {
        proof {
            assert forall|m: FishModel| !starts_at(b@, pos as int, enc_fish(m)) by {
                if starts_at(b@, pos as int, enc_fish(m)) {
                    lemma_fish_parts(b@, pos as int, m);
                }
            }
        }
        return None;
    }
    let (quantity, p4) = qu_r.unwrap();
    let ag_r = parse_u64(b, p4);
    if ag_r.is_none() {
        proof {
            assert forall|m: FishModel| !starts_at(b@, pos as int, enc_fish(m)) by {
                if starts_at(b@, pos as int, enc_fish(m)) {
                    lemma_fish_parts(b@, pos as int, m);
                }
            }
        }
        return None;
    }
    let (age_in_months, p5) = ag_r.unwrap();
    let cr_r = parse_u64(b, p5);
    if cr_r.is_none() {
        proof {
            assert forall|m: FishModel| !starts_at(b@, pos as int, enc_fish(m)) by {
                if starts_at(b@, pos as int, enc_fish(m)) {
                    lemma_fish_parts(b@, pos as int, m);
                }
            }
        }
        return None;
    }
    let (created_at, p6) = cr_r.unwrap();
    let up_r = parse_opt_u64(b, p6);
    if up_r.is_none() {
        proof {
            assert forall|m: FishModel| !starts_at(b@, pos as int, enc_fish(m)) by {
                if starts_at(b@, pos as int, enc_fish(m)) {
                    lemma_fish_parts(b@, pos as int, m);
                }
            }
        }
        return None;
    }
    let (updated_at, end) = up_r.unwrap();
    let fish = Fish { id, species, description, quantity, age_in_months, created_at, updated_at };
    proof {
        let fv = fish@;
        lemma_starts_join(b@, p5 as int, enc_u64(fv.created_at), enc_opt_u64(fv.updated_at));
        lemma_starts_join(
            b@,
            p4 as int,
            enc_u64(fv.age_in_months),
            enc_u64(fv.created_at) + enc_opt_u64(fv.updated_at),
        );
        lemma_starts_join(
            b@,
            p3 as int,
            enc_u64(fv.quantity),
            enc_u64(fv.age_in_months) + (enc_u64(fv.created_at) + enc_opt_u64(fv.updated_at)),
        );
        lemma_starts_join(
            b@,
            p2 as int,
            enc_text(fv.description),
            enc_u64(fv.quantity) + (enc_u64(fv.age_in_months) + (enc_u64(fv.created_at)
                + enc_opt_u64(fv.updated_at))),
        );
        lemma_starts_join(
            b@,
            p1 as int,
            enc_text(fv.species),
            enc_text(fv.description) + (enc_u64(fv.quantity) + (enc_u64(fv.age_in_months) + (
            enc_u64(fv.created_at) + enc_opt_u64(fv.updated_at)))),
        );
        lemma_starts_join(
            b@,
            pos as int,
            enc_u64(fv.id),
            enc_text(fv.species) + (enc_text(fv.description) + (enc_u64(fv.quantity) + (enc_u64(
                fv.age_in_months,
            ) + (enc_u64(fv.created_at) + enc_opt_u64(fv.updated_at))))),
        );
        assert(starts_at(b@, pos as int, enc_fish(fv)));
        assert forall|m: FishModel| starts_at(b@, pos as int, enc_fish(m)) implies (fv == m && end
            == pos + enc_fish(m).len()) by {
            lemma_fish_parts(b@, pos as int, m);
            assert(fv =~= m);
        }
    }
    Some((fish, end))
}

/// An encoded fish list splits at any item into the part before it, the item,
/// and the part after it.
#[verifier::rlimit(100)]
proof fn lemma_fish_list_decompose(s: Seq<FishModel>, i: int)
    requires
        0 <= i < s.len(),
    ensures
        enc_fish_list(s) == enc_fish_list(s.take(i)) + (enc_fish(s[i]) + enc_fish_list(
            s.skip(i + 1),
        )),
    decreases i,
{
    if i == 0 {
        assert(s.take(0) =~= Seq::<FishModel>::empty());
        assert(s.skip(1) =~= s.drop_first());
        assert(enc_fish_list(s.take(0)) + (enc_fish(s[0]) + enc_fish_list(s.skip(1)))
            =~= enc_fish_list(s));
    } else {
        let d = s.drop_first();
        lemma_fish_list_decompose(d, i - 1);
        assert(d.take(i - 1) =~= s.take(i).drop_first());
        assert(d.skip(i) =~= s.skip(i + 1));
        assert(d[i - 1] == s[i]);
        assert(s.take(i)[0] == s[0]);
        assert(enc_fish_list(s.take(i)) == enc_fish(s[0]) + enc_fish_list(d.take(i - 1)));
        assert(enc_fish_list(s) =~= enc_fish_list(s.take(i)) + (enc_fish(s[i]) + enc_fish_list(
            s.skip(i + 1),
        )));
    }
}

/// Extending the encoded prefix of a fish list by one item.
proof fn lemma_fish_list_snoc(s: Seq<FishModel>, i: int)
    requires
        0 <= i < s.len(),
    ensures
        enc_fish_list(s.take(i + 1)) == enc_fish_list(s.take(i)) + enc_fish(s[i]),
{
    let t = s.take(i + 1);
    lemma_fish_list_decompose(t, i);
    assert(t.take(i) =~= s.take(i));
    assert(t.skip(i + 1) =~= Seq::<FishModel>::empty());
    assert(enc_fish_list(t.take(i)) + (enc_fish(t[i]) + enc_fish_list(t.skip(i + 1)))
        =~= enc_fish_list(s.take(i)) + enc_fish(s[i]));
}

/// Every item of a fish list takes at least one byte.
proof fn lemma_fish_list_len_lb(s: Seq<FishModel>)
    ensures
        enc_fish_list(s).len() >= s.len(),
    decreases s.len(),
{
    if s.len() > 0 {
        lemma_fish_list_len_lb(s.drop_first());
    }
}

/// Appends a fish sequence: its count, then its items.
fn push_fish_seq(out: &mut Vec<u8>, items: &Vec<Fish>)
    ensures
        final(out)@ == old(out)@ + enc_fish_seq(items.deep_view()),
{
    let ghost dv = items.deep_view();
    let n = items.len();
    push_u64(out, n as u64);
    proof {
        assert(dv.len() == items@.len());
    }
    let mut i: usize = 0;
    while i < n
        invariant
            i <= n,
            n == items@.len(),
            dv == items.deep_view(),
            dv.len() == n,
            out@ == old(out)@ + enc_u64(n as u64) + enc_fish_list(dv.take(i as int)),
        decreases n - i,
    {
        push_fish(out, &items[i]);
        proof {
            lemma_fish_list_snoc(dv, i as int);
            assert(dv[i as int] == items@[i as int]@);
            assert(out@ =~= old(out)@ + enc_u64(n as u64) + enc_fish_list(dv.take(i + 1)));
        }
        i = i + 1;
    }
    proof {
        assert(dv.take(n as int) =~= dv);
        assert(out@ =~= old(out)@ + enc_fish_seq(dv));
    }
}

/// Reads a fish sequence: its count, then its items.
#[verifier::rlimit(100)]
fn parse_fish_seq(b: &Vec<u8>, pos: usize) -> (r: Option<(Vec<Fish>, usize)>)
    ensures
        r matches Some((v, end)) ==> starts_at(b@, pos as int, enc_fish_seq(v.deep_view())) && end
            == pos + enc_fish_seq(v.deep_view()).len(),
        forall|s: Seq<FishModel>|
            starts_at(b@, pos as int, enc_fish_seq(s)) ==> (r matches Some((v, end))
                && v.deep_view() == s && end == pos + enc_fish_seq(s).len()),
{
    let blen = b.len();
    let cnt_r = parse_u64(b, pos);
    if cnt_r.is_none() {
        proof {
            assert forall|s: Seq<FishModel>| !starts_at(b@, pos as int, enc_fish_seq(s)) by {
                if starts_at(b@, pos as int, enc_fish_seq(s)) {
                    lemma_starts_split(b@, pos as int, enc_u64(s.len() as u64), enc_fish_list(s));
                }
            }
        }
        return None;
    }
    let (n, p1) = cnt_r.unwrap();
    proof {
        assert forall|s: Seq<FishModel>| starts_at(b@, pos as int, enc_fish_seq(s)) implies (s.len()
            == n && starts_at(b@, p1 as int, enc_fish_list(s))) by {
            lemma_starts_split(b@, pos as int, enc_u64(s.len() as u64), enc_fish_list(s));
            lemma_fish_list_len_lb(s);
            assert(s.len() <= blen);
        }
    }
    let mut out: Vec<Fish> = Vec::new();
    let mut cur: usize = p1;
    let mut i: u64 = 0;
    while i < n
        invariant
            0 <= i <= n,
            p1 == pos + 8 <= blen == b@.len(),
            p1 <= cur <= blen,
            out.deep_view().len() == i,
            starts_at(b@, p1 as int, enc_fish_list(out.deep_view())),
            cur == p1 + enc_fish_list(out.deep_view()).len(),
            forall|s: Seq<FishModel>|
                starts_at(b@, pos as int, enc_fish_seq(s)) ==> (s.len() == n && out.deep_view()
                    == s.take(i as int) && starts_at(b@, p1 as int, enc_fish_list(s))),
        decreases n - i,
    {
        let ghost old_dv = out.deep_view();
        let fish_r = parse_fish(b, cur);
        if fish_r.is_none() {
            proof {
                assert forall|s: Seq<FishModel>| !starts_at(b@, pos as int, enc_fish_seq(s)) by {
                    if starts_at(b@, pos as int, enc_fish_seq(s)) {
                        lemma_fish_list_decompose(s, i as int);
                        lemma_starts_split(
                            b@,
                            p1 as int,
                            enc_fish_list(s.take(i as int)),
                            enc_fish(s[i as int]) + enc_fish_list(s.skip(i as int + 1)),
                        );
                        lemma_starts_split(
                            b@,
                            p1 + enc_fish_list(s.take(i as int)).len(),
                            enc_fish(s[i as int]),
                            enc_fish_list(s.skip(i as int + 1)),
                        );
                        assert(starts_at(b@, cur as int, enc_fish(s[i as int])));
                    }
                }
            }
            return None;
        }
        let (fish, next) = fish_r.unwrap();
        proof {
            let fv = fish@;
            lemma_starts_join(b@, p1 as int, enc_fish_list(old_dv), enc_fish(fv));
            lemma_fish_list_snoc(old_dv.push(fv), i as int);
            assert(old_dv.push(fv).take(i as int) =~= old_dv);
            assert(old_dv.push(fv).take(i as int + 1) =~= old_dv.push(fv));
            assert(enc_fish_list(old_dv.push(fv)) == enc_fish_list(old_dv) + enc_fish(fv));
            assert forall|s: Seq<FishModel>|
                starts_at(b@, pos as int, enc_fish_seq(s)) implies (old_dv.push(fv) == s.take(
                i as int + 1,
            ) && cur + enc_fish(fv).len() == p1 + enc_fish_list(s.take(i as int + 1)).len()) by {
                lemma_fish_list_decompose(s, i as int);
                lemma_starts_split(
                    b@,
                    p1 as int,
                    enc_fish_list(s.take(i as int)),
                    enc_fish(s[i as int]) + enc_fish_list(s.skip(i as int + 1)),
                );
                lemma_starts_split(
                    b@,
                    p1 + enc_fish_list(s.take(i as int)).len(),
                    enc_fish(s[i as int]),
                    enc_fish_list(s.skip(i as int + 1)),
                );
                assert(starts_at(b@, cur as int, enc_fish(s[i as int])));
                assert(fv == s[i as int]);
                lemma_fish_list_snoc(s, i as int);
                assert(old_dv.push(fv) =~= s.take(i as int + 1));
            }
        }
        out.push(fish);
        proof {
            assert(out.deep_view() =~= old_dv.push(fish@));
        }
        cur = next;
        i = i + 1;
    }
    proof {
        lemma_starts_join(b@, pos as int, enc_u64(n), enc_fish_list(out.deep_view()));
        assert(out.deep_view().len() as u64 == n);
        assert(enc_u64(n) + enc_fish_list(out.deep_view()) == enc_fish_seq(out.deep_view()));
        assert forall|s: Seq<FishModel>|
            starts_at(b@, pos as int, enc_fish_seq(s)) implies (out.deep_view() == s && cur == pos
            + enc_fish_seq(s).len()) by {
            assert(out.deep_view() == s.take(i as int));
            assert(s.take(i as int) =~= s);
        }
    }
    Some((out, cur))
}

/// Appends the fields of one tank.
fn push_tank(out: &mut Vec<u8>, t: &Tank)
    ensures
        final(out)@ == old(out)@ + enc_tank(t@),
{
    push_u64(out, t.id);
    push_text(out, &t.tank_name);
    push_u64(out, t.capacity_liters);
    push_fish_seq(out, &t.current_stock);
    push_u64(out, t.created_at);
    push_opt_u64(out, &t.updated_at);
    proof {
        assert(out@ =~= old(out)@ + enc_tank(t@));
    }
}

/// A tank record that starts at `pos` splits into its fields.
proof fn lemma_tank_parts(b: Seq<u8>, pos: int, m: TankModel)
    requires
        starts_at(b, pos, enc_tank(m)),
    ensures
        starts_at(b, pos, enc_u64(m.id)),
        starts_at(b, pos + 8, enc_text(m.tank_name)),
        starts_at(b, pos + 8 + enc_text(m.tank_name).len(), enc_u64(m.capacity_liters)),
        starts_at(b, pos + 16 + enc_text(m.tank_name).len(), enc_fish_seq(m.current_stock)),
        starts_at(
            b,
            pos + 16 + enc_text(m.tank_name).len() + enc_fish_seq(m.current_stock).len(),
            enc_u64(m.created_at),
        ),
        starts_at(
            b,
            pos + 24 + enc_text(m.tank_name).len() + enc_fish_seq(m.current_stock).len(),
            enc_opt_u64(m.updated_at),
        ),
{
    let rest1 = enc_text(m.tank_name) + (enc_u64(m.capacity_liters) + (enc_fish_seq(
        m.current_stock,
    ) + (enc_u64(m.created_at) + enc_opt_u64(m.updated_at))));
    let rest2 = enc_u64(m.capacity_liters) + (enc_fish_seq(m.current_stock) + (enc_u64(
        m.created_at,
    ) + enc_opt_u64(m.updated_at)));
    let rest3 = enc_fish_seq(m.current_stock) + (enc_u64(m.created_at) + enc_opt_u64(m.updated_at));
    let rest4 = enc_u64(m.created_at) + enc_opt_u64(m.updated_at);
    lemma_starts_split(b, pos, enc_u64(m.id), rest1);
    lemma_starts_split(b, pos + 8, enc_text(m.tank_name), rest2);
    lemma_starts_split(b, pos + 8 + enc_text(m.tank_name).len(), enc_u64(m.capacity_liters), rest3);
    lemma_starts_split(
        b,
        pos + 16 + enc_text(m.tank_name).len(),
        enc_fish_seq(m.current_stock),
        rest4,
    );
    lemma_starts_split(
        b,
        pos + 16 + enc_text(m.tank_name).len() + enc_fish_seq(m.current_stock).len(),
        enc_u64(m.created_at),
        enc_opt_u64(m.updated_at),
    );
}

/// Reads the fields of one tank.
#[verifier::rlimit(100)]
fn parse_tank(b: &Vec<u8>, pos: usize) -> (r: Option<(Tank, usize)>)
    ensures
        r matches Some((t, end)) ==> starts_at(b@, pos as int, enc_tank(t@)) && end == pos
            + enc_tank(t@).len(),
        forall|m: TankModel|
            starts_at(b@, pos as int, enc_tank(m)) ==> (r matches Some((t, end)) && t@ == m && end
                == pos + enc_tank(m).len()),
{
    let id_r = parse_u64(b, pos);
    let na_r = if let Some((_, p)) = id_r {
        parse_text(b, p)
    } else {
        None
    };
    let ca_r = if let Some((_, p)) = na_r {
        parse_u64(b, p)
    } else {
        None
    };
    let st_r = if let Some((_, p)) = ca_r {
        parse_fish_seq(b, p)
    } else {
        None
    };
    let cr_r = if let Some((_, p)) = st_r {
        parse_u64(b, p)
    } else {
        None
    };
    let up_r = if let Some((_, p)) = cr_r {
        parse_opt_u64(b, p)
    } else {
        None
    };
    proof {
        assert forall|m: TankModel| starts_at(b@, pos as int, enc_tank(m)) implies ({
            let o2 = pos + 8 + enc_text(m.tank_name).len();
            let o4 = o2 + 8 + enc_fish_seq(m.current_stock).len();
            &&& (id_r matches Some((v, e)) && v == m.id && e == pos + 8)
            &&& (na_r matches Some((v, e)) && v@ == m.tank_name && e == o2)
            &&& (ca_r matches Some((v, e)) && v == m.capacity_liters && e == o2 + 8)
            &&& (st_r matches Some((v, e)) && v.deep_view() == m.current_stock && e == o4)
            &&& (cr_r matches Some((v, e)) && v == m.created_at && e == o4 + 8)
            &&& (up_r matches Some((v, e)) && v == m.updated_at && e == pos + enc_tank(m).len())
        }) by {
            lemma_tank_parts(b@, pos as int, m);
        }
    }
    if id_r.is_some() && na_r.is_some() && ca_r.is_some() && st_r.is_some() && cr_r.is_some()
        && up_r.is_some() {
        let (id, _) = id_r.unwrap();
        let (tank_name, _) = na_r.unwrap();
        let (capacity_liters, _) = ca_r.unwrap();
        let (current_stock, _) = st_r.unwrap();
        let (created_at, _) = cr_r.unwrap();
        let (updated_at, end) = up_r.unwrap();
        let tank = Tank { id, tank_name, capacity_liters, current_stock, created_at, updated_at };
        proof {
            let tv = tank@;
            lemma_starts_join(b@, (pos + 16 + enc_text(tv.tank_name).len()
                + enc_fish_seq(tv.current_stock).len()) as int, enc_u64(tv.created_at), enc_opt_u64(tv.updated_at));
            lemma_starts_join(
                b@,
                (pos + 16 + enc_text(tv.tank_name).len()) as int,
                enc_fish_seq(tv.current_stock),
                enc_u64(tv.created_at) + enc_opt_u64(tv.updated_at),
            );
            lemma_starts_join(
                b@,
                (pos + 8 + enc_text(tv.tank_name).len()) as int,
                enc_u64(tv.capacity_liters),
                enc_fish_seq(tv.current_stock) + (enc_u64(tv.created_at) + enc_opt_u64(
                    tv.updated_at,
                )),
            );
            lemma_starts_join(
                b@,
                (pos + 8) as int,
                enc_text(tv.tank_name),
                enc_u64(tv.capacity_liters) + (enc_fish_seq(tv.current_stock) + (enc_u64(
                    tv.created_at,
                ) + enc_opt_u64(tv.updated_at))),
            );
            lemma_starts_join(
                b@,
                pos as int,
                enc_u64(tv.id),
                enc_text(tv.tank_name) + (enc_u64(tv.capacity_liters) + (enc_fish_seq(
                    tv.current_stock,
                ) + (enc_u64(tv.created_at) + enc_opt_u64(tv.updated_at)))),
            );
            assert(starts_at(b@, pos as int, enc_tank(tv)));
            assert forall|m: TankModel| starts_at(b@, pos as int, enc_tank(m)) implies (tv == m
                && end == pos + enc_tank(m).len()) by {
                assert(tv =~= m);
            }
        }
        Some((tank, end))
    } else {
        None
    }
}

/// An encoded tank list splits at any item into the part before it, the item,
/// and the part after it.
#[verifier::rlimit(100)]
proof fn lemma_tank_list_decompose(s: Seq<TankModel>, i: int)
    requires
        0 <= i < s.len(),
    ensures
        enc_tank_list(s) == enc_tank_list(s.take(i)) + (enc_tank(s[i]) + enc_tank_list(
            s.skip(i + 1),
        )),
    decreases i,
{
    if i == 0 {
        assert(s.take(0) =~= Seq::<TankModel>::empty());
        assert(s.skip(1) =~= s.drop_first());
        assert(enc_tank_list(s.take(0)) + (enc_tank(s[0]) + enc_tank_list(s.skip(1)))
            =~= enc_tank_list(s));
    } else {
        let d = s.drop_first();
        lemma_tank_list_decompose(d, i - 1);
        assert(d.take(i - 1) =~= s.take(i).drop_first());
        assert(d.skip(i) =~= s.skip(i + 1));
        assert(d[i - 1] == s[i]);
        assert(s.take(i)[0] == s[0]);
        assert(enc_tank_list(s.take(i)) == enc_tank(s[0]) + enc_tank_list(d.take(i - 1)));
        assert(enc_tank_list(s) =~= enc_tank_list(s.take(i)) + (enc_tank(s[i]) + enc_tank_list(
            s.skip(i + 1),
        )));
    }
}

/// Extending the encoded prefix of a tank list by one item.
proof fn lemma_tank_list_snoc(s: Seq<TankModel>, i: int)
    requires
        0 <= i < s.len(),
    ensures
        enc_tank_list(s.take(i + 1)) == enc_tank_list(s.take(i)) + enc_tank(s[i]),
{
    let t = s.take(i + 1);
    lemma_tank_list_decompose(t, i);
    assert(t.take(i) =~= s.take(i));
    assert(t.skip(i + 1) =~= Seq::<TankModel>::empty());
    assert(enc_tank_list(t.take(i)) + (enc_tank(t[i]) + enc_tank_list(t.skip(i + 1)))
        =~= enc_tank_list(s.take(i)) + enc_tank(s[i]));
}

/// Every item of a tank list takes at least one byte.
proof fn lemma_tank_list_len_lb(s: Seq<TankModel>)
    ensures
        enc_tank_list(s).len() >= s.len(),
    decreases s.len(),
{
    if s.len() > 0 {
        lemma_tank_list_len_lb(s.drop_first());
    }
}

/// Appends a tank sequence: its count, then its items.
fn push_tank_seq(out: &mut Vec<u8>, items: &Vec<Tank>)
    ensures
        final(out)@ == old(out)@ + enc_tank_seq(items.deep_view()),
{
    let ghost dv = items.deep_view();
    let n = items.len();
    push_u64(out, n as u64);
    proof {
        assert(dv.len() == items@.len());
    }
    let mut i: usize = 0;
    while i < n
        invariant
            i <= n,
            n == items@.len(),
            dv == items.deep_view(),
            dv.len() == n,
            out@ == old(out)@ + enc_u64(n as u64) + enc_tank_list(dv.take(i as int)),
        decreases n - i,
    {
        push_tank(out, &items[i]);
        proof {
            lemma_tank_list_snoc(dv, i as int);
            assert(dv[i as int] == items@[i as int]@);
            assert(out@ =~= old(out)@ + enc_u64(n as u64) + enc_tank_list(dv.take(i + 1)));
        }
        i = i + 1;
    }
    proof {
        assert(dv.take(n as int) =~= dv);
        assert(out@ =~= old(out)@ + enc_tank_seq(dv));
    }
}

/// Reads a tank sequence: its count, then its items.
#[verifier::rlimit(100)]
fn parse_tank_seq(b: &Vec<u8>, pos: usize) -> (r: Option<(Vec<Tank>, usize)>)
    ensures
        r matches Some((v, end)) ==> starts_at(b@, pos as int, enc_tank_seq(v.deep_view())) && end
            == pos + enc_tank_seq(v.deep_view()).len(),
        forall|s: Seq<TankModel>|
            starts_at(b@, pos as int, enc_tank_seq(s)) ==> (r matches Some((v, end))
                && v.deep_view() == s && end == pos + enc_tank_seq(s).len()),
{
    let blen = b.len();
    let cnt_r = parse_u64(b, pos);
    if cnt_r.is_none() {
        proof {
            assert forall|s: Seq<TankModel>| !starts_at(b@, pos as int, enc_tank_seq(s)) by {
                if starts_at(b@, pos as int, enc_tank_seq(s)) {
                    lemma_starts_split(b@, pos as int, enc_u64(s.len() as u64), enc_tank_list(s));
                }
            }
        }
        return None;
    }
    let (n, p1) = cnt_r.unwrap();
    proof {
        assert forall|s: Seq<TankModel>| starts_at(b@, pos as int, enc_tank_seq(s)) implies (s.len()
            == n && starts_at(b@, p1 as int, enc_tank_list(s))) by {
            lemma_starts_split(b@, pos as int, enc_u64(s.len() as u64), enc_tank_list(s));
            lemma_tank_list_len_lb(s);
            assert(s.len() <= blen);
        }
    }
    let mut out: Vec<Tank> = Vec::new();
    let mut cur: usize = p1;
    let mut i: u64 = 0;
    while i < n
        invariant
            0 <= i <= n,
            p1 == pos + 8 <= blen == b@.len(),
            p1 <= cur <= blen,
            out.deep_view().len() == i,
            starts_at(b@, p1 as int, enc_tank_list(out.deep_view())),
            cur == p1 + enc_tank_list(out.deep_view()).len(),
            forall|s: Seq<TankModel>|
                starts_at(b@, pos as int, enc_tank_seq(s)) ==> (s.len() == n && out.deep_view()
                    == s.take(i as int) && starts_at(b@, p1 as int, enc_tank_list(s))),
        decreases n - i,
    {
        let ghost old_dv = out.deep_view();
        let tank_r = parse_tank(b, cur);
        if tank_r.is_none() {
            proof {
                assert forall|s: Seq<TankModel>| !starts_at(b@, pos as int, enc_tank_seq(s)) by {
                    if starts_at(b@, pos as int, enc_tank_seq(s)) {
                        lemma_tank_list_decompose(s, i as int);
                        lemma_starts_split(
                            b@,
                            p1 as int,
                            enc_tank_list(s.take(i as int)),
                            enc_tank(s[i as int]) + enc_tank_list(s.skip(i as int + 1)),
                        );
                        lemma_starts_split(
                            b@,
                            p1 + enc_tank_list(s.take(i as int)).len(),
                            enc_tank(s[i as int]),
                            enc_tank_list(s.skip(i as int + 1)),
                        );
                        assert(starts_at(b@, cur as int, enc_tank(s[i as int])));
                    }
                }
            }
            return None;
        }
        let (tank, next) = tank_r.unwrap();
        proof {
            let tv = tank@;
            lemma_starts_join(b@, p1 as int, enc_tank_list(old_dv), enc_tank(tv));
            lemma_tank_list_snoc(old_dv.push(tv), i as int);
            assert(old_dv.push(tv).take(i as int) =~= old_dv);
            assert(old_dv.push(tv).take(i as int + 1) =~= old_dv.push(tv));
            assert(enc_tank_list(old_dv.push(tv)) == enc_tank_list(old_dv) + enc_tank(tv));
            assert forall|s: Seq<TankModel>|
                starts_at(b@, pos as int, enc_tank_seq(s)) implies (old_dv.push(tv) == s.take(
                i as int + 1,
            ) && cur + enc_tank(tv).len() == p1 + enc_tank_list(s.take(i as int + 1)).len()) by {
                lemma_tank_list_decompose(s, i as int);
                lemma_starts_split(
                    b@,
                    p1 as int,
                    enc_tank_list(s.take(i as int)),
                    enc_tank(s[i as int]) + enc_tank_list(s.skip(i as int + 1)),
                );
                lemma_starts_split(
                    b@,
                    p1 + enc_tank_list(s.take(i as int)).len(),
                    enc_tank(s[i as int]),
                    enc_tank_list(s.skip(i as int + 1)),
                );
                assert(starts_at(b@, cur as int, enc_tank(s[i as int])));
                assert(tv == s[i as int]);
                lemma_tank_list_snoc(s, i as int);
                assert(old_dv.push(tv) =~= s.take(i as int + 1));
            }
        }
        out.push(tank);
        proof {
            assert(out.deep_view() =~= old_dv.push(tank@));
        }
        cur = next;
        i = i + 1;
    }
    proof {
        lemma_starts_join(b@, pos as int, enc_u64(n), enc_tank_list(out.deep_view()));
        assert(out.deep_view().len() as u64 == n);
        assert(enc_u64(n) + enc_tank_list(out.deep_view()) == enc_tank_seq(out.deep_view()));
        assert forall|s: Seq<TankModel>|
            starts_at(b@, pos as int, enc_tank_seq(s)) implies (out.deep_view() == s && cur == pos
            + enc_tank_seq(s).len()) by {
            assert(out.deep_view() == s.take(i as int));
            assert(s.take(i as int) =~= s);
        }
    }
    Some((out, cur))
}

/// Appends the fields of one farm.
fn push_farm(out: &mut Vec<u8>, f: &Farm)
    ensures
        final(out)@ == old(out)@ + enc_farm(f@),
{
    push_u64(out, f.id);
    push_text(out, &f.farm_name);
    push_text(out, &f.location);
    push_tank_seq(out, &f.tanks);
    push_u64(out, f.created_at);
    push_opt_u64(out, &f.updated_at);
    proof {
        assert(out@ =~= old(out)@ + enc_farm(f@));
    }
}

/// A farm record that starts at `pos` splits into its fields.
proof fn lemma_farm_parts(b: Seq<u8>, pos: int, m: FarmModel)
    requires
        starts_at(b, pos, enc_farm(m)),
    ensures
        starts_at(b, pos, enc_u64(m.id)),
        starts_at(b, pos + 8, enc_text(m.farm_name)),
        starts_at(b, pos + 8 + enc_text(m.farm_name).len(), enc_text(m.location)),
        starts_at(
            b,
            pos + 8 + enc_text(m.farm_name).len() + enc_text(m.location).len(),
            enc_tank_seq(m.tanks),
        ),
        starts_at(
            b,
            pos + 8 + enc_text(m.farm_name).len() + enc_text(m.location).len() + enc_tank_seq(
                m.tanks,
            ).len(),
            enc_u64(m.created_at),
        ),
        starts_at(
            b,
            pos + 16 + enc_text(m.farm_name).len() + enc_text(m.location).len() + enc_tank_seq(
                m.tanks,
            ).len(),
            enc_opt_u64(m.updated_at),
        ),
{
    let rest1 = enc_text(m.farm_name) + (enc_text(m.location) + (enc_tank_seq(m.tanks) + (enc_u64(
        m.created_at,
    ) + enc_opt_u64(m.updated_at))));
    let rest2 = enc_text(m.location) + (enc_tank_seq(m.tanks) + (enc_u64(m.created_at)
        + enc_opt_u64(m.updated_at)));
    let rest3 = enc_tank_seq(m.tanks) + (enc_u64(m.created_at) + enc_opt_u64(m.updated_at));
    let rest4 = enc_u64(m.created_at) + enc_opt_u64(m.updated_at);
    lemma_starts_split(b, pos, enc_u64(m.id), rest1);
    lemma_starts_split(b, pos + 8, enc_text(m.farm_name), rest2);
    lemma_starts_split(b, pos + 8 + enc_text(m.farm_name).len(), enc_text(m.location), rest3);
    lemma_starts_split(
        b,
        pos + 8 + enc_text(m.farm_name).len() + enc_text(m.location).len(),
        enc_tank_seq(m.tanks),
        rest4,
    );
    lemma_starts_split(
        b,
        pos + 8 + enc_text(m.farm_name).len() + enc_text(m.location).len() + enc_tank_seq(
            m.tanks,
        ).len(),
        enc_u64(m.created_at),
        enc_opt_u64(m.updated_at),
    );
}

/// Reads the fields of one farm.
#[verifier::rlimit(100)]
fn parse_farm(b: &Vec<u8>, pos: usize) -> (r: Option<(Farm, usize)>)
    ensures
        r matches Some((f, end)) ==> starts_at(b@, pos as int, enc_farm(f@)) && end == pos
            + enc_farm(f@).len(),
        forall|m: FarmModel|
            starts_at(b@, pos as int, enc_farm(m)) ==> (r matches Some((f, end)) && f@ == m && end
                == pos + enc_farm(m).len()),
{
    let id_r = parse_u64(b, pos);
    let na_r = if let Some((_, p)) = id_r {
        parse_text(b, p)
    } else {
        None
    };
    let lo_r = if let Some((_, p)) = na_r {
        parse_text(b, p)
    } else {
        None
    };
    let ta_r = if let Some((_, p)) = lo_r {
        parse_tank_seq(b, p)
    } else {
        None
    };
    let cr_r = if let Some((_, p)) = ta_r {
        parse_u64(b, p)
    } else {
        None
    };
    let up_r = if let Some((_, p)) = cr_r {
        parse_opt_u64(b, p)
    } else {
        None
    };
    proof {
        assert forall|m: FarmModel| starts_at(b@, pos as int, enc_farm(m)) implies ({
            let o2 = pos + 8 + enc_text(m.farm_name).len();
            let o3 = o2 + enc_text(m.location).len();
            let o4 = o3 + enc_tank_seq(m.tanks).len();
            &&& (id_r matches Some((v, e)) && v == m.id && e == pos + 8)
            &&& (na_r matches Some((v, e)) && v@ == m.farm_name && e == o2)
            &&& (lo_r matches Some((v, e)) && v@ == m.location && e == o3)
            &&& (ta_r matches Some((v, e)) && v.deep_view() == m.tanks && e == o4)
            &&& (cr_r matches Some((v, e)) && v == m.created_at && e == o4 + 8)
            &&& (up_r matches Some((v, e)) && v == m.updated_at && e == pos + enc_farm(m).len())
        }) by {
            lemma_farm_parts(b@, pos as int, m);
        }
    }
    if id_r.is_some() && na_r.is_some() && lo_r.is_some() && ta_r.is_some() && cr_r.is_some()
        && up_r.is_some() {
        let (id, _) = id_r.unwrap();
        let (farm_name, _) = na_r.unwrap();
        let (location, _) = lo_r.unwrap();
        let (tanks, _) = ta_r.unwrap();
        let (created_at, _) = cr_r.unwrap();
        let (updated_at, end) = up_r.unwrap();
        let farm = Farm { id, farm_name, location, tanks, created_at, updated_at };
        proof {
            let fv = farm@;
            lemma_starts_join(
                b@,
                pos + 8 + enc_text(fv.farm_name).len() + enc_text(fv.location).len()
                    + enc_tank_seq(fv.tanks).len(),
                enc_u64(fv.created_at),
                enc_opt_u64(fv.updated_at),
            );
            lemma_starts_join(
                b@,
                pos + 8 + enc_text(fv.farm_name).len() + enc_text(fv.location).len(),
                enc_tank_seq(fv.tanks),
                enc_u64(fv.created_at) + enc_opt_u64(fv.updated_at),
            );
            lemma_starts_join(
                b@,
                pos + 8 + enc_text(fv.farm_name).len(),
                enc_text(fv.location),
                enc_tank_seq(fv.tanks) + (enc_u64(fv.created_at) + enc_opt_u64(fv.updated_at)),
            );
            lemma_starts_join(
                b@,
                pos + 8,
                enc_text(fv.farm_name),
                enc_text(fv.location) + (enc_tank_seq(fv.tanks) + (enc_u64(fv.created_at)
                    + enc_opt_u64(fv.updated_at))),
            );
            lemma_starts_join(
                b@,
                pos as int,
                enc_u64(fv.id),
                enc_text(fv.farm_name) + (enc_text(fv.location) + (enc_tank_seq(fv.tanks) + (
                enc_u64(fv.created_at) + enc_opt_u64(fv.updated_at)))),
            );
            assert(starts_at(b@, pos as int, enc_farm(fv)));
            assert forall|m: FarmModel| starts_at(b@, pos as int, enc_farm(m)) implies (fv == m
                && end == pos + enc_farm(m).len()) by {
                assert(fv =~= m);
            }
        }
        Some((farm, end))
    } else {
        None
    }
}

/// Encodes one fish.
pub fn encode_fish(f: &Fish) -> (r: Vec<u8>)
    ensures
        r@ == enc_fish(f@),
{
    let mut out: Vec<u8> = Vec::new();
    push_fish(&mut out, f);
    proof {
        assert(out@ =~= enc_fish(f@));
    }
    out
}

/// Encodes one tank.
pub fn encode_tank(t: &Tank) -> (r: Vec<u8>)
    ensures
        r@ == enc_tank(t@),
{
    let mut out: Vec<u8> = Vec::new();
    push_tank(&mut out, t);
    proof {
        assert(out@ =~= enc_tank(t@));
    }
    out
}

/// Encodes one farm.
pub fn encode_farm(f: &Farm) -> (r: Vec<u8>)
    ensures
        r@ == enc_farm(f@),
{
    let mut out: Vec<u8> = Vec::new();
    push_farm(&mut out, f);
    proof {
        assert(out@ =~= enc_farm(f@));
    }
    out
}

/// Decodes one fish. The bytes of an encoded fish decode to that fish: this
/// is the round-trip law, and the only bytes accepted are exact encodings.
pub fn decode_fish(b: &Vec<u8>) -> (r: Option<Fish>)
    ensures
        r matches Some(f) ==> b@ == enc_fish(f@),
        forall|m: FishModel| b@ == enc_fish(m) ==> (r matches Some(f) && f@ == m),
{
    proof {
        assert forall|m: FishModel| b@ == enc_fish(m) implies starts_at(b@, 0, enc_fish(m)) by {}
    }
    match parse_fish(b, 0) {
        Some((f, end)) => {
            if end == b.len() {
                proof {
                    assert(b@ =~= enc_fish(f@));
                }
                Some(f)
            } else {
                None
            }
        },
        None => None,
    }
}

/// Decodes one tank, under the same round-trip law as `decode_fish`.
pub fn decode_tank(b: &Vec<u8>) -> (r: Option<Tank>)
    ensures
        r matches Some(t) ==> b@ == enc_tank(t@),
        forall|m: TankModel| b@ == enc_tank(m) ==> (r matches Some(t) && t@ == m),
{
    proof {
        assert forall|m: TankModel| b@ == enc_tank(m) implies starts_at(b@, 0, enc_tank(m)) by {}
    }
    match parse_tank(b, 0) {
        Some((t, end)) => {
            if end == b.len() {
                proof {
                    assert(b@ =~= enc_tank(t@));
                }
                Some(t)
            } else {
                None
            }
        },
        None => None,
    }
}

/// Decodes one farm, under the same round-trip law as `decode_fish`.
pub fn decode_farm(b: &Vec<u8>) -> (r: Option<Farm>)
    ensures
        r matches Some(f) ==> b@ == enc_farm(f@),
        forall|m: FarmModel| b@ == enc_farm(m) ==> (r matches Some(f) && f@ == m),
{
    proof {
        assert forall|m: FarmModel| b@ == enc_farm(m) implies starts_at(b@, 0, enc_farm(m)) by {}
    }
    match parse_farm(b, 0) {
        Some((f, end)) => {
            if end == b.len() {
                proof {
                    assert(b@ =~= enc_farm(f@));
                }
                Some(f)
            } else {
                None
            }
        },
        None => None,
    }
}

} // verus!
