//! Little-endian integers, compact sizes, nullable values and
//! length-prefixed byte sequences.

use vstd::prelude::*;
use byteorder::{ByteOrder, LittleEndian, WriteBytesExt};
use zcash_encoding::CompactSize;

verus! {

/// The largest count that a compact size may carry.
pub const MAX_COMPACT_SIZE: usize = 0x02000000;

/// The four little-endian bytes of `x`.
pub open spec fn u32_le_bytes(x: u32) -> Seq<u8> {
    seq![(x & 0xff) as u8, ((x >> 8) & 0xff) as u8, ((x >> 16) & 0xff) as u8, ((x >> 24) & 0xff) as u8]
}

/// The integer whose little-endian bytes open `s`.
pub open spec fn u32_from_le(s: Seq<u8>) -> u32
    recommends
        s.len() >= 4,
{
    (s[0] as u32) | ((s[1] as u32) << 8) | ((s[2] as u32) << 16) | ((s[3] as u32) << 24)
}

pub proof fn lemma_u32_le_round_trip(x: u32)
    ensures
        u32_from_le(u32_le_bytes(x)) == x,
{
    let b = u32_le_bytes(x);
    assert(b[0] == (x & 0xff) as u8);
    assert(b[1] == ((x >> 8) & 0xff) as u8);
    assert(b[2] == ((x >> 16) & 0xff) as u8);
    assert(b[3] == ((x >> 24) & 0xff) as u8);
    assert((((x & 0xff) as u8) as u32) | (((((x >> 8) & 0xff) as u8) as u32) << 8)
        | (((((x >> 16) & 0xff) as u8) as u32) << 16) | (((((x >> 24) & 0xff) as u8) as u32) << 24)
        == x) by (bit_vector);
}

/// The compact form of a count: one byte below 253, else a marker byte and
/// two or four little-endian bytes.
pub open spec fn compact_size_bytes(n: nat) -> Seq<u8> {
    if n < 253 {
        seq![n as u8]
    } else if n <= 0xffff {
        seq![253u8, (n % 256) as u8, (n / 256) as u8]
    } else {
        seq![254u8] + u32_le_bytes(n as u32)
    }
}

/// What a compact size at the start of `s` decodes to: its value and the
/// number of bytes it takes, or `None` when `s` is too short, the form is
/// not the shortest one for its value, or the value exceeds the limit.
pub open spec fn compact_size_read(s: Seq<u8>) -> Option<(nat, nat)> {
    if s.len() < 1 {
        None
    } else if s[0] < 253 {
        Some((s[0] as nat, 1))
    } else if s[0] == 253 {
        if s.len() < 3 {
            None
        } else {
            let n = s[1] as nat + 256 * (s[2] as nat);
            if n < 253 { None } else { Some((n, 3)) }
        }
    } else if s[0] == 254 {
        if s.len() < 5 {
            None
        } else {
            let n = u32_from_le(s.subrange(1, 5)) as nat;
            if n < 0x10000 || n > MAX_COMPACT_SIZE { None } else { Some((n, 5)) }
        }
    } else {
        // the eight-byte form holds either a value that fits a shorter form
        // or one over the limit
        None
    }
}

pub proof fn lemma_compact_size_round_trip(n: nat, rest: Seq<u8>)
    requires
        n <= MAX_COMPACT_SIZE,
    ensures
        compact_size_read(compact_size_bytes(n) + rest) == Some((n, compact_size_bytes(n).len())),
{
    let s = compact_size_bytes(n) + rest;
    if n < 253 {
    } else if n <= 0xffff {
        assert(s[1] == (n % 256) as u8);
        assert(s[2] == (n / 256) as u8);
        assert((n % 256) as u8 as nat + 256 * ((n / 256) as u8 as nat) == n) by (nonlinear_arith)
            requires 253 <= n <= 0xffff;
    } else {
        assert(s.subrange(1, 5) =~= u32_le_bytes(n as u32));
        lemma_u32_le_round_trip(n as u32);
    }
}

/// Relies on byteorder's `LittleEndian::read_u32`: the first four bytes of
/// `b`, least significant first (it panics on fewer than four).
#[verifier::external_body]
fn le_u32(b: &[u8]) -> (r: u32)
    requires
        b@.len() >= 4,
    ensures
        r == u32_from_le(b@),
{
    LittleEndian::read_u32(b)
}

/// Relies on byteorder's `WriteBytesExt::write_u32::<LittleEndian>`: appends
/// the four little-endian bytes of `n` (a write to a `Vec` does not fail).
#[verifier::external_body]
fn push_u32_le(out: &mut Vec<u8>, n: u32)
    ensures
        final(out)@ == old(out)@ + u32_le_bytes(n),
{
    let _ = out.write_u32::<LittleEndian>(n);
}

/// Relies on zcash_encoding's `CompactSize::read`: decodes a compact size
/// from the start of `b`, and the reader's position afterwards gives the
/// bytes taken.
#[verifier::external_body]
fn compact_size_from(b: &[u8]) -> (r: Option<(u64, usize)>)
    ensures
        match compact_size_read(b@) {
            Some((n, k)) => r == Some((n as u64, k as usize)),
            None => r is None,
        },
{
    let mut cursor = std::io::Cursor::new(b);
    match CompactSize::read(&mut cursor) {
        Ok(n) => Some((n, cursor.position() as usize)),
        Err(_) => None,
    }
}

/// Relies on zcash_encoding's `CompactSize::write`: appends the compact form
/// of `n`, which it accepts up to the limit (a write to a `Vec` does not fail).
#[verifier::external_body]
fn push_compact_size(out: &mut Vec<u8>, n: usize)
    requires
        n <= MAX_COMPACT_SIZE,
    ensures
        final(out)@ == old(out)@ + compact_size_bytes(n as nat),
{
    let _ = CompactSize::write(&mut *out, n);
}

/// A nullable value at the start of `s`: a presence byte (zero for absent,
/// anything else for present) followed, when present, by what `inner`
/// decodes. The result is the value and the bytes taken.
pub open spec fn optional_read<T>(s: Seq<u8>, inner: spec_fn(Seq<u8>) -> Option<(T, nat)>) -> Option<(Option<T>, nat)> {
    if s.len() < 1 {
        None
    } else if s[0] == 0 {
        Some((None, 1))
    } else {
        match inner(s.skip(1)) {
            Some((v, k)) => Some((Some(v), k + 1)),
            None => None,
        }
    }
}

/// The encoding of a nullable value: a presence byte, then the value.
pub open spec fn optional_bytes<T>(v: Option<T>, inner: spec_fn(T) -> Seq<u8>) -> Seq<u8> {
    match v {
        Some(x) => seq![1u8] + inner(x),
        None => seq![0u8],
    }
}

/// A little-endian `u32` at the start of `s`.
pub open spec fn u32_read(s: Seq<u8>) -> Option<(u32, nat)> {
    if s.len() < 4 { None } else { Some((u32_from_le(s), 4)) }
}

/// A byte sequence at the start of `s`: a compact-size count, then that many bytes.
pub open spec fn byte_vector_read(s: Seq<u8>) -> Option<(Seq<u8>, nat)> {
    match compact_size_read(s) {
        Some((n, k)) => if k + n <= s.len() {
            Some((s.subrange(k as int, (k + n) as int), k + n))
        } else {
            None
        },
        None => None,
    }
}

/// The encoding of a byte sequence: its length in compact form, then its bytes.
pub open spec fn byte_vector_bytes(v: Seq<u8>) -> Seq<u8> {
    compact_size_bytes(v.len()) + v
}

/// A nullable little-endian `u32` at the start of `s`.
pub open spec fn optional_u32_read(s: Seq<u8>) -> Option<(Option<u32>, nat)> {
    optional_read(s, |t: Seq<u8>| u32_read(t))
}

/// The encoding of a nullable `u32`.
pub open spec fn optional_u32_bytes(x: Option<u32>) -> Seq<u8> {
    optional_bytes(x, |v: u32| u32_le_bytes(v))
}

/// A nullable byte sequence at the start of `s`.
pub open spec fn optional_byte_vector_read(s: Seq<u8>) -> Option<(Option<Seq<u8>>, nat)> {
    optional_read(s, |t: Seq<u8>| byte_vector_read(t))
}

/// The encoding of a nullable byte sequence.
pub open spec fn optional_byte_vector_bytes(v: Option<Seq<u8>>) -> Seq<u8> {
    optional_bytes(v, |b: Seq<u8>| byte_vector_bytes(b))
}

pub proof fn lemma_optional_u32_round_trip(x: Option<u32>, rest: Seq<u8>)
    ensures
        optional_u32_read(optional_u32_bytes(x) + rest) == Some((x, optional_u32_bytes(x).len())),
{
    let rd = |t: Seq<u8>| u32_read(t);
    let wr = |v: u32| u32_le_bytes(v);
    assert forall|v: u32, r: Seq<u8>| x == Some(v) implies #[trigger] rd(wr(v) + r) == Some((v, wr(v).len())) by {
        lemma_u32_read_round_trip(v, r);
    }
    lemma_optional_round_trip(x, rest, rd, wr);
}

pub proof fn lemma_optional_byte_vector_round_trip(v: Option<Seq<u8>>, rest: Seq<u8>)
    requires
        v matches Some(b) ==> b.len() <= MAX_COMPACT_SIZE,
    ensures
        optional_byte_vector_read(optional_byte_vector_bytes(v) + rest)
            == Some((v, optional_byte_vector_bytes(v).len())),
{
    let rd = |t: Seq<u8>| byte_vector_read(t);
    let wr = |b: Seq<u8>| byte_vector_bytes(b);
    assert forall|b: Seq<u8>, r: Seq<u8>| v == Some(b) implies #[trigger] rd(wr(b) + r) == Some((b, wr(b).len())) by {
        lemma_byte_vector_round_trip(b, r);
    }
    lemma_optional_round_trip(v, rest, rd, wr);
}

pub proof fn lemma_u32_read_round_trip(x: u32, rest: Seq<u8>)
    ensures
        u32_read(u32_le_bytes(x) + rest) == Some((x, 4nat)),
{
    assert((u32_le_bytes(x) + rest).subrange(0, 4) =~= u32_le_bytes(x));
    lemma_u32_le_round_trip(x);
    let s = u32_le_bytes(x) + rest;
    assert(s[0] == u32_le_bytes(x)[0] && s[1] == u32_le_bytes(x)[1]);
    assert(s[2] == u32_le_bytes(x)[2] && s[3] == u32_le_bytes(x)[3]);
}

pub proof fn lemma_byte_vector_round_trip(v: Seq<u8>, rest: Seq<u8>)
    requires
        v.len() <= MAX_COMPACT_SIZE,
    ensures
        byte_vector_read(byte_vector_bytes(v) + rest) == Some((v, byte_vector_bytes(v).len())),
{
    let c = compact_size_bytes(v.len());
    let s = byte_vector_bytes(v) + rest;
    assert(s =~= c + (v + rest));
    lemma_compact_size_round_trip(v.len(), v + rest);
    assert(s.subrange(c.len() as int, (c.len() + v.len()) as int) =~= v);
}

pub proof fn lemma_optional_round_trip<T>(
    v: Option<T>,
    rest: Seq<u8>,
    read: spec_fn(Seq<u8>) -> Option<(T, nat)>,
    write: spec_fn(T) -> Seq<u8>,
)
    requires
        forall|x: T, r: Seq<u8>| v == Some(x) ==> #[trigger] read(write(x) + r) == Some((x, write(x).len())),
    ensures
        optional_read(optional_bytes(v, write) + rest, read) == Some((v, optional_bytes(v, write).len())),
{
    if let Some(x) = v {
        let s = optional_bytes(v, write) + rest;
        assert(s.skip(1) =~= write(x) + rest);
        assert(read(write(x) + rest) == Some((x, write(x).len())));
    }
}

/// A decoded nullable byte sequence fits its length prefix and takes no more
/// bytes than there are.
pub proof fn lemma_optional_byte_vector_read_bounded(s: Seq<u8>)
    ensures
        optional_byte_vector_read(s) matches Some((v, k))
            ==> (v matches Some(b) ==> b.len() <= MAX_COMPACT_SIZE) && k <= s.len(),
{
}

/// Decodes a byte sequence that starts at `pos`; gives it with the position
/// just past it, or `None` where the bytes do not hold one.
pub fn decode_byte_vector(data: &[u8], pos: usize) -> (r: Option<(Vec<u8>, usize)>)
    requires
        pos <= data@.len(),
    ensures
        r matches Some((_, p)) ==> pos < p <= data@.len(),
        match byte_vector_read(data@.skip(pos as int)) {
            Some((v, k)) => r matches Some((w, p)) && w@ == v && p == pos + k,
            None => r is None,
        },
{
    let rest = vstd::slice::slice_subrange(data, pos, data.len());
    assert(rest@ =~= data@.skip(pos as int));
    match compact_size_from(rest) {
        None => None,
        Some((n, k)) => {
            if n > (rest.len() - k) as u64 {
                None
            } else {
                let end = k + n as usize;
                let v = vstd::slice::slice_to_vec(vstd::slice::slice_subrange(rest, k, end));
                Some((v, pos + end))
            }
        },
    }
}

pub proof fn lemma_skip_skip(d: Seq<u8>, a: int, b: int)
    requires
        0 <= a,
        0 <= b,
        a + b <= d.len(),
    ensures
        d.skip(a).skip(b) == d.skip(a + b),
{
    assert(d.skip(a).skip(b) =~= d.skip(a + b));
}

/// Decodes a compact size that starts at `pos`.
pub fn decode_compact_size(data: &[u8], pos: usize) -> (r: Option<(u64, usize)>)
    requires
        pos <= data@.len(),
    ensures
        r matches Some((_, p)) ==> pos < p <= data@.len(),
        match compact_size_read(data@.skip(pos as int)) {
            Some((n, k)) => r matches Some((m, p)) && m == n && p == pos + k,
            None => r is None,
        },
{
    let rest = vstd::slice::slice_subrange(data, pos, data.len());
    assert(rest@ =~= data@.skip(pos as int));
    match compact_size_from(rest) {
        None => None,
        Some((n, k)) => Some((n, pos + k)),
    }
}

/// Appends the compact form of `n`.
pub fn encode_compact_size(out: &mut Vec<u8>, n: usize)
    requires
        n <= MAX_COMPACT_SIZE,
    ensures
        final(out)@ == old(out)@ + compact_size_bytes(n as nat),
{
    push_compact_size(out, n);
}

/// Decodes a little-endian `u32` that starts at `pos`.
pub fn decode_u32(data: &[u8], pos: usize) -> (r: Option<(u32, usize)>)
    requires
        pos <= data@.len(),
    ensures
        r matches Some((_, p)) ==> pos < p <= data@.len(),
        match u32_read(data@.skip(pos as int)) {
            Some((x, k)) => r matches Some((y, p)) && y == x && p == pos + k,
            None => r is None,
        },
{
    if data.len() - pos < 4 {
        None
    } else {
        let b = vstd::slice::slice_subrange(data, pos, pos + 4);
        let x = le_u32(b);
        assert(b@ =~= data@.skip(pos as int).subrange(0, 4));
        Some((x, pos + 4))
    }
}

/// Decodes a nullable little-endian `u32` that starts at `pos`.
pub fn decode_optional_u32(data: &[u8], pos: usize) -> (r: Option<(Option<u32>, usize)>)
    requires
        pos <= data@.len(),
    ensures
        r matches Some((_, p)) ==> pos < p <= data@.len(),
        match optional_u32_read(data@.skip(pos as int)) {
            Some((x, k)) => r matches Some((y, p)) && y == x && p == pos + k,
            None => r is None,
        },
{
    if pos >= data.len() {
        None
    } else if data[pos] == 0 {
        Some((None, pos + 1))
    } else {
        assert(data@.skip(pos as int).skip(1) =~= data@.skip(pos + 1));
        match decode_u32(data, pos + 1) {
            Some((x, p)) => Some((Some(x), p)),
            None => None,
        }
    }
}

/// Decodes a nullable byte sequence that starts at `pos`.
pub fn decode_optional_byte_vector(data: &[u8], pos: usize) -> (r: Option<(Option<Vec<u8>>, usize)>)
    requires
        pos <= data@.len(),
    ensures
        r matches Some((_, p)) ==> pos < p <= data@.len(),
        match optional_byte_vector_read(data@.skip(pos as int)) {
            Some((v, k)) => r matches Some((w, p)) && p == pos + k && match v {
                Some(x) => w matches Some(y) && y@ == x,
                None => w is None,
            },
            None => r is None,
        },
{
    if pos >= data.len() {
        None
    } else if data[pos] == 0 {
        Some((None, pos + 1))
    } else {
        assert(data@.skip(pos as int).skip(1) =~= data@.skip(pos + 1));
        match decode_byte_vector(data, pos + 1) {
            Some((v, p)) => Some((Some(v), p)),
            None => None,
        }
    }
}

/// Appends a byte sequence: its length in compact form, then its bytes.
pub fn encode_byte_vector(out: &mut Vec<u8>, v: &[u8])
    requires
        v@.len() <= MAX_COMPACT_SIZE,
    ensures
        final(out)@ == old(out)@ + byte_vector_bytes(v@),
{
    push_compact_size(out, v.len());
    out.extend_from_slice(v);
    assert(final(out)@ =~= old(out)@ + byte_vector_bytes(v@));
}

/// Appends a little-endian `u32`.
pub fn encode_u32(out: &mut Vec<u8>, x: u32)
    ensures
        final(out)@ == old(out)@ + u32_le_bytes(x),
{
    push_u32_le(out, x);
}

/// Appends a nullable little-endian `u32`.
pub fn encode_optional_u32(out: &mut Vec<u8>, x: Option<u32>)
    ensures
        final(out)@ == old(out)@ + optional_u32_bytes(x),
{
    match x {
        Some(v) => {
            out.push(1u8);
            push_u32_le(out, v);
        },
        None => out.push(0u8),
    }
    assert(final(out)@ =~= old(out)@ + optional_u32_bytes(x));
}

/// Appends a nullable byte sequence.
pub fn encode_optional_byte_vector(out: &mut Vec<u8>, v: &Option<Vec<u8>>)
    requires
        v matches Some(b) ==> b@.len() <= MAX_COMPACT_SIZE,
    ensures
        final(out)@ == old(out)@ + optional_byte_vector_bytes(
            match v { Some(b) => Some(b@), None => None },
        ),
{
    match v {
        Some(b) => {
            out.push(1u8);
            encode_byte_vector(out, b.as_slice());
        },
        None => out.push(0u8),
    }
    assert(final(out)@ =~= old(out)@ + optional_byte_vector_bytes(
        match v { Some(b) => Some(b@), None => None },
    ));
}

} // verus!
