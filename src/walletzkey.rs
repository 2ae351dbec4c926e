//! One shielded key record: its kind, its key material, its HD index and
//! the encrypted form of a locked spending key.

use vstd::prelude::*;
use sapling_crypto::zip32::{ExtendedFullViewingKey, ExtendedSpendingKey};
use crate::error::{Field, WalletError};
use crate::primitives::{
    MAX_COMPACT_SIZE, decode_optional_byte_vector, decode_optional_u32, decode_u32,
    encode_optional_byte_vector, encode_optional_u32, encode_u32, optional_byte_vector_bytes,
    optional_byte_vector_read, optional_bytes, optional_read, optional_u32_bytes, optional_u32_read,
    u32_le_bytes, u32_read, lemma_optional_byte_vector_round_trip, lemma_optional_u32_round_trip,
    lemma_optional_round_trip, lemma_u32_read_round_trip, lemma_optional_byte_vector_read_bounded,
    lemma_skip_skip,
};

verus! {

/// The length of an encoded extended spending key or extended full viewing key.
pub const KEY_LEN: usize = 169;

/// The length of an encoded payment address.
pub const ADDRESS_LEN: usize = 43;

/// Whether `b` is the encoding of a valid extended spending key.
pub uninterp spec fn spending_key_decodes(b: Seq<u8>) -> bool;

/// Whether `b` is the encoding of a valid extended full viewing key.
pub uninterp spec fn viewing_key_decodes(b: Seq<u8>) -> bool;

/// The default payment address of the extended full viewing key encoded by `b`.
pub uninterp spec fn default_address_of(b: Seq<u8>) -> Seq<u8>;

/// Where the 32-byte spend authorizing key of an encoded spending key, and
/// the spend validating key of an encoded viewing key, start: after the
/// depth, the parent tag, the child index and the chain code.
pub const AUTH_KEY_OFFSET: usize = 41;

/// Whether the Jubjub curve has a point whose canonical encoding is `b`.
pub uninterp spec fn jubjub_point_decodes(b: Seq<u8>) -> bool;

/// The order of the Jubjub scalar field, in little-endian bytes.
pub open spec fn jubjub_order_le() -> Seq<u8> {
    seq![
        0xb7u8, 0x2cu8, 0xf7u8, 0xd6u8, 0x5eu8, 0x0eu8, 0x97u8, 0xd0u8, 0x82u8, 0x10u8, 0xc8u8, 0xccu8,
        0x93u8, 0x20u8, 0x68u8, 0xa6u8, 0x00u8, 0x3bu8, 0x34u8, 0x01u8, 0x01u8, 0x3bu8, 0x67u8, 0x06u8,
        0xa9u8, 0xafu8, 0x33u8, 0x65u8, 0xeau8, 0xb4u8, 0x7du8, 0x0eu8,
    ]
}

/// Whether `a` is below `b`, both read as little-endian numbers of one length.
pub open spec fn le_less(a: Seq<u8>, b: Seq<u8>) -> bool
    decreases a.len(),
{
    if a.len() == 0 || b.len() == 0 {
        false
    } else if a.last() != b.last() {
        a.last() < b.last()
    } else {
        le_less(a.drop_last(), b.drop_last())
    }
}

/// The 32 bytes of the authorizing or validating key inside an encoded key.
pub open spec fn auth_key_bytes(k: Seq<u8>) -> Seq<u8> {
    k.subrange(AUTH_KEY_OFFSET as int, AUTH_KEY_OFFSET + 32)
}

/// Whether the spend authorizing key of an encoded spending key is a
/// canonical scalar, below the order of the Jubjub scalar field.
pub open spec fn auth_scalar_canonical(k: Seq<u8>) -> bool {
    le_less(auth_key_bytes(k), jubjub_order_le())
}

/// Whether the spend validating key of an encoded viewing key is a point.
pub open spec fn auth_point_decodes(k: Seq<u8>) -> bool {
    jubjub_point_decodes(auth_key_bytes(k))
}

/// Relies on jubjub's `AffinePoint::from_bytes`: whether the 32 bytes are the
/// canonical encoding of a point on the curve.
#[verifier::external_body]
fn is_jubjub_point(b: &[u8]) -> (r: bool)
    requires
        b@.len() == 32,
    ensures
        r == jubjub_point_decodes(b@),
{
    let mut a = [0u8; 32];
    a.copy_from_slice(b);
    bool::from(jubjub::AffinePoint::from_bytes(a).is_some())
}

/// Whether the 32 bytes, read little-endian, are below the order of the
/// Jubjub scalar field.
fn is_canonical_scalar(b: &[u8]) -> (r: bool)
    requires
        b@.len() == 32,
    ensures
        r == le_less(b@, jubjub_order_le()),
{
    let order: [u8; 32] = [
        0xb7, 0x2c, 0xf7, 0xd6, 0x5e, 0x0e, 0x97, 0xd0, 0x82, 0x10, 0xc8, 0xcc, 0x93, 0x20, 0x68, 0xa6,
        0x00, 0x3b, 0x34, 0x01, 0x01, 0x3b, 0x67, 0x06, 0xa9, 0xaf, 0x33, 0x65, 0xea, 0xb4, 0x7d, 0x0e,
    ];
    assert(order@ =~= jubjub_order_le());
    assert(b@.take(32) =~= b@);
    assert(order@.take(32) =~= order@);
    let mut i: usize = 32;
    while i > 0
        invariant
            i <= 32,
            b@.len() == 32,
            order@ == jubjub_order_le(),
            le_less(b@, order@) == le_less(b@.take(i as int), order@.take(i as int)),
        decreases i,
    {
        i = i - 1;
        assert(b@.take(i + 1).drop_last() =~= b@.take(i as int));
        assert(order@.take(i + 1).drop_last() =~= order@.take(i as int));
        if b[i] != order[i] {
            return b[i] < order[i];
        }
    }
    false
}

/// Relies on sapling-crypto's `ExtendedSpendingKey::read`: whether the bytes
/// decode to a valid extended spending key. That function panics where the
/// spend authorizing key is not a canonical scalar, so such bytes are left out.
#[verifier::external_body]
fn check_spending_key(b: &[u8]) -> (r: bool)
    requires
        b@.len() == KEY_LEN,
        auth_scalar_canonical(b@),
    ensures
        r == spending_key_decodes(b@),
{
    ExtendedSpendingKey::read(b).is_ok()
}

/// Relies on sapling-crypto's `ExtendedFullViewingKey::read` (whether the bytes
/// decode to a valid key) and `ExtendedFullViewingKey::default_address` (the
/// address derived from it, as the 43 bytes of `PaymentAddress::to_bytes`).
/// `read` panics where the spend validating key is not a curve point, so such
/// bytes are left out; `default_address` searches the diversifier space, in
/// which a valid diversifier is found with overwhelming probability.
#[verifier::external_body]
fn derive_default_address(b: &[u8]) -> (r: Option<Vec<u8>>)
    requires
        b@.len() == KEY_LEN,
        auth_point_decodes(b@),
    ensures
        r is Some == viewing_key_decodes(b@),
        r matches Some(a) ==> a@ == default_address_of(b@) && a@.len() == ADDRESS_LEN,
{
    ExtendedFullViewingKey::read(b).ok().map(|k| k.default_address().1.to_bytes().to_vec())
}

#[derive(Clone, Copy, Debug, PartialEq, Eq, Structural)]
pub enum WalletZKeyType {
    HdKey,
    ImportedSpendingKey,
    ImportedViewKey,
}

/// The kind stored as `n`, if any.
pub open spec fn key_type_of(n: u32) -> Option<WalletZKeyType> {
    if n == 0 {
        Some(WalletZKeyType::HdKey)
    } else if n == 1 {
        Some(WalletZKeyType::ImportedSpendingKey)
    } else if n == 2 {
        Some(WalletZKeyType::ImportedViewKey)
    } else {
        None
    }
}

/// The number that stores kind `t`.
pub open spec fn key_type_code(t: WalletZKeyType) -> u32 {
    match t {
        WalletZKeyType::HdKey => 0,
        WalletZKeyType::ImportedSpendingKey => 1,
        WalletZKeyType::ImportedViewKey => 2,
    }
}

impl WalletZKeyType {
    /// The kind stored as `n`, or `UnknownKeyKind(n)`.
    pub fn from_u32(n: u32) -> (r: Result<WalletZKeyType, WalletError>)
        ensures
            match key_type_of(n) {
                Some(t) => r == Ok::<WalletZKeyType, WalletError>(t),
                None => r == Err::<WalletZKeyType, WalletError>(WalletError::UnknownKeyKind(n)),
            },
    {
        match n {
            0 => Ok(WalletZKeyType::HdKey),
            1 => Ok(WalletZKeyType::ImportedSpendingKey),
            2 => Ok(WalletZKeyType::ImportedViewKey),
            _ => Err(WalletError::UnknownKeyKind(n)),
        }
    }

    /// The number that stores this kind.
    pub fn to_u32(&self) -> (r: u32)
        ensures
            r == key_type_code(*self),
    {
        match self {
            WalletZKeyType::HdKey => 0,
            WalletZKeyType::ImportedSpendingKey => 1,
            WalletZKeyType::ImportedViewKey => 2,
        }
    }
}

/// The highest record version this codec reads, and the one it writes.
pub const SERIALIZED_VERSION: u8 = 1;

/// A key record as mathematical values.
pub struct ZKeyView {
    pub keytype: WalletZKeyType,
    pub locked: bool,
    pub extsk: Option<Seq<u8>>,
    pub extfvk: Seq<u8>,
    pub zaddress: Seq<u8>,
    pub hdkey_num: Option<u32>,
    pub enc_key: Option<Seq<u8>>,
    pub nonce: Option<Seq<u8>>,
}

/// One shielded key record. The spending key and the full viewing key are
/// held in their 169-byte encodings, the payment address in its 43 bytes.
#[derive(Clone, Debug, PartialEq, Eq)]
pub struct WalletZKey {
    pub keytype: WalletZKeyType,
    /// Whether the spending key is held only in encrypted form.
    pub locked: bool,
    pub extsk: Option<Vec<u8>>,
    pub extfvk: Vec<u8>,
    pub zaddress: Vec<u8>,
    /// The index of an HD-derived key.
    pub hdkey_num: Option<u32>,
    /// The encrypted spending key of a locked record.
    pub enc_key: Option<Vec<u8>>,
    pub nonce: Option<Vec<u8>>,
}

pub open spec fn bytes_view(o: Option<Vec<u8>>) -> Option<Seq<u8>> {
    match o {
        Some(v) => Some(v@),
        None => None,
    }
}

impl View for WalletZKey {
    type V = ZKeyView;

    open spec fn view(&self) -> ZKeyView {
        ZKeyView {
            keytype: self.keytype,
            locked: self.locked,
            extsk: bytes_view(self.extsk),
            extfvk: self.extfvk@,
            zaddress: self.zaddress@,
            hdkey_num: self.hdkey_num,
            enc_key: bytes_view(self.enc_key),
            nonce: bytes_view(self.nonce),
        }
    }
}

/// An encoded spending key at the start of `s`, if it is valid.
pub open spec fn spending_key_read(s: Seq<u8>) -> Option<(Seq<u8>, nat)> {
    if s.len() >= KEY_LEN && auth_scalar_canonical(s.take(KEY_LEN as int))
        && spending_key_decodes(s.take(KEY_LEN as int)) {
        Some((s.take(KEY_LEN as int), KEY_LEN as nat))
    } else {
        None
    }
}

pub open spec fn optional_spending_key_read(s: Seq<u8>) -> Option<(Option<Seq<u8>>, nat)> {
    optional_read(s, |t: Seq<u8>| spending_key_read(t))
}

pub open spec fn optional_spending_key_bytes(v: Option<Seq<u8>>) -> Seq<u8> {
    optional_bytes(v, |b: Seq<u8>| b)
}

/// Whether a record of kind `t` can authorise spends.
pub open spec fn has_spend_authority(t: WalletZKeyType) -> bool {
    t != WalletZKeyType::ImportedViewKey
}

/// Whether the spending key fits the record: a record with spend authority
/// holds it exactly when unlocked, a view-only record never.
pub open spec fn spending_key_consistent(keytype: WalletZKeyType, locked: bool, extsk: Option<Seq<u8>>) -> bool {
    if has_spend_authority(keytype) {
        extsk.is_some() == !locked
    } else {
        extsk is None
    }
}

/// Whether the encrypted key fits the record: a record with spend authority
/// holds it exactly when locked, a view-only record never.
pub open spec fn encrypted_key_consistent(keytype: WalletZKeyType, locked: bool, enc_key: Option<Seq<u8>>) -> bool {
    if has_spend_authority(keytype) {
        enc_key.is_some() == locked
    } else {
        enc_key is None
    }
}

/// What the record at the start of `s` decodes to, with the bytes it takes;
/// or the first error met, reading forward.
pub open spec fn zkey_read(s: Seq<u8>) -> Result<(ZKeyView, nat), WalletError> {
    if s.len() < 1 {
        Err(WalletError::EncodingError(Field::Version))
    } else if s[0] > SERIALIZED_VERSION {
        Err(WalletError::UnsupportedVersion(s[0] as u32))
    } else {
        match u32_read(s.skip(1)) {
            None => Err(WalletError::EncodingError(Field::KeyType)),
            Some((n, _)) => match key_type_of(n) {
                None => Err(WalletError::UnknownKeyKind(n)),
                Some(keytype) => if s.len() < 6 {
                    Err(WalletError::EncodingError(Field::Locked))
                } else {
                    zkey_read_spend(s, keytype, s[5] != 0)
                },
            },
        }
    }
}

/// The rest of a record from its spending key, which starts at offset 6.
#[verifier::opaque]
pub open spec fn zkey_read_spend(s: Seq<u8>, keytype: WalletZKeyType, locked: bool) -> Result<(ZKeyView, nat), WalletError> {
    match optional_spending_key_read(s.skip(6)) {
        None => Err(WalletError::EncodingError(Field::SpendingKey)),
        Some((extsk, k1)) => if !spending_key_consistent(keytype, locked, extsk) {
            Err(WalletError::EncodingError(Field::SpendingKey))
        } else {
            zkey_read_keys(s, 6 + k1 as int, keytype, locked, extsk)
        },
    }
}

/// The rest of a record from its viewing key, which starts at `p`.
#[verifier::opaque]
pub open spec fn zkey_read_keys(
    s: Seq<u8>,
    p: int,
    keytype: WalletZKeyType,
    locked: bool,
    extsk: Option<Seq<u8>>,
) -> Result<(ZKeyView, nat), WalletError> {
    if s.len() < p + KEY_LEN || !auth_point_decodes(s.subrange(p, p + KEY_LEN))
        || !viewing_key_decodes(s.subrange(p, p + KEY_LEN)) {
        Err(WalletError::EncodingError(Field::ViewingKey))
    } else {
        zkey_read_tail(s, p + KEY_LEN, keytype, locked, extsk, s.subrange(p, p + KEY_LEN))
    }
}

/// The rest of a record from its HD index, which starts at `q`.
#[verifier::opaque]
pub open spec fn zkey_read_tail(
    s: Seq<u8>,
    q: int,
    keytype: WalletZKeyType,
    locked: bool,
    extsk: Option<Seq<u8>>,
    extfvk: Seq<u8>,
) -> Result<(ZKeyView, nat), WalletError> {
    match optional_u32_read(s.skip(q)) {
        None => Err(WalletError::EncodingError(Field::HdKeyNum)),
        Some((hdkey_num, k2)) => match optional_byte_vector_read(s.skip(q + k2)) {
            None => Err(WalletError::EncodingError(Field::EncKey)),
            Some((enc_key, k3)) => match optional_byte_vector_read(s.skip(q + k2 + k3)) {
                None => Err(WalletError::EncodingError(Field::Nonce)),
                Some((nonce, k4)) => if enc_key.is_some() != nonce.is_some() {
                    Err(WalletError::EncodingError(Field::Nonce))
                } else if !encrypted_key_consistent(keytype, locked, enc_key) {
                    Err(WalletError::EncodingError(Field::EncKey))
                } else {
                    Ok((ZKeyView {
                        keytype,
                        locked,
                        extsk,
                        extfvk,
                        zaddress: default_address_of(extfvk),
                        hdkey_num,
                        enc_key,
                        nonce,
                    }, (q + k2 + k3 + k4) as nat))
                },
            },
        },
    }
}

/// The encoding of a record, fields in order.
pub open spec fn zkey_bytes(m: ZKeyView) -> Seq<u8> {
    seq![SERIALIZED_VERSION] + u32_le_bytes(key_type_code(m.keytype)) + seq![if m.locked { 1u8 } else { 0u8 }]
        + optional_spending_key_bytes(m.extsk) + m.extfvk + optional_u32_bytes(m.hdkey_num)
        + optional_byte_vector_bytes(m.enc_key) + optional_byte_vector_bytes(m.nonce)
}

/// Whether the byte sequences of a record fit their length prefixes.
pub open spec fn zkey_encodable(m: ZKeyView) -> bool {
    &&& m.enc_key matches Some(b) ==> b.len() <= MAX_COMPACT_SIZE
    &&& m.nonce matches Some(b) ==> b.len() <= MAX_COMPACT_SIZE
}

/// Whether a record is one that decoding can give: valid key material, the
/// address derived from the viewing key, and consistent lock fields.
pub open spec fn zkey_valid(m: ZKeyView) -> bool {
    &&& m.extsk matches Some(b) ==> b.len() == KEY_LEN && auth_scalar_canonical(b) && spending_key_decodes(b)
    &&& spending_key_consistent(m.keytype, m.locked, m.extsk)
    &&& m.extfvk.len() == KEY_LEN && auth_point_decodes(m.extfvk) && viewing_key_decodes(m.extfvk)
    &&& m.zaddress == default_address_of(m.extfvk)
    &&& m.enc_key.is_some() == m.nonce.is_some()
    &&& encrypted_key_consistent(m.keytype, m.locked, m.enc_key)
    &&& zkey_encodable(m)
}

proof fn lemma_optional_spending_key_round_trip(v: Option<Seq<u8>>, rest: Seq<u8>)
    requires
        v matches Some(b) ==> b.len() == KEY_LEN && auth_scalar_canonical(b) && spending_key_decodes(b),
    ensures
        optional_spending_key_read(optional_spending_key_bytes(v) + rest)
            == Some((v, optional_spending_key_bytes(v).len())),
{
    let rd = |t: Seq<u8>| spending_key_read(t);
    let wr = |b: Seq<u8>| b;
    assert forall|b: Seq<u8>, r: Seq<u8>| v == Some(b) implies #[trigger] rd(wr(b) + r) == Some((b, wr(b).len())) by {
        assert((b + r).take(KEY_LEN as int) =~= b);
    }
    lemma_optional_round_trip(v, rest, rd, wr);
}

/// Decoding what `write` produced from a valid record gives that record back
/// and takes exactly the bytes written, whatever follows them.
pub proof fn lemma_zkey_round_trip(m: ZKeyView, rest: Seq<u8>)
    requires
        zkey_valid(m),
    ensures
        zkey_read(zkey_bytes(m) + rest) == Ok::<(ZKeyView, nat), WalletError>((m, zkey_bytes(m).len())),
{
    let lock_byte: u8 = if m.locked { 1u8 } else { 0u8 };
    let k = u32_le_bytes(key_type_code(m.keytype));
    let h = seq![SERIALIZED_VERSION] + k + seq![lock_byte];
    let a = optional_spending_key_bytes(m.extsk);
    let d = optional_u32_bytes(m.hdkey_num);
    let e = optional_byte_vector_bytes(m.enc_key);
    let n = optional_byte_vector_bytes(m.nonce);
    let tail = a + (m.extfvk + (d + (e + (n + rest))));
    let s = zkey_bytes(m) + rest;
    assert(s =~= h + tail);
    assert(s[0] == SERIALIZED_VERSION);
    assert(s.skip(1) =~= k + (seq![lock_byte] + tail));
    lemma_u32_read_round_trip(key_type_code(m.keytype), seq![lock_byte] + tail);
    assert(key_type_of(key_type_code(m.keytype)) == Some(m.keytype));
    assert(s[5] == lock_byte);
    assert(s.skip(6) =~= tail);
    lemma_zkey_spend_round_trip(m, s, rest);
    assert(zkey_bytes(m).len() == 6 + a.len() + m.extfvk.len() + d.len() + e.len() + n.len());
}

proof fn lemma_zkey_spend_round_trip(m: ZKeyView, s: Seq<u8>, rest: Seq<u8>)
    requires
        zkey_valid(m),
        6 <= s.len(),
        s.skip(6) == optional_spending_key_bytes(m.extsk) + (m.extfvk + (optional_u32_bytes(m.hdkey_num)
            + (optional_byte_vector_bytes(m.enc_key) + (optional_byte_vector_bytes(m.nonce) + rest)))),
    ensures
        zkey_read_spend(s, m.keytype, m.locked) == Ok::<(ZKeyView, nat), WalletError>((m, (6
            + optional_spending_key_bytes(m.extsk).len() + m.extfvk.len() + optional_u32_bytes(m.hdkey_num).len()
            + optional_byte_vector_bytes(m.enc_key).len() + optional_byte_vector_bytes(m.nonce).len()) as nat)),
{
    reveal(zkey_read_spend);
    let a = optional_spending_key_bytes(m.extsk);
    let d = optional_u32_bytes(m.hdkey_num);
    let e = optional_byte_vector_bytes(m.enc_key);
    let n = optional_byte_vector_bytes(m.nonce);
    lemma_optional_spending_key_round_trip(m.extsk, m.extfvk + (d + (e + (n + rest))));
    let p: int = 6 + a.len() as int;
    assert(s.skip(p) =~= m.extfvk + (d + (e + (n + rest)))) by {
        assert(s.skip(p) =~= s.skip(6).skip(a.len() as int));
        assert((a + (m.extfvk + (d + (e + (n + rest))))).skip(a.len() as int) =~= m.extfvk + (d + (e + (n + rest))));
    }
    lemma_zkey_keys_round_trip(m, s, p, rest);
}

#[verifier::rlimit(50)]
proof fn lemma_zkey_keys_round_trip(m: ZKeyView, s: Seq<u8>, p: int, rest: Seq<u8>)
    requires
        zkey_valid(m),
        0 <= p <= s.len(),
        s.skip(p) == m.extfvk + (optional_u32_bytes(m.hdkey_num) + (optional_byte_vector_bytes(m.enc_key)
            + (optional_byte_vector_bytes(m.nonce) + rest))),
    ensures
        zkey_read_keys(s, p, m.keytype, m.locked, m.extsk) == Ok::<(ZKeyView, nat), WalletError>((m, (p
            + m.extfvk.len() + optional_u32_bytes(m.hdkey_num).len() + optional_byte_vector_bytes(m.enc_key).len()
            + optional_byte_vector_bytes(m.nonce).len()) as nat)),
{
    reveal(zkey_read_keys);
    reveal(zkey_read_tail);
    let d = optional_u32_bytes(m.hdkey_num);
    let e = optional_byte_vector_bytes(m.enc_key);
    let n = optional_byte_vector_bytes(m.nonce);
    let t = m.extfvk + (d + (e + (n + rest)));
    assert(s.len() - p == t.len());
    assert(s.subrange(p, p + KEY_LEN) =~= m.extfvk) by {
        assert forall|i: int| 0 <= i < KEY_LEN implies s.subrange(p, p + KEY_LEN)[i] == m.extfvk[i] by {
            assert(s.skip(p)[i] == s[p + i]);
            assert(t[i] == m.extfvk[i]);
        }
    }
    let q: int = p + KEY_LEN;
    assert(s.skip(q) =~= d + (e + (n + rest))) by {
        assert(s.skip(q) =~= s.skip(p).skip(KEY_LEN as int));
        assert(t.skip(KEY_LEN as int) =~= d + (e + (n + rest)));
    }
    lemma_optional_u32_round_trip(m.hdkey_num, e + (n + rest));
    assert(s.skip(q + d.len()) =~= e + (n + rest)) by {
        assert(s.skip(q + d.len()) =~= s.skip(q).skip(d.len() as int));
        assert((d + (e + (n + rest))).skip(d.len() as int) =~= e + (n + rest));
    }
    lemma_optional_byte_vector_round_trip(m.enc_key, n + rest);
    assert(s.skip(q + d.len() + e.len()) =~= n + rest) by {
        assert(s.skip(q + d.len() + e.len()) =~= s.skip(q + d.len()).skip(e.len() as int));
        assert((e + (n + rest)).skip(e.len() as int) =~= n + rest);
    }
    lemma_optional_byte_vector_round_trip(m.nonce, rest);
}

/// Every record that decoding gives is valid: a view-only record has no
/// spending key, encrypted key or nonce; the encrypted key and the nonce come
/// together; a record with spend authority holds them exactly when locked and
/// its spending key exactly when unlocked; and the address is the one derived
/// from the viewing key. It never takes more bytes than there are.
pub proof fn lemma_zkey_read_valid(s: Seq<u8>)
    ensures
        zkey_read(s) matches Ok((m, k)) ==> zkey_valid(m) && k <= s.len(),
{
    reveal(zkey_read_spend);
    reveal(zkey_read_keys);
    reveal(zkey_read_tail);
    if let Some((_, k1)) = optional_spending_key_read(s.skip(6)) {
        let q: int = 6 + k1 + KEY_LEN;
        if let Some((_, k2)) = optional_u32_read(s.skip(q)) {
            lemma_optional_byte_vector_read_bounded(s.skip(q + k2));
            if let Some((_, k3)) = optional_byte_vector_read(s.skip(q + k2)) {
                lemma_optional_byte_vector_read_bounded(s.skip(q + k2 + k3));
            }
        }
    }
}

/// Decodes a nullable spending key that starts at `pos`.
fn decode_optional_spending_key(data: &[u8], pos: usize) -> (r: Option<(Option<Vec<u8>>, usize)>)
    requires
        pos <= data@.len(),
    ensures
        r matches Some((_, p)) ==> pos < p <= data@.len(),
        match optional_spending_key_read(data@.skip(pos as int)) {
            Some((v, k)) => r matches Some((w, p)) && p == pos + k && bytes_view(w) == v,
            None => r is None,
        },
{
    if pos >= data.len() {
        None
    } else if data[pos] == 0 {
        Some((None, pos + 1))
    } else if data.len() - (pos + 1) < KEY_LEN {
        None
    } else {
        let b = vstd::slice::slice_subrange(data, pos + 1, pos + 1 + KEY_LEN);
        assert(b@ =~= data@.skip(pos as int).skip(1).take(KEY_LEN as int));
        let ask = vstd::slice::slice_subrange(b, AUTH_KEY_OFFSET, AUTH_KEY_OFFSET + 32);
        if is_canonical_scalar(ask) && check_spending_key(b) {
            Some((Some(vstd::slice::slice_to_vec(b)), pos + 1 + KEY_LEN))
        } else {
            None
        }
    }
}

/// Appends a nullable spending key.
fn encode_optional_spending_key(out: &mut Vec<u8>, v: &Option<Vec<u8>>)
    ensures
        final(out)@ == old(out)@ + optional_spending_key_bytes(bytes_view(*v)),
{
    match v {
        Some(b) => {
            out.push(1u8);
            out.extend_from_slice(b.as_slice());
        },
        None => out.push(0u8),
    }
    assert(final(out)@ =~= old(out)@ + optional_spending_key_bytes(bytes_view(*v)));
}

impl WalletZKey {
    /// The record version that `write` produces.
    pub fn serialized_version() -> (r: u8)
        ensures
            r == SERIALIZED_VERSION,
    {
        SERIALIZED_VERSION
    }

    /// Whether the spending key is held only in encrypted form.
    pub fn is_locked(&self) -> (r: bool)
        ensures
            r == self.locked,
    {
        self.locked
    }

    /// Decodes the record that starts at `pos`, giving it with the position
    /// just past it. The address is derived from the viewing key.
    pub fn read(data: &[u8], pos: usize) -> (r: Result<(WalletZKey, usize), WalletError>)
        requires
            pos <= data@.len(),
        ensures
            match zkey_read(data@.skip(pos as int)) {
                Ok((m, k)) => r matches Ok((z, p)) && z@ == m && p == pos + k,
                Err(e) => r == Err::<(WalletZKey, usize), WalletError>(e),
            },
            r matches Ok((z, p)) ==> zkey_valid(z@) && p <= data@.len(),
            r matches Ok((z, _)) ==> (z.keytype == WalletZKeyType::ImportedViewKey ==> z.extsk is None),
            r matches Ok((z, _)) ==> z.enc_key.is_some() == z.nonce.is_some(),
            r matches Ok((z, _)) ==> (has_spend_authority(z.keytype) ==> z.enc_key.is_some() == z.locked
                && z.extsk.is_some() == !z.locked),
            r matches Ok((z, _)) ==> (z.keytype == WalletZKeyType::ImportedViewKey ==> z.enc_key is None
                && z.nonce is None),
    {
        let ghost s = data@.skip(pos as int);
        proof {
            reveal(zkey_read_spend);
            reveal(zkey_read_keys);
            lemma_zkey_read_valid(s);
        }
        if pos >= data.len() {
            return Err(WalletError::EncodingError(Field::Version));
        }
        let version = data[pos];
        if version > SERIALIZED_VERSION {
            return Err(WalletError::UnsupportedVersion(version as u32));
        }
        proof { lemma_skip_skip(data@, pos as int, 1); }
        let n = match decode_u32(data, pos + 1) {
            Some((n, _)) => n,
            None => return Err(WalletError::EncodingError(Field::KeyType)),
        };
        let keytype = match WalletZKeyType::from_u32(n) {
            Ok(t) => t,
            Err(e) => return Err(e),
        };
        if data.len() - pos < 6 {
            return Err(WalletError::EncodingError(Field::Locked));
        }
        let locked = data[pos + 5] != 0;
        proof { lemma_skip_skip(data@, pos as int, 6); }
        let (extsk, p1) = match decode_optional_spending_key(data, pos + 6) {
            Some(x) => x,
            None => return Err(WalletError::EncodingError(Field::SpendingKey)),
        };
        let spend_ok = if keytype == WalletZKeyType::ImportedViewKey {
            extsk.is_none()
        } else {
            extsk.is_some() == !locked
        };
        if !spend_ok {
            return Err(WalletError::EncodingError(Field::SpendingKey));
        }
        if data.len() - p1 < KEY_LEN {
            return Err(WalletError::EncodingError(Field::ViewingKey));
        }
        let fvk = vstd::slice::slice_subrange(data, p1, p1 + KEY_LEN);
        assert(fvk@ =~= s.subrange(p1 - pos, p1 - pos + KEY_LEN));
        let ak = vstd::slice::slice_subrange(fvk, AUTH_KEY_OFFSET, AUTH_KEY_OFFSET + 32);
        if !is_jubjub_point(ak) {
            return Err(WalletError::EncodingError(Field::ViewingKey));
        }
        let zaddress = match derive_default_address(fvk) {
            Some(a) => a,
            None => return Err(WalletError::EncodingError(Field::ViewingKey)),
        };
        let extfvk = vstd::slice::slice_to_vec(fvk);
        Self::read_tail(data, pos, p1 + KEY_LEN, keytype, locked, extsk, extfvk, zaddress)
    }

    /// Decodes the fields of a record after its viewing key, from `q` on.
    fn read_tail(
        data: &[u8],
        pos: usize,
        q: usize,
        keytype: WalletZKeyType,
        locked: bool,
        extsk: Option<Vec<u8>>,
        extfvk: Vec<u8>,
        zaddress: Vec<u8>,
    ) -> (r: Result<(WalletZKey, usize), WalletError>)
        requires
            pos <= q <= data@.len(),
            zaddress@ == default_address_of(extfvk@),
        ensures
            match zkey_read_tail(data@.skip(pos as int), q - pos, keytype, locked, bytes_view(extsk), extfvk@) {
                Ok((m, k)) => r matches Ok((z, p)) && z@ == m && p == pos + k,
                Err(e) => r == Err::<(WalletZKey, usize), WalletError>(e),
            },
    {
        let ghost s = data@.skip(pos as int);
        proof { reveal(zkey_read_tail); }
        proof { lemma_skip_skip(data@, pos as int, q - pos); }
        assert(s.skip(q - pos) == data@.skip(q as int));
        let (hdkey_num, p2) = match decode_optional_u32(data, q) {
            Some(x) => x,
            None => return Err(WalletError::EncodingError(Field::HdKeyNum)),
        };
        assert(optional_u32_read(s.skip(q - pos)) == Some((hdkey_num, (p2 - q) as nat)));
        proof { lemma_skip_skip(data@, pos as int, p2 - pos); }
        assert(s.skip(q - pos + (p2 - q)) == data@.skip(p2 as int));
        let (enc_key, p3) = match decode_optional_byte_vector(data, p2) {
            Some(x) => x,
            None => return Err(WalletError::EncodingError(Field::EncKey)),
        };
        assert(optional_byte_vector_read(s.skip(q - pos + (p2 - q))) == Some((bytes_view(enc_key), (p3 - p2) as nat)));
        proof { lemma_skip_skip(data@, pos as int, p3 - pos); }
        assert(s.skip(q - pos + (p2 - q) + (p3 - p2)) == data@.skip(p3 as int));
        let (nonce, p4) = match decode_optional_byte_vector(data, p3) {
            Some(x) => x,
            None => return Err(WalletError::EncodingError(Field::Nonce)),
        };
        assert(optional_byte_vector_read(s.skip(q - pos + (p2 - q) + (p3 - p2))) == Some((bytes_view(nonce), (p4 - p3) as nat)));
        if enc_key.is_some() != nonce.is_some() {
            return Err(WalletError::EncodingError(Field::Nonce));
        }
        let enc_ok = if keytype == WalletZKeyType::ImportedViewKey {
            enc_key.is_none()
        } else {
            enc_key.is_some() == locked
        };
        if !enc_ok {
            return Err(WalletError::EncodingError(Field::EncKey));
        }
        let z = WalletZKey { keytype, locked, extsk, extfvk, zaddress, hdkey_num, enc_key, nonce };
        Ok((z, p4))
    }

    /// Whether the byte sequences fit their length prefixes, as `write` needs.
    pub fn is_encodable(&self) -> (r: bool)
        ensures
            r == zkey_encodable(self@),
    {
        let e = match &self.enc_key {
            Some(b) => b.len() <= MAX_COMPACT_SIZE,
            None => true,
        };
        let n = match &self.nonce {
            Some(b) => b.len() <= MAX_COMPACT_SIZE,
            None => true,
        };
        e && n
    }

    /// Appends the record's encoding: the exact inverse of `read`.
    #[verifier::rlimit(50)]
    pub fn write(&self, out: &mut Vec<u8>)
        requires
            zkey_encodable(self@),
        ensures
            final(out)@ == old(out)@ + zkey_bytes(self@),
    {
        let ghost o = out@;
        let ghost m = self@;
        out.push(SERIALIZED_VERSION);
        encode_u32(out, self.keytype.to_u32());
        out.push(if self.locked { 1u8 } else { 0u8 });
        let ghost h = seq![SERIALIZED_VERSION] + u32_le_bytes(key_type_code(m.keytype))
            + seq![if m.locked { 1u8 } else { 0u8 }];
        assert(out@ =~= o + h);
        encode_optional_spending_key(out, &self.extsk);
        let ghost h1 = h + optional_spending_key_bytes(m.extsk);
        assert(out@ =~= o + h1);
        out.extend_from_slice(self.extfvk.as_slice());
        let ghost h2 = h1 + m.extfvk;
        assert(out@ =~= o + h2);
        encode_optional_u32(out, self.hdkey_num);
        let ghost h3 = h2 + optional_u32_bytes(m.hdkey_num);
        assert(out@ =~= o + h3);
        encode_optional_byte_vector(out, &self.enc_key);
        let ghost h4 = h3 + optional_byte_vector_bytes(m.enc_key);
        assert(out@ =~= o + h4);
        encode_optional_byte_vector(out, &self.nonce);
        assert(out@ =~= o + (h4 + optional_byte_vector_bytes(m.nonce)));
        assert(zkey_bytes(m) == h4 + optional_byte_vector_bytes(m.nonce));
    }
}

} // verus!
