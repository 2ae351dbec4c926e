//! The format-independent wallet, and the key-list layout that reads and
//! writes it: a version header, then a counted sequence of key records.

use vstd::prelude::*;
use crate::error::{Field, WalletError};
use crate::primitives::{
    MAX_COMPACT_SIZE, compact_size_bytes, compact_size_read, decode_compact_size, decode_u32, encode_compact_size,
    encode_u32, u32_le_bytes,
    u32_read, lemma_compact_size_round_trip, lemma_skip_skip, lemma_u32_read_round_trip,
};
use crate::walletzkey::{
    WalletZKey, ZKeyView, lemma_zkey_read_valid, lemma_zkey_round_trip, zkey_bytes, zkey_encodable,
    zkey_read, zkey_valid,
};

verus! {

/// The highest key-list layout version understood, and the one written.
pub const KEY_LIST_VERSION: u32 = 1;

/// A wallet as mathematical values.
pub struct WalletView {
    pub version: u32,
    pub keys: Seq<ZKeyView>,
}

/// A wallet apart from any application's layout: the header version it was
/// read with and its key records, in order.
#[derive(Clone, Debug, PartialEq, Eq)]
pub struct CanonicalWallet {
    pub version: u32,
    pub keys: Vec<WalletZKey>,
}

pub open spec fn keys_view(keys: Seq<WalletZKey>) -> Seq<ZKeyView> {
    keys.map_values(|k: WalletZKey| k@)
}

impl View for CanonicalWallet {
    type V = WalletView;

    open spec fn view(&self) -> WalletView {
        WalletView { version: self.version, keys: keys_view(self.keys@) }
    }
}

/// `count` records read one after another from the start of `s`, with the
/// bytes they take; or the first error.
pub open spec fn keys_read(s: Seq<u8>, count: nat) -> Result<(Seq<ZKeyView>, nat), WalletError>
    decreases count,
{
    if count == 0 {
        Ok((seq![], 0))
    } else {
        match keys_read(s, (count - 1) as nat) {
            Err(e) => Err(e),
            Ok((ms, k)) => match zkey_read(s.skip(k as int)) {
                Err(e) => Err(e),
                Ok((m, k2)) => Ok((ms.push(m), k + k2)),
            },
        }
    }
}

/// The records' encodings, one after another.
pub open spec fn keys_bytes(ms: Seq<ZKeyView>) -> Seq<u8>
    decreases ms.len(),
{
    if ms.len() == 0 {
        seq![]
    } else {
        keys_bytes(ms.drop_last()) + zkey_bytes(ms.last())
    }
}

/// What the key-list layout in `s` decodes to: a little-endian `u32`
/// version, a compact-size count, that many records, and nothing after them.
pub open spec fn wallet_read(s: Seq<u8>) -> Result<WalletView, WalletError> {
    match u32_read(s) {
        None => Err(WalletError::EncodingError(Field::Version)),
        Some((v, _)) => if v > KEY_LIST_VERSION {
            Err(WalletError::UnsupportedVersion(v))
        } else {
            match compact_size_read(s.skip(4)) {
                None => Err(WalletError::EncodingError(Field::KeyCount)),
                Some((n, k)) => match keys_read(s.skip(4 + k as int), n) {
                    Err(e) => Err(e),
                    Ok((ms, k2)) => if 4 + k + k2 != s.len() {
                        Err(WalletError::EncodingError(Field::TrailingBytes))
                    } else {
                        Ok(WalletView { version: v, keys: ms })
                    },
                },
            }
        },
    }
}

/// The key-list layout of a wallet.
pub open spec fn wallet_bytes(w: WalletView) -> Seq<u8> {
    u32_le_bytes(w.version) + compact_size_bytes(w.keys.len()) + keys_bytes(w.keys)
}

/// Whether a wallet can be written: its count and byte sequences fit their prefixes.
pub open spec fn wallet_encodable(w: WalletView) -> bool {
    &&& w.keys.len() <= MAX_COMPACT_SIZE
    &&& forall|i: int| 0 <= i < w.keys.len() ==> zkey_encodable(#[trigger] w.keys[i])
}

/// Whether a wallet is one that reading can give.
pub open spec fn wallet_valid(w: WalletView) -> bool {
    &&& w.version <= KEY_LIST_VERSION
    &&& w.keys.len() <= MAX_COMPACT_SIZE
    &&& forall|i: int| 0 <= i < w.keys.len() ==> zkey_valid(#[trigger] w.keys[i])
}

proof fn lemma_keys_round_trip(ms: Seq<ZKeyView>, rest: Seq<u8>)
    requires
        forall|i: int| 0 <= i < ms.len() ==> zkey_valid(#[trigger] ms[i]),
    ensures
        keys_read(keys_bytes(ms) + rest, ms.len()) == Ok::<(Seq<ZKeyView>, nat), WalletError>((ms, keys_bytes(ms).len())),
    decreases ms.len(),
{
    if ms.len() > 0 {
        let init = ms.drop_last();
        let last = ms.last();
        assert(zkey_valid(ms[ms.len() - 1]));
        assert forall|i: int| 0 <= i < init.len() implies zkey_valid(#[trigger] init[i]) by {
            assert(init[i] == ms[i]);
        }
        let s = keys_bytes(ms) + rest;
        assert(s =~= keys_bytes(init) + (zkey_bytes(last) + rest));
        lemma_keys_round_trip(init, zkey_bytes(last) + rest);
        assert(s.skip(keys_bytes(init).len() as int) =~= zkey_bytes(last) + rest);
        lemma_zkey_round_trip(last, rest);
        assert(init.push(last) =~= ms);
        assert(keys_bytes(ms) == keys_bytes(init) + zkey_bytes(last));
        assert(keys_read(s, init.len()) == Ok::<(Seq<ZKeyView>, nat), WalletError>((init, keys_bytes(init).len())));
        assert(keys_read(s, ms.len()) == Ok::<(Seq<ZKeyView>, nat), WalletError>((ms, keys_bytes(ms).len())));
    } else {
        assert(ms =~= seq![]);
    }
}

proof fn lemma_keys_read_valid(s: Seq<u8>, count: nat)
    ensures
        keys_read(s, count) matches Ok((ms, k)) ==> ms.len() == count && k <= s.len()
            && forall|i: int| 0 <= i < ms.len() ==> zkey_valid(#[trigger] ms[i]),
    decreases count,
{
    if count > 0 {
        lemma_keys_read_valid(s, (count - 1) as nat);
        if let Ok((ms, k)) = keys_read(s, (count - 1) as nat) {
            lemma_zkey_read_valid(s.skip(k as int));
        }
    }
}

/// Writing a valid wallet in the key-list layout and reading the bytes back
/// gives the same wallet.
pub proof fn lemma_wallet_round_trip(w: WalletView)
    requires
        wallet_valid(w),
    ensures
        wallet_read(wallet_bytes(w)) == Ok::<WalletView, WalletError>(w),
{
    let s = wallet_bytes(w);
    let c = compact_size_bytes(w.keys.len());
    let kb = keys_bytes(w.keys);
    assert(s =~= u32_le_bytes(w.version) + (c + kb));
    lemma_u32_read_round_trip(w.version, c + kb);
    assert(s.skip(4) =~= c + kb);
    lemma_compact_size_round_trip(w.keys.len(), kb);
    assert(s.skip(4 + c.len() as int) =~= kb + seq![]);
    lemma_keys_round_trip(w.keys, seq![]);
}

/// Every wallet that reading gives is valid.
pub proof fn lemma_wallet_read_valid(s: Seq<u8>)
    ensures
        wallet_read(s) matches Ok(w) ==> wallet_valid(w),
{
    if let Some((n, k)) = compact_size_read(s.skip(4)) {
        lemma_keys_read_valid(s.skip(4 + k as int), n);
    }
}

proof fn lemma_keys_read_error_persists(s: Seq<u8>, a: nat, b: nat)
    requires
        a <= b,
        keys_read(s, a) is Err,
    ensures
        keys_read(s, b) == keys_read(s, a),
    decreases b - a,
{
    if a < b {
        lemma_keys_read_error_persists(s, a, (b - 1) as nat);
    }
}

/// The key-list layout: a little-endian `u32` version, a compact-size count
/// of key records, then the records.
pub struct KeyListFormat;

impl KeyListFormat {
    /// Reads a whole file in the key-list layout. Fails with the first error
    /// met, reading forward; no partial wallet is returned.
    pub fn parse(data: &[u8]) -> (r: Result<CanonicalWallet, WalletError>)
        ensures
            match wallet_read(data@) {
                Ok(w) => r matches Ok(x) && x@ == w,
                Err(e) => r == Err::<CanonicalWallet, WalletError>(e),
            },
            r matches Ok(x) ==> wallet_valid(x@),
    {
        proof { lemma_wallet_read_valid(data@); }
        assert(data@.skip(0) =~= data@);
        let version = match decode_u32(data, 0) {
            Some((v, _)) => v,
            None => return Err(WalletError::EncodingError(Field::Version)),
        };
        if version > KEY_LIST_VERSION {
            return Err(WalletError::UnsupportedVersion(version));
        }
        let (n, start) = match decode_compact_size(data, 4) {
            Some(x) => x,
            None => return Err(WalletError::EncodingError(Field::KeyCount)),
        };
        let ghost s = data@.skip(start as int);
        let mut keys: Vec<WalletZKey> = Vec::new();
        let mut p: usize = start;
        let mut i: u64 = 0;
        assert(keys_view(keys@) =~= seq![]);
        while i < n
            invariant
                4 < start <= p <= data@.len(),
                i <= n,
                s == data@.skip(start as int),
                u32_read(data@) == Some((version, 4nat)),
                version <= KEY_LIST_VERSION,
                compact_size_read(data@.skip(4)) == Some((n as nat, (start - 4) as nat)),
                keys_read(s, i as nat) == Ok::<(Seq<ZKeyView>, nat), WalletError>((keys_view(keys@), (p - start) as nat)),
            decreases n - i,
        {
            proof { lemma_skip_skip(data@, start as int, p - start); }
            match WalletZKey::read(data, p) {
                Ok((z, p2)) => {
                    proof {
                        assert(keys_view(keys@.push(z)) =~= keys_view(keys@).push(z@));
                    }
                    keys.push(z);
                    p = p2;
                },
                Err(e) => {
                    proof {
                        assert(zkey_read(s.skip(p - start)) == Err::<(ZKeyView, nat), WalletError>(e));
                        assert(keys_read(s, (i + 1) as nat) == Err::<(Seq<ZKeyView>, nat), WalletError>(e));
                        lemma_keys_read_error_persists(s, (i + 1) as nat, n as nat);
                        assert(wallet_read(data@) == Err::<WalletView, WalletError>(e));
                    }
                    return Err(e);
                },
            }
            i = i + 1;
        }
        if p != data.len() {
            return Err(WalletError::EncodingError(Field::TrailingBytes));
        }
        Ok(CanonicalWallet { version, keys })
    }

    /// Whether `w` can be written: its count and byte sequences fit their prefixes.
    pub fn is_encodable(w: &CanonicalWallet) -> (r: bool)
        ensures
            r == wallet_encodable(w@),
    {
        if w.keys.len() > MAX_COMPACT_SIZE {
            return false;
        }
        let mut i: usize = 0;
        while i < w.keys.len()
            invariant
                i <= w.keys@.len(),
                forall|j: int| 0 <= j < i ==> zkey_encodable(#[trigger] w@.keys[j]),
            decreases w.keys@.len() - i,
        {
            if !w.keys[i].is_encodable() {
                assert(!zkey_encodable(w@.keys[i as int]));
                return false;
            }
            i = i + 1;
        }
        true
    }

    /// Writes `w` in the key-list layout: the exact inverse of `parse`.
    pub fn write(w: &CanonicalWallet) -> (r: Vec<u8>)
        requires
            wallet_encodable(w@),
        ensures
            r@ == wallet_bytes(w@),
    {
        let mut out: Vec<u8> = Vec::new();
        encode_u32(&mut out, w.version);
        encode_compact_size(&mut out, w.keys.len());
        let ghost head = out@;
        let ghost ms = w@.keys;
        let mut i: usize = 0;
        assert(ms.take(0) =~= seq![]);
        while i < w.keys.len()
            invariant
                i <= w.keys@.len(),
                ms == w@.keys,
                wallet_encodable(w@),
                out@ == head + keys_bytes(ms.take(i as int)),
            decreases w.keys@.len() - i,
        {
            assert(zkey_encodable(ms[i as int]));
            w.keys[i].write(&mut out);
            assert(ms.take(i + 1).drop_last() =~= ms.take(i as int));
            assert(out@ =~= head + keys_bytes(ms.take(i + 1)));
            i = i + 1;
        }
        assert(ms.take(i as int) =~= ms);
        assert(out@ =~= wallet_bytes(w@));
        out
    }
}

} // verus!
