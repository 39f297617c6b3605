//! The donation program's storage account: its layout, reading, writing and address.
//!
//! The storage is serialised as borsh serialises it: the 32 bytes of
//! the donating account, a little-endian `u32` count, then per donor its 32-byte
//! key and a little-endian `u64` total, in ascending key order. It is read
//! without checking that the data ends where the value does, since the account
//! holds `Storage::LEN` bytes whatever the ledger's size.
use vstd::prelude::*;
use crate::bytes::{
    borsh_read_key, borsh_read_u32, borsh_read_u64, borsh_write_key, borsh_write_u32,
    borsh_write_u64, le_u32, le_u64, lemma_u32_value_roundtrip, lemma_u64_value_roundtrip,
    u32_le_bytes, u64_le_bytes,
};
use crate::error::DecodeError;
use crate::key::Key;
use crate::map::{
    DonationMap, build_entries, is_sorted, keys_sized, lemma_insert_sized, lemma_insert_sorted,
    sorted_insert,
};
use crate::pda::{ID, STORAGE_SEED, spec_try_find_program_address, try_find_program_address};

verus! {

/// The abstract content of a storage account.
pub struct StorageView {
    pub donating_acc: Seq<u8>,
    pub entries: Seq<(Seq<u8>, u64)>,
}

/// The `n` raw entries that follow the 36-byte header.
pub open spec fn raw_entries(b: Seq<u8>, n: nat) -> Seq<(Seq<u8>, u64)> {
    Seq::new(
        n,
        |i: int|
            (
                b.subrange(36 + 40 * i, 36 + 40 * i + 32),
                le_u64(b.subrange(36 + 40 * i + 32, 36 + 40 * i + 40)),
            ),
    )
}

/// What reading storage from `b` gives: the donating account, then the count
/// and entries, which fill a map in the order they come; bytes after the last
/// entry are ignored.
pub open spec fn decode_storage(b: Seq<u8>) -> Result<StorageView, DecodeError> {
    if b.len() < 36 {
        Err(DecodeError::UnexpectedLength)
    } else if b.len() < 36 + 40 * le_u32(b.subrange(32, 36)) {
        Err(DecodeError::UnexpectedLength)
    } else {
        Ok(
            StorageView {
                donating_acc: b.subrange(0, 32),
                entries: build_entries(raw_entries(b, le_u32(b.subrange(32, 36)) as nat)),
            },
        )
    }
}

/// The serialised entries, one after the other.
pub open spec fn encode_entries(s: Seq<(Seq<u8>, u64)>) -> Seq<u8>
    decreases s.len(),
{
    if s.len() == 0 {
        seq![]
    } else {
        encode_entries(s.drop_last()) + s.last().0 + u64_le_bytes(s.last().1)
    }
}

/// The bytes that serialising a storage writes. Borsh refuses a map with more
/// than `u32::MAX` entries after it has written the donating account.
pub open spec fn encode_storage(v: StorageView) -> Seq<u8> {
    if v.entries.len() > u32::MAX {
        v.donating_acc
    } else {
        v.donating_acc + u32_le_bytes(v.entries.len() as u32) + encode_entries(v.entries)
    }
}

/// Account data after `enc` is written from its start: writing stops at the end
/// of the account, and the bytes after what was written stay.
pub open spec fn overwrite_prefix(data: Seq<u8>, enc: Seq<u8>) -> Seq<u8> {
    if enc.len() >= data.len() {
        enc.take(data.len() as int)
    } else {
        enc + data.skip(enc.len() as int)
    }
}

/// The program's storage address with its bump seed, if one exists.
pub open spec fn storage_address() -> Option<(Seq<u8>, u8)> {
    spec_try_find_program_address(STORAGE_SEED@, ID@)
}

/// The storage of the donation program.
#[derive(Debug)]
pub struct Storage {
    /// The donating account; all zeros before initialisation.
    pub donating_acc: Key,
    /// Donor totals.
    pub map: DonationMap,
}

impl View for Storage {
    type V = StorageView;

    open spec fn view(&self) -> StorageView {
        StorageView { donating_acc: self.donating_acc@, entries: self.map@ }
    }
}

/// The serialised entries take 40 bytes each; entry `i` holds its key at
/// `40 * i` and its value's bytes at `40 * i + 32`.
proof fn lemma_encode_entries_layout(s: Seq<(Seq<u8>, u64)>)
    requires
        keys_sized(s),
    ensures
        encode_entries(s).len() == 40 * s.len(),
        forall|i: int|
            0 <= i < s.len() ==> encode_entries(s).subrange(40 * i, 40 * i + 32) == #[trigger] s[i].0
                && encode_entries(s).subrange(40 * i + 32, 40 * i + 40) == u64_le_bytes(s[i].1),
    decreases s.len(),
{
    if s.len() > 0 {
        let p = s.drop_last();
        assert(keys_sized(p)) by {
            assert forall|i: int| 0 <= i < p.len() implies (#[trigger] p[i].0).len() == 32 by {
                assert(p[i] == s[i]);
            }
        }
        lemma_encode_entries_layout(p);
        lemma_u64_value_roundtrip(s.last().1);
        let e = encode_entries(s);
        assert(s.last().0.len() == 32) by {
            assert(s[s.len() - 1].0.len() == 32);
        }
        assert forall|i: int| 0 <= i < s.len() implies e.subrange(40 * i, 40 * i + 32)
            == #[trigger] s[i].0 && e.subrange(40 * i + 32, 40 * i + 40) == u64_le_bytes(s[i].1) by {
            if i < p.len() {
                assert(p[i] == s[i]);
                assert(e.subrange(40 * i, 40 * i + 32) =~= encode_entries(p).subrange(
                    40 * i,
                    40 * i + 32,
                ));
                assert(e.subrange(40 * i + 32, 40 * i + 40) =~= encode_entries(p).subrange(
                    40 * i + 32,
                    40 * i + 40,
                ));
            } else {
                assert(e.subrange(40 * i, 40 * i + 32) =~= s.last().0);
                assert(e.subrange(40 * i + 32, 40 * i + 40) =~= u64_le_bytes(s.last().1));
            }
        }
    }
}

/// Filling a map with entries whose keys strictly ascend gives those entries back.
pub proof fn lemma_build_sorted(s: Seq<(Seq<u8>, u64)>)
    requires
        is_sorted(s),
    ensures
        build_entries(s) == s,
    decreases s.len(),
{
    if s.len() > 0 {
        let p = s.drop_last();
        assert(is_sorted(p)) by {
            assert forall|i: int, j: int| 0 <= i < j < p.len() implies crate::key::key_lt(
                #[trigger] p[i].0,
                #[trigger] p[j].0,
            ) by {
                assert(p[i] == s[i] && p[j] == s[j]);
            }
        }
        lemma_build_sorted(p);
        assert forall|j: int| 0 <= j < p.len() implies crate::key::key_lt(
            #[trigger] p[j].0,
            s.last().0,
        ) by {
            assert(p[j] == s[j]);
            assert(crate::key::key_lt(s[j].0, s[s.len() - 1].0));
        }
        crate::map::lemma_insert_greatest(p, s.last().0, s.last().1);
        assert(p.push(s.last()) =~= s);
    }
}

/// Entries read from storage have 32-byte keys in ascending order.
proof fn lemma_build_wf(raw: Seq<(Seq<u8>, u64)>)
    requires
        keys_sized(raw),
    ensures
        is_sorted(build_entries(raw)),
        keys_sized(build_entries(raw)),
    decreases raw.len(),
{
    if raw.len() > 0 {
        let p = raw.drop_last();
        assert(keys_sized(p)) by {
            assert forall|i: int| 0 <= i < p.len() implies (#[trigger] p[i].0).len() == 32 by {
                assert(p[i] == raw[i]);
            }
        }
        lemma_build_wf(p);
        assert(raw.last().0.len() == 32) by {
            assert(raw[raw.len() - 1].0.len() == 32);
        }
        lemma_insert_sorted(build_entries(p), raw.last().0, raw.last().1);
        lemma_insert_sized(build_entries(p), raw.last().0, raw.last().1);
    }
}

/// What is written for a storage holds its donating account, its entry count
/// and its entries, in this order.
pub proof fn lemma_encode_layout(v: StorageView)
    requires
        v.donating_acc.len() == 32,
        keys_sized(v.entries),
        v.entries.len() <= u32::MAX,
    ensures
        encode_storage(v).len() == 36 + 40 * v.entries.len(),
        encode_storage(v).subrange(0, 32) == v.donating_acc,
        le_u32(encode_storage(v).subrange(32, 36)) == v.entries.len(),
        raw_entries(encode_storage(v), v.entries.len()) == v.entries,
{
    let e = encode_storage(v);
    let n = v.entries.len();
    lemma_u32_value_roundtrip(n as u32);
    lemma_encode_entries_layout(v.entries);
    assert(e.subrange(0, 32) =~= v.donating_acc);
    assert(e.subrange(32, 36) =~= u32_le_bytes(n as u32));
    let r = raw_entries(e, n);
    assert forall|i: int| 0 <= i < n implies #[trigger] r[i] == v.entries[i] by {
        assert(e.subrange(36 + 40 * i, 36 + 40 * i + 32) =~= encode_entries(v.entries).subrange(
            40 * i,
            40 * i + 32,
        ));
        assert(e.subrange(36 + 40 * i + 32, 36 + 40 * i + 40) =~= encode_entries(
            v.entries,
        ).subrange(40 * i + 32, 40 * i + 40));
        crate::bytes::lemma_u64_value_roundtrip(v.entries[i].1);
    }
    assert(r =~= v.entries);
}

/// Reading back a storage that was written into account data whole gives the
/// storage that was written.
pub proof fn lemma_write_then_read(data: Seq<u8>, v: StorageView)
    requires
        v.donating_acc.len() == 32,
        keys_sized(v.entries),
        is_sorted(v.entries),
        v.entries.len() <= u32::MAX,
        encode_storage(v).len() <= data.len(),
    ensures
        decode_storage(overwrite_prefix(data, encode_storage(v))) == Ok::<StorageView, DecodeError>(v),
{
    let e = encode_storage(v);
    let w = overwrite_prefix(data, e);
    lemma_encode_layout(v);
    let n = v.entries.len();
    assert(w.subrange(0, 32) =~= e.subrange(0, 32));
    assert(w.subrange(32, 36) =~= e.subrange(32, 36));
    assert(raw_entries(w, n) =~= raw_entries(e, n)) by {
        assert forall|i: int| 0 <= i < n implies #[trigger] raw_entries(w, n)[i] == raw_entries(
            e,
            n,
        )[i] by {
            assert(w.subrange(36 + 40 * i, 36 + 40 * i + 32) =~= e.subrange(
                36 + 40 * i,
                36 + 40 * i + 32,
            ));
            assert(w.subrange(36 + 40 * i + 32, 36 + 40 * i + 40) =~= e.subrange(
                36 + 40 * i + 32,
                36 + 40 * i + 40,
            ));
        }
    }
    lemma_build_sorted(v.entries);
}

/// Storage read from any bytes has 32-byte keys in ascending order.
pub proof fn lemma_decoded_wf(b: Seq<u8>)
    ensures
        decode_storage(b) matches Ok(v) ==> v.donating_acc.len() == 32 && is_sorted(v.entries)
            && keys_sized(v.entries),
{
    if b.len() >= 36 {
        let n = le_u32(b.subrange(32, 36)) as nat;
        if b.len() >= 36 + 40 * n {
            let raw = raw_entries(b, n);
            assert(keys_sized(raw));
            lemma_build_wf(raw);
        }
    }
}

impl Storage {
    /// The size of the storage account: room for ten donors.
    pub const LEN: usize = 32 + (4 + (10 * 40));

    /// The storage's invariant: its ledger's.
    pub open spec fn wf(&self) -> bool {
        self.map.wf()
    }

    /// Reads storage from account data, ignoring bytes after the value.
    pub fn try_from_slice_unchecked(data: &[u8]) -> (r: Result<Storage, DecodeError>)
        ensures
            match decode_storage(data@) {
                Ok(v) => r is Ok && r.unwrap()@ == v && r.unwrap().wf(),
                Err(e) => r == Err::<Storage, DecodeError>(e),
            },
    {
        if data.len() < 36 {
            return Err(DecodeError::UnexpectedLength);
        }
        let donating_acc = match borsh_read_key(data, 0) {
            Some(k) => k,
            None => {
                return Err(DecodeError::UnexpectedLength);
            },
        };
        let n = match borsh_read_u32(data, 32) {
            Some(n) => n,
            None => {
                return Err(DecodeError::UnexpectedLength);
            },
        };
        let need: u64 = 36 + 40 * (n as u64);
        if (data.len() as u64) < need {
            return Err(DecodeError::UnexpectedLength);
        }
        let ghost raw = raw_entries(data@, n as nat);
        assert(data@.len() <= usize::MAX);
        let mut map = DonationMap::new();
        let mut i: u32 = 0;
        while i < n
            invariant
                0 <= i <= n,
                n == le_u32(data@.subrange(32, 36)),
                36 + 40 * n <= data@.len(),
                data@.len() <= usize::MAX,
                raw == raw_entries(data@, n as nat),
                map.wf(),
                map@ == build_entries(raw.take(i as int)),
            decreases n - i,
        {
            let pos: usize = 36 + 40 * (i as usize);
            let k = match borsh_read_key(data, pos) {
                Some(k) => k,
                None => {
                    return Err(DecodeError::UnexpectedLength);
                },
            };
            let v = match borsh_read_u64(data, pos + 32) {
                Some(v) => v,
                None => {
                    return Err(DecodeError::UnexpectedLength);
                },
            };
            map.insert(k, v);
            proof {
                assert(raw.take(i + 1).drop_last() =~= raw.take(i as int));
                assert(raw.take(i + 1).last() == raw[i as int]);
            }
            i = i + 1;
        }
        proof {
            assert(raw.take(n as int) =~= raw);
        }
        Ok(Storage { donating_acc, map })
    }

    /// The bytes that serialising the storage writes.
    pub fn to_bytes(&self) -> (r: Vec<u8>)
        ensures
            r@ == encode_storage(self@),
    {
        let mut out = borsh_write_key(&self.donating_acc);
        let n = self.map.len();
        if n > u32::MAX as usize {
            return out;
        }
        let mut count = borsh_write_u32(n as u32);
        out.append(&mut count);
        let ghost s = self.map@;
        let mut i: usize = 0;
        while i < n
            invariant
                0 <= i <= n,
                n == s.len(),
                s == self.map@,
                n <= u32::MAX,
                out@ == self.donating_acc@ + u32_le_bytes(n as u32) + encode_entries(
                    s.take(i as int),
                ),
            decreases n - i,
        {
            let e = self.map.entry(i);
            let mut kb = borsh_write_key(&e.0);
            let mut vb = borsh_write_u64(e.1);
            out.append(&mut kb);
            out.append(&mut vb);
            proof {
                assert(s.take(i + 1).drop_last() =~= s.take(i as int));
                assert(s.take(i + 1).last() == s[i as int]);
            }
            i = i + 1;
        }
        proof {
            assert(s.take(n as int) =~= s);
        }
        out
    }

    /// Account data after the storage is serialised into it: the serialised
    /// bytes from the start, cut at the account's end; the rest unchanged.
    pub fn write_to(&self, data: &[u8]) -> (r: Vec<u8>)
        ensures
            r@ == overwrite_prefix(data@, encode_storage(self@)),
    {
        let enc = self.to_bytes();
        let mut out: Vec<u8> = Vec::new();
        let mut i: usize = 0;
        while i < data.len()
            invariant
                0 <= i <= data@.len(),
                enc@ == encode_storage(self@),
                out@.len() == i,
                forall|j: int|
                    0 <= j < i ==> #[trigger] out@[j] == (if j < enc@.len() {
                        enc@[j]
                    } else {
                        data@[j]
                    }),
            decreases data@.len() - i,
        {
            if i < enc.len() {
                out.push(enc[i]);
            } else {
                out.push(data[i]);
            }
            i = i + 1;
        }
        assert(out@ =~= overwrite_prefix(data@, enc@));
        out
    }

    /// The storage address with its bump seed.
    pub fn get_storage_pubkey_with_bump() -> (r: (Key, u8))
        requires
            storage_address() is Some,
        ensures
            (r.0@, r.1) == storage_address().unwrap(),
    {
        match try_find_program_address(STORAGE_SEED, &ID) {
            Some(p) => p,
            None => {
                proof {
                    assert(false);
                }
                ([0u8; 32], 0)
            },
        }
    }

    /// The storage address.
    pub fn get_storage_pubkey() -> (r: Key)
        requires
            storage_address() is Some,
        ensures
            r@ == storage_address().unwrap().0,
    {
        let (pubkey, _) = Self::get_storage_pubkey_with_bump();
        pubkey
    }

    /// Whether `storage_pubkey` is the storage address.
    pub fn is_ok_storage_pubkey(storage_pubkey: &Key) -> (r: bool)
        requires
            storage_address() is Some,
        ensures
            r == (storage_pubkey@ == storage_address().unwrap().0),
    {
        let (pubkey, _) = Self::get_storage_pubkey_with_bump();
        crate::key::keys_equal(&pubkey, storage_pubkey)
    }

    /// The storage address, or `None` where no bump seed gives one (where
    /// `get_storage_pubkey` cannot be called).
    pub fn find_storage_pubkey() -> (r: Option<Key>)
        ensures
            match storage_address() {
                Some(p) => r is Some && r.unwrap()@ == p.0,
                None => r is None,
            },
    {
        match try_find_program_address(STORAGE_SEED, &ID) {
            Some(_) => Some(Self::get_storage_pubkey()),
            None => None,
        }
    }
}

} // verus!
