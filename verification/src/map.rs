//! The donation ledger: donor keys and their donated totals, kept in key order.
//!
//! The ledger stands where the program keeps a `BTreeMap<Pubkey, u64>`: it holds
//! each key at most once and lists its entries in ascending key order, which is
//! the order in which such a map is walked and serialised.
use vstd::prelude::*;
use crate::key::{Key, KeyOrder, compare_keys, keys_equal, key_lt, lemma_key_lt_asymmetric, lemma_key_lt_irreflexive, lemma_key_lt_total, lemma_key_lt_transitive};

verus! {

/// The value recorded for `k` in a list of entries: that of the first entry
/// with key `k`.
pub open spec fn lookup(s: Seq<(Seq<u8>, u64)>, k: Seq<u8>) -> Option<u64>
    decreases s.len(),
{
    if s.len() == 0 {
        None
    } else if s[0].0 == k {
        Some(s[0].1)
    } else {
        lookup(s.drop_first(), k)
    }
}

/// The entries after recording `v` for `k`: the value of an entry with key `k`
/// is replaced, otherwise a new entry goes before the first greater key.
pub open spec fn sorted_insert(s: Seq<(Seq<u8>, u64)>, k: Seq<u8>, v: u64) -> Seq<(Seq<u8>, u64)>
    decreases s.len(),
{
    if s.len() == 0 {
        seq![(k, v)]
    } else if s[0].0 == k {
        s.update(0, (k, v))
    } else if key_lt(k, s[0].0) {
        seq![(k, v)] + s
    } else {
        seq![s[0]] + sorted_insert(s.drop_first(), k, v)
    }
}

/// The entries of a map filled, from empty, with the pairs of `raw` in order.
pub open spec fn build_entries(raw: Seq<(Seq<u8>, u64)>) -> Seq<(Seq<u8>, u64)>
    decreases raw.len(),
{
    if raw.len() == 0 {
        seq![]
    } else {
        sorted_insert(build_entries(raw.drop_last()), raw.last().0, raw.last().1)
    }
}

/// Keys strictly ascend.
pub open spec fn is_sorted(s: Seq<(Seq<u8>, u64)>) -> bool {
    forall|i: int, j: int| 0 <= i < j < s.len() ==> key_lt(#[trigger] s[i].0, #[trigger] s[j].0)
}

/// Every key is 32 bytes long.
pub open spec fn keys_sized(s: Seq<(Seq<u8>, u64)>) -> bool {
    forall|i: int| 0 <= i < s.len() ==> (#[trigger] s[i].0).len() == 32
}

/// The entries read as a map from key to value.
pub open spec fn as_map(s: Seq<(Seq<u8>, u64)>) -> Map<Seq<u8>, u64> {
    Map::new(|k: Seq<u8>| lookup(s, k) is Some, |k: Seq<u8>| lookup(s, k).unwrap())
}

/// Every key of `sorted_insert(s, k, v)` is `k` or a key of `s`.
proof fn lemma_insert_keys(s: Seq<(Seq<u8>, u64)>, k: Seq<u8>, v: u64, m: int)
    requires
        0 <= m < sorted_insert(s, k, v).len(),
    ensures
        sorted_insert(s, k, v)[m].0 == k || exists|j: int|
            0 <= j < s.len() && #[trigger] s[j].0 == sorted_insert(s, k, v)[m].0,
    decreases s.len(),
{
    if s.len() == 0 {
    } else if s[0].0 == k {
        if m != 0 {
            assert(s[m].0 == sorted_insert(s, k, v)[m].0);
        }
    } else if key_lt(k, s[0].0) {
        if m != 0 {
            assert(s[m - 1].0 == sorted_insert(s, k, v)[m].0);
        }
    } else {
        if m == 0 {
            assert(s[0].0 == sorted_insert(s, k, v)[m].0);
        } else {
            lemma_insert_keys(s.drop_first(), k, v, m - 1);
            if sorted_insert(s, k, v)[m].0 != k {
                let j = choose|j: int|
                    0 <= j < s.drop_first().len() && #[trigger] s.drop_first()[j].0
                        == sorted_insert(s.drop_first(), k, v)[m - 1].0;
                assert(s[j + 1].0 == sorted_insert(s, k, v)[m].0);
            }
        }
    }
}

/// Recording a value keeps 32-byte keys.
pub proof fn lemma_insert_sized(s: Seq<(Seq<u8>, u64)>, k: Seq<u8>, v: u64)
    requires
        keys_sized(s),
        k.len() == 32,
    ensures
        keys_sized(sorted_insert(s, k, v)),
{
    assert forall|m: int| 0 <= m < sorted_insert(s, k, v).len() implies (
    #[trigger] sorted_insert(s, k, v)[m].0).len() == 32 by {
        lemma_insert_keys(s, k, v, m);
    }
}

/// Recording a value keeps the keys in ascending order.
pub proof fn lemma_insert_sorted(s: Seq<(Seq<u8>, u64)>, k: Seq<u8>, v: u64)
    requires
        is_sorted(s),
        keys_sized(s),
        k.len() == 32,
    ensures
        is_sorted(sorted_insert(s, k, v)),
    decreases s.len(),
{
    let t = sorted_insert(s, k, v);
    if s.len() == 0 {
    } else if s[0].0 == k {
        assert forall|i: int, j: int| 0 <= i < j < t.len() implies key_lt(
            #[trigger] t[i].0,
            #[trigger] t[j].0,
        ) by {
            assert(t[i].0 == s[i].0);
            assert(t[j].0 == s[j].0);
        }
    } else if key_lt(k, s[0].0) {
        assert forall|i: int, j: int| 0 <= i < j < t.len() implies key_lt(
            #[trigger] t[i].0,
            #[trigger] t[j].0,
        ) by {
            if i == 0 {
                if j > 1 {
                    lemma_key_lt_transitive(k, s[0].0, s[j - 1].0);
                }
            } else {
                assert(key_lt(s[i - 1].0, s[j - 1].0));
            }
        }
    } else {
        lemma_key_lt_total(k, s[0].0);
        let r = s.drop_first();
        assert(is_sorted(r)) by {
            assert forall|i: int, j: int| 0 <= i < j < r.len() implies key_lt(
                #[trigger] r[i].0,
                #[trigger] r[j].0,
            ) by {
                assert(key_lt(s[i + 1].0, s[j + 1].0));
            }
        }
        lemma_insert_sorted(r, k, v);
        assert forall|i: int, j: int| 0 <= i < j < t.len() implies key_lt(
            #[trigger] t[i].0,
            #[trigger] t[j].0,
        ) by {
            if i == 0 {
                lemma_insert_keys(r, k, v, j - 1);
                if t[j].0 != k {
                    let m = choose|m: int|
                        0 <= m < r.len() && #[trigger] r[m].0 == sorted_insert(r, k, v)[j - 1].0;
                    assert(key_lt(s[0].0, s[m + 1].0));
                }
            } else {
                assert(t[i].0 == sorted_insert(r, k, v)[i - 1].0);
                assert(t[j].0 == sorted_insert(r, k, v)[j - 1].0);
            }
        }
    }
}

/// After recording `v` for `k`, the value found for `k` is `v`.
pub proof fn lemma_lookup_insert_same(s: Seq<(Seq<u8>, u64)>, k: Seq<u8>, v: u64)
    ensures
        lookup(sorted_insert(s, k, v), k) == Some(v),
    decreases s.len(),
{
    if s.len() > 0 && s[0].0 != k && !key_lt(k, s[0].0) {
        lemma_lookup_insert_same(s.drop_first(), k, v);
        assert((seq![s[0]] + sorted_insert(s.drop_first(), k, v)).drop_first()
            =~= sorted_insert(s.drop_first(), k, v));
    }
}

/// Recording a value for `k` leaves the value found for every other key as it was.
pub proof fn lemma_lookup_insert_other(s: Seq<(Seq<u8>, u64)>, k: Seq<u8>, v: u64, k2: Seq<u8>)
    requires
        k2 != k,
    ensures
        lookup(sorted_insert(s, k, v), k2) == lookup(s, k2),
    decreases s.len(),
{
    let t = sorted_insert(s, k, v);
    if s.len() == 0 {
        assert(t.drop_first() =~= Seq::<(Seq<u8>, u64)>::empty());
    } else if s[0].0 == k {
        assert(t.drop_first() =~= s.drop_first());
    } else if key_lt(k, s[0].0) {
        assert(t.drop_first() =~= s);
    } else {
        lemma_lookup_insert_other(s.drop_first(), k, v, k2);
        assert(t.drop_first() =~= sorted_insert(s.drop_first(), k, v));
    }
}

/// Recording `v` for `k` updates the map that the entries stand for at `k`, and
/// nowhere else.
pub proof fn lemma_as_map_insert(s: Seq<(Seq<u8>, u64)>, k: Seq<u8>, v: u64)
    ensures
        as_map(sorted_insert(s, k, v)) == as_map(s).insert(k, v),
{
    assert forall|k2: Seq<u8>| k2 != k implies lookup(sorted_insert(s, k, v), k2) == lookup(
        s,
        k2,
    ) by {
        lemma_lookup_insert_other(s, k, v, k2);
    }
    lemma_lookup_insert_same(s, k, v);
    assert(as_map(sorted_insert(s, k, v)) =~= as_map(s).insert(k, v));
}

/// Before the first entry whose key is not below `k`, recording `v` for `k`
/// changes nothing.
proof fn lemma_insert_after_prefix(s: Seq<(Seq<u8>, u64)>, i: int, k: Seq<u8>, v: u64)
    requires
        0 <= i <= s.len(),
        forall|j: int| 0 <= j < i ==> key_lt(#[trigger] s[j].0, k),
    ensures
        sorted_insert(s, k, v) == s.take(i) + sorted_insert(s.skip(i), k, v),
    decreases i,
{
    if i == 0 {
        assert(s.skip(0) =~= s);
        assert(s.take(0) + sorted_insert(s, k, v) =~= sorted_insert(s, k, v));
    } else {
        lemma_key_lt_irreflexive(k);
        lemma_key_lt_asymmetric(s[0].0, k);
        assert(key_lt(s[0].0, k));
        let r = s.drop_first();
        assert forall|j: int| 0 <= j < i - 1 implies key_lt(#[trigger] r[j].0, k) by {
            assert(key_lt(s[j + 1].0, k));
        }
        lemma_insert_after_prefix(r, i - 1, k, v);
        assert(r.skip(i - 1) =~= s.skip(i));
        assert(seq![s[0]] + r.take(i - 1) =~= s.take(i));
        assert(seq![s[0]] + (r.take(i - 1) + sorted_insert(s.skip(i), k, v)) =~= s.take(i)
            + sorted_insert(s.skip(i), k, v));
    }
}

/// A key that no entry has is found nowhere.
proof fn lemma_lookup_absent(s: Seq<(Seq<u8>, u64)>, k: Seq<u8>)
    requires
        forall|j: int| 0 <= j < s.len() ==> #[trigger] s[j].0 != k,
    ensures
        lookup(s, k) is None,
    decreases s.len(),
{
    if s.len() > 0 {
        let r = s.drop_first();
        assert forall|j: int| 0 <= j < r.len() implies #[trigger] r[j].0 != k by {
            assert(r[j] == s[j + 1]);
        }
        lemma_lookup_absent(r, k);
    }
}

/// Recording a value adds an entry exactly when the key had none.
pub proof fn lemma_insert_len(s: Seq<(Seq<u8>, u64)>, k: Seq<u8>, v: u64)
    requires
        is_sorted(s),
        keys_sized(s),
        k.len() == 32,
    ensures
        sorted_insert(s, k, v).len() == s.len() + (if lookup(s, k) is Some {
            0int
        } else {
            1int
        }),
    decreases s.len(),
{
    if s.len() == 0 {
    } else if s[0].0 == k {
    } else if key_lt(k, s[0].0) {
        assert forall|j: int| 0 <= j < s.len() implies #[trigger] s[j].0 != k by {
            if j > 0 {
                assert(key_lt(s[0].0, s[j].0));
                lemma_key_lt_transitive(k, s[0].0, s[j].0);
            }
            lemma_key_lt_irreflexive(k);
        }
        lemma_lookup_absent(s, k);
    } else {
        let r = s.drop_first();
        assert(is_sorted(r)) by {
            assert forall|i: int, j: int| 0 <= i < j < r.len() implies key_lt(
                #[trigger] r[i].0,
                #[trigger] r[j].0,
            ) by {
                assert(key_lt(s[i + 1].0, s[j + 1].0));
            }
        }
        assert(keys_sized(r)) by {
            assert forall|i: int| 0 <= i < r.len() implies (#[trigger] r[i].0).len() == 32 by {
                assert(r[i] == s[i + 1]);
            }
        }
        lemma_insert_len(r, k, v);
    }
}

/// In entries with strictly ascending keys, the value found for an entry's key
/// is that entry's value.
pub proof fn lemma_lookup_at(s: Seq<(Seq<u8>, u64)>, j: int)
    requires
        is_sorted(s),
        0 <= j < s.len(),
    ensures
        lookup(s, s[j].0) == Some(s[j].1),
    decreases j,
{
    if j > 0 {
        assert(key_lt(s[0].0, s[j].0));
        lemma_key_lt_irreflexive(s[j].0);
        let r = s.drop_first();
        assert(is_sorted(r)) by {
            assert forall|a: int, b: int| 0 <= a < b < r.len() implies key_lt(
                #[trigger] r[a].0,
                #[trigger] r[b].0,
            ) by {
                assert(key_lt(s[a + 1].0, s[b + 1].0));
            }
        }
        lemma_lookup_at(r, j - 1);
    }
}

/// A key that is found belongs to some entry.
pub proof fn lemma_lookup_found(s: Seq<(Seq<u8>, u64)>, k: Seq<u8>)
    requires
        lookup(s, k) is Some,
    ensures
        exists|j: int| 0 <= j < s.len() && #[trigger] s[j].0 == k,
    decreases s.len(),
{
    if s[0].0 != k {
        lemma_lookup_found(s.drop_first(), k);
        let j = choose|j: int| 0 <= j < s.drop_first().len() && #[trigger] s.drop_first()[j].0 == k;
        assert(s[j + 1].0 == k);
    }
}

/// Entries with strictly ascending keys are determined by the values they give:
/// two such lists that find the same value for every key are the same list.
pub proof fn lemma_sorted_canonical(s: Seq<(Seq<u8>, u64)>, t: Seq<(Seq<u8>, u64)>)
    requires
        is_sorted(s),
        is_sorted(t),
        as_map(s) == as_map(t),
    ensures
        s == t,
    decreases s.len() + t.len(),
{
    assert forall|k: Seq<u8>| lookup(s, k) == lookup(t, k) by {
        assert(as_map(s).contains_key(k) == (lookup(s, k) is Some));
        assert(as_map(t).contains_key(k) == (lookup(t, k) is Some));
        if lookup(s, k) is Some {
            assert(as_map(s)[k] == lookup(s, k).unwrap());
            assert(as_map(t)[k] == lookup(t, k).unwrap());
        }
    }
    if s.len() == 0 {
        if t.len() > 0 {
            lemma_lookup_at(t, 0);
            assert(lookup(s, t[0].0) is None);
        }
        assert(s =~= t);
    } else if t.len() == 0 {
        lemma_lookup_at(s, 0);
    } else {
        let k = s[0].0;
        lemma_lookup_at(s, 0);
        lemma_lookup_at(t, 0);
        lemma_lookup_found(t, k);
        lemma_lookup_found(s, t[0].0);
        let j = choose|j: int| 0 <= j < t.len() && #[trigger] t[j].0 == k;
        let i = choose|i: int| 0 <= i < s.len() && #[trigger] s[i].0 == t[0].0;
        if j > 0 {
            assert(key_lt(t[0].0, t[j].0));
            if i == 0 {
                lemma_key_lt_irreflexive(k);
            } else {
                assert(key_lt(s[0].0, s[i].0));
                lemma_key_lt_asymmetric(k, t[0].0);
            }
        }
        assert(t[0].0 == k);
        assert(t[0] == s[0]);
        let rs = s.drop_first();
        let rt = t.drop_first();
        assert(is_sorted(rs)) by {
            assert forall|a: int, b: int| 0 <= a < b < rs.len() implies key_lt(
                #[trigger] rs[a].0,
                #[trigger] rs[b].0,
            ) by {
                assert(key_lt(s[a + 1].0, s[b + 1].0));
            }
        }
        assert(is_sorted(rt)) by {
            assert forall|a: int, b: int| 0 <= a < b < rt.len() implies key_lt(
                #[trigger] rt[a].0,
                #[trigger] rt[b].0,
            ) by {
                assert(key_lt(t[a + 1].0, t[b + 1].0));
            }
        }
        assert forall|k2: Seq<u8>| lookup(rs, k2) == lookup(rt, k2) by {
            if k2 == k {
                assert forall|m: int| 0 <= m < rs.len() implies #[trigger] rs[m].0 != k by {
                    assert(key_lt(s[0].0, s[m + 1].0));
                    lemma_key_lt_irreflexive(k);
                }
                assert forall|m: int| 0 <= m < rt.len() implies #[trigger] rt[m].0 != k by {
                    assert(key_lt(t[0].0, t[m + 1].0));
                    lemma_key_lt_irreflexive(k);
                }
                lemma_lookup_absent(rs, k);
                lemma_lookup_absent(rt, k);
            } else {
                assert(lookup(s, k2) == lookup(t, k2));
                assert(lookup(s, k2) == lookup(rs, k2));
                assert(lookup(t, k2) == lookup(rt, k2));
            }
        }
        assert(as_map(rs) =~= as_map(rt));
        lemma_sorted_canonical(rs, rt);
        assert(s =~= seq![s[0]] + rs);
        assert(t =~= seq![t[0]] + rt);
    }
}

/// Recording values for two different keys gives the same entries in either order.
pub proof fn lemma_insert_commute(
    s: Seq<(Seq<u8>, u64)>,
    k1: Seq<u8>,
    v1: u64,
    k2: Seq<u8>,
    v2: u64,
)
    requires
        is_sorted(s),
        keys_sized(s),
        k1.len() == 32,
        k2.len() == 32,
        k1 != k2,
    ensures
        sorted_insert(sorted_insert(s, k1, v1), k2, v2) == sorted_insert(
            sorted_insert(s, k2, v2),
            k1,
            v1,
        ),
{
    let a = sorted_insert(s, k1, v1);
    let b = sorted_insert(s, k2, v2);
    lemma_insert_sorted(s, k1, v1);
    lemma_insert_sized(s, k1, v1);
    lemma_insert_sorted(s, k2, v2);
    lemma_insert_sized(s, k2, v2);
    lemma_insert_sorted(a, k2, v2);
    lemma_insert_sorted(b, k1, v1);
    lemma_as_map_insert(s, k1, v1);
    lemma_as_map_insert(s, k2, v2);
    lemma_as_map_insert(a, k2, v2);
    lemma_as_map_insert(b, k1, v1);
    assert(as_map(s).insert(k1, v1).insert(k2, v2) =~= as_map(s).insert(k2, v2).insert(k1, v1));
    lemma_sorted_canonical(sorted_insert(a, k2, v2), sorted_insert(b, k1, v1));
}

/// Recording two values for one key leaves the second.
pub proof fn lemma_insert_overwrite(s: Seq<(Seq<u8>, u64)>, k: Seq<u8>, v1: u64, v2: u64)
    requires
        is_sorted(s),
        keys_sized(s),
        k.len() == 32,
    ensures
        sorted_insert(sorted_insert(s, k, v1), k, v2) == sorted_insert(s, k, v2),
{
    let a = sorted_insert(s, k, v1);
    lemma_insert_sorted(s, k, v1);
    lemma_insert_sized(s, k, v1);
    lemma_insert_sorted(a, k, v2);
    lemma_insert_sorted(s, k, v2);
    lemma_as_map_insert(s, k, v1);
    lemma_as_map_insert(a, k, v2);
    lemma_as_map_insert(s, k, v2);
    assert(as_map(s).insert(k, v1).insert(k, v2) =~= as_map(s).insert(k, v2));
    lemma_sorted_canonical(sorted_insert(a, k, v2), sorted_insert(s, k, v2));
}

/// Recording a value for a key above every key present appends an entry.
pub proof fn lemma_insert_greatest(s: Seq<(Seq<u8>, u64)>, k: Seq<u8>, v: u64)
    requires
        forall|j: int| 0 <= j < s.len() ==> key_lt(#[trigger] s[j].0, k),
    ensures
        sorted_insert(s, k, v) == s.push((k, v)),
{
    lemma_insert_after_prefix(s, s.len() as int, k, v);
    assert(s.skip(s.len() as int) =~= Seq::<(Seq<u8>, u64)>::empty());
    assert(s.take(s.len() as int) =~= s);
    assert(s + seq![(k, v)] =~= s.push((k, v)));
}

/// Map entries as an exec list, viewed with keys as byte strings.
pub open spec fn entries_view(v: Seq<(Key, u64)>) -> Seq<(Seq<u8>, u64)> {
    v.map_values(|e: (Key, u64)| (e.0@, e.1))
}

/// The donation ledger.
#[derive(Debug)]
pub struct DonationMap {
    entries: Vec<(Key, u64)>,
}

impl View for DonationMap {
    type V = Seq<(Seq<u8>, u64)>;

    closed spec fn view(&self) -> Seq<(Seq<u8>, u64)> {
        entries_view(self.entries@)
    }
}

impl DonationMap {
    /// The ledger's invariant: keys strictly ascend and are 32 bytes long.
    pub open spec fn wf(&self) -> bool {
        is_sorted(self@) && keys_sized(self@)
    }

    /// An empty ledger.
    pub fn new() -> (r: Self)
        ensures
            r@ == Seq::<(Seq<u8>, u64)>::empty(),
            r.wf(),
    {
        let r = DonationMap { entries: Vec::new() };
        assert(r@ =~= Seq::<(Seq<u8>, u64)>::empty());
        r
    }

    /// The number of entries.
    pub fn len(&self) -> (r: usize)
        ensures
            r == self@.len(),
    {
        self.entries.len()
    }

    /// The entry at position `i`.
    pub fn entry(&self, i: usize) -> (r: (Key, u64))
        requires
            i < self@.len(),
        ensures
            r.0@ == self@[i as int].0,
            r.1 == self@[i as int].1,
    {
        self.entries[i]
    }

    /// The value recorded for `k`, if any.
    pub fn get(&self, k: &Key) -> (r: Option<u64>)
        ensures
            r == lookup(self@, k@),
    {
        let ghost s = self@;
        let mut i: usize = 0;
        proof {
            assert(s.skip(0) =~= s);
        }
        while i < self.entries.len()
            invariant
                0 <= i <= self.entries@.len(),
                s == entries_view(self.entries@),
                lookup(s, k@) == lookup(s.skip(i as int), k@),
            decreases self.entries@.len() - i,
        {
            let e = self.entries[i];
            if keys_equal(&e.0, k) {
                return Some(e.1);
            }
            proof {
                assert(s.skip(i as int).drop_first() =~= s.skip(i + 1));
            }
            i = i + 1;
        }
        None
    }

    /// Records `v` for `k`, replacing an earlier value.
    pub fn insert(&mut self, k: Key, v: u64)
        requires
            old(self).wf(),
        ensures
            final(self)@ == sorted_insert(old(self)@, k@, v),
            final(self).wf(),
    {
        let ghost s = self@;
        let mut i: usize = 0;
        while i < self.entries.len() && compare_keys(&self.entries[i].0, &k) == KeyOrder::Less
            invariant
                0 <= i <= self.entries@.len(),
                s == entries_view(self.entries@),
                forall|j: int| 0 <= j < i ==> key_lt(#[trigger] s[j].0, k@),
            decreases self.entries@.len() - i,
        {
            i = i + 1;
        }
        proof {
            lemma_insert_after_prefix(s, i as int, k@, v);
            lemma_insert_sorted(s, k@, v);
            lemma_insert_sized(s, k@, v);
        }
        if i < self.entries.len() && keys_equal(&self.entries[i].0, &k) {
            self.entries.set(i, (k, v));
            proof {
                assert(s.skip(i as int)[0].0 == k@);
                assert(entries_view(self.entries@) =~= s.take(i as int) + s.skip(i as int).update(
                    0,
                    (k@, v),
                ));
            }
        } else {
            proof {
                if i < s.len() {
                    lemma_key_lt_total(k@, s[i as int].0);
                    assert(s.skip(i as int)[0] == s[i as int]);
                } else {
                    assert(s.skip(i as int) =~= Seq::<(Seq<u8>, u64)>::empty());
                }
            }
            self.entries.insert(i, (k, v));
            proof {
                assert(entries_view(self.entries@) =~= s.take(i as int) + (seq![(k@, v)] + s.skip(
                    i as int,
                )));
            }
        }
    }
}

} // verus!
