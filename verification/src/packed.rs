//! Maps and sets keyed by chunk positions. Each key is packed into one
//! integer, so that the standard hash table holds plain integers.

use crate::geometry::IVec3;
use crate::lists::lemma_push_contains;
use std::collections::HashMap;
use vstd::prelude::*;
use vstd::std_specs::iter::IteratorSpec;

verus! {

/// A key that packs into one integer without loss.
pub trait PackedKey: Copy {
    /// The integer that stands for the key.
    spec fn packed(self) -> u128;

    /// Packs the key.
    fn pack(self) -> (k: u128)
        ensures
            k == self.packed(),
    ;

    /// The key that an integer stands for, if any.
    fn unpack(k: u128) -> (key: Option<Self>)
        ensures
            key matches Some(p) ==> p.packed() == k,
            key is None ==> forall|p: Self| #[trigger] p.packed() != k,
    ;

    /// Distinct keys stand for distinct integers.
    proof fn packed_injective(p: Self, q: Self)
        requires
            p.packed() == q.packed(),
        ensures
            p == q,
    ;
}

/// A coordinate moved into the range of unsigned integers.
pub open spec fn biased(v: i32) -> int {
    v + 0x8000_0000
}

fn bias(v: i32) -> (b: u128)
    ensures
        b == biased(v),
{
    (v as i64 + 0x8000_0000i64) as u128
}

fn unbias(b: u128) -> (v: i32)
    requires
        b < 0x1_0000_0000,
    ensures
        biased(v) == b,
{
    (b as i64 - 0x8000_0000i64) as i32
}

impl PackedKey for IVec3 {
    open spec fn packed(self) -> u128 {
        (biased(self.x) * 0x1_0000_0000_0000_0000 + biased(self.y) * 0x1_0000_0000 + biased(
            self.z,
        )) as u128
    }

    fn pack(self) -> (k: u128) {
        bias(self.x) * 0x1_0000_0000_0000_0000 + bias(self.y) * 0x1_0000_0000 + bias(self.z)
    }

    fn unpack(k: u128) -> (key: Option<Self>) {
        if k < 0x1_0000_0000_0000_0000_0000_0000 {
            let x: i32 = unbias(k / 0x1_0000_0000_0000_0000);
            let y: i32 = unbias((k / 0x1_0000_0000) % 0x1_0000_0000);
            let z: i32 = unbias(k % 0x1_0000_0000);
            Some(IVec3 { x, y, z })
        } else {
            None
        }
    }

    proof fn packed_injective(p: Self, q: Self) {
        lemma_packed_value(p);
        lemma_packed_value(q);
    }
}

/// A packed position is the number that its coordinates spell.
proof fn lemma_packed_value(p: IVec3)
    ensures
        p.packed() as int == biased(p.x) * 0x1_0000_0000_0000_0000 + biased(p.y) * 0x1_0000_0000
            + biased(p.z),
        0 <= biased(p.x) < 0x1_0000_0000,
        0 <= biased(p.y) < 0x1_0000_0000,
        0 <= biased(p.z) < 0x1_0000_0000,
        p.packed() < 0x1_0000_0000_0000_0000_0000_0000,
{
}

/// A chunk position on a level of detail.
#[derive(Clone, Copy, Debug, PartialEq, Eq, Structural, Hash)]
pub struct LodPos {
    pub level: u8,
    pub pos: IVec3,
}

impl PackedKey for LodPos {
    open spec fn packed(self) -> u128 {
        (self.level * 0x1_0000_0000_0000_0000_0000_0000 + self.pos.packed()) as u128
    }

    fn pack(self) -> (k: u128) {
        self.level as u128 * 0x1_0000_0000_0000_0000_0000_0000 + self.pos.pack()
    }

    fn unpack(k: u128) -> (key: Option<Self>) {
        let high: u128 = k / 0x1_0000_0000_0000_0000_0000_0000;
        if high < 256 {
            match IVec3::unpack(k % 0x1_0000_0000_0000_0000_0000_0000) {
                Some(pos) => Some(LodPos { level: high as u8, pos }),
                None => None,
            }
        } else {
            None
        }
    }

    proof fn packed_injective(p: Self, q: Self) {
        lemma_packed_value(p.pos);
        lemma_packed_value(q.pos);
        let top: int = 0x1_0000_0000_0000_0000_0000_0000;
        assert(p.packed() as int == p.level * top + p.pos.packed());
        assert(q.packed() as int == q.level * top + q.pos.packed());
        assert(p.level == q.level && p.pos.packed() == q.pos.packed());
        IVec3::packed_injective(p.pos, q.pos);
    }
}

/// A hash map from packed keys to values.
#[derive(Debug)]
pub struct PackedMap<K: PackedKey, V> {
    entries: HashMap<u128, V>,
    marker: core::marker::PhantomData<K>,
}

impl<K: PackedKey, V> View for PackedMap<K, V> {
    type V = Map<K, V>;

    closed spec fn view(&self) -> Map<K, V> {
        Map::new(|p: K| self.entries@.contains_key(p.packed()), |p: K| self.entries@[p.packed()])
    }
}

impl<K: PackedKey, V> PackedMap<K, V> {
    /// An empty map.
    pub fn new() -> (m: Self)
        ensures
            m@ == Map::<K, V>::empty(),
    {
        let m = PackedMap { entries: HashMap::new(), marker: core::marker::PhantomData };
        assert(m@ =~= Map::<K, V>::empty());
        m
    }

    /// Whether `key` has a value.
    pub fn contains_key(&self, key: K) -> (b: bool)
        ensures
            b == self@.contains_key(key),
    {
        self.entries.contains_key(&key.pack())
    }

    /// The value of `key`.
    pub fn get(&self, key: K) -> (v: Option<&V>)
        ensures
            v == if self@.contains_key(key) {
                Some(&self@[key])
            } else {
                None
            },
    {
        self.entries.get(&key.pack())
    }

    /// Gives `key` a value and returns the one it had.
    pub fn insert(&mut self, key: K, value: V) -> (previous: Option<V>)
        ensures
            final(self)@ == old(self)@.insert(key, value),
            previous == if old(self)@.contains_key(key) {
                Some(old(self)@[key])
            } else {
                None
            },
    {
        let previous = self.entries.insert(key.pack(), value);
        proof {
            assert forall|p: K, q: K| #[trigger] p.packed() == #[trigger] q.packed() implies p == q by {
                K::packed_injective(p, q);
            }
            assert(self@ =~= old(self)@.insert(key, value));
        }
        previous
    }

    /// Takes the value of `key` out.
    pub fn remove(&mut self, key: K) -> (previous: Option<V>)
        ensures
            final(self)@ == old(self)@.remove(key),
            previous == if old(self)@.contains_key(key) {
                Some(old(self)@[key])
            } else {
                None
            },
    {
        let previous = self.entries.remove(&key.pack());
        proof {
            assert forall|p: K, q: K| #[trigger] p.packed() == #[trigger] q.packed() implies p == q by {
                K::packed_injective(p, q);
            }
            assert(self@ =~= old(self)@.remove(key));
        }
        previous
    }

    /// Takes everything out.
    pub fn clear(&mut self)
        ensures
            final(self)@ == Map::<K, V>::empty(),
    {
        self.entries.clear();
        assert(self@ =~= Map::<K, V>::empty());
    }

    /// The keys, each once, in no particular order.
    pub fn keys(&self) -> (keys: Vec<K>)
        ensures
            keys@.no_duplicates(),
            keys@.to_set() == self@.dom(),
    {
        let raw = self.raw_keys();
        let mut out: Vec<K> = Vec::new();
        let mut n: usize = 0;
        while n < raw.len()
            invariant
                n <= raw@.len(),
                raw@.no_duplicates(),
                out@.no_duplicates(),
                forall|p: K| #[trigger] out@.contains(p) <==> raw@.take(n as int).contains(p.packed()),
            decreases raw@.len() - n,
        {
            let ghost before = out@;
            let ghost seen = raw@.take(n as int);
            assert(raw@.take(n + 1) =~= seen.push(raw@[n as int]));
            assert(!seen.contains(raw@[n as int]));
            proof {
                lemma_push_contains(seen, raw@[n as int]);
            }
            match K::unpack(raw[n]) {
                Some(p) => {
                    out.push(p);
                    proof {
                        lemma_push_contains(before, p);
                        assert forall|q: K| #[trigger] out@.contains(q) <==> raw@.take(
                            n + 1,
                        ).contains(q.packed()) by {
                            if q.packed() == p.packed() {
                                K::packed_injective(p, q);
                            }
                        }
                    }
                },
                None => {},
            }
            n += 1;
        }
        proof {
            assert(raw@.take(n as int) =~= raw@);
            assert forall|p: K| #[trigger] out@.to_set().contains(p) == self@.dom().contains(p) by {
                assert(raw@.to_set().contains(p.packed()) == self.entries@.dom().contains(p.packed()));
            }
            assert(out@.to_set() =~= self@.dom());
        }
        out
    }

    /// The integers that stand for the keys.
    fn raw_keys(&self) -> (raw: Vec<u128>)
        ensures
            raw@.no_duplicates(),
            raw@.to_set() == self.entries@.dom(),
    {
        let keys = self.entries.keys();
        let ghost all = keys.remaining();
        let mut raw: Vec<u128> = Vec::new();
        for k in it: keys
            invariant
                it.seq() == all,
                raw@ =~= all.take(it.index() as int).unref(),
        {
            raw.push(*k);
        }
        proof {
            assert(all.take(all.len() as int) =~= all);
            assert forall|i: int, j: int| 0 <= i < j < raw@.len() implies raw@[i] != raw@[j] by {
                assert(all[i] != all[j]);
                assert(*all[i] == raw@[i] && *all[j] == raw@[j]);
            }
        }
        raw
    }
}

/// A hash set of packed keys.
#[derive(Debug)]
pub struct PackedSet<K: PackedKey> {
    members: PackedMap<K, ()>,
}

impl<K: PackedKey> View for PackedSet<K> {
    type V = Set<K>;

    closed spec fn view(&self) -> Set<K> {
        self.members@.dom()
    }
}

impl<K: PackedKey> PackedSet<K> {
    /// An empty set.
    pub fn new() -> (s: Self)
        ensures
            s@ == Set::<K>::empty(),
    {
        let s = PackedSet { members: PackedMap::new() };
        assert(s@ =~= Set::<K>::empty());
        s
    }

    /// Whether `key` is a member.
    pub fn contains(&self, key: K) -> (b: bool)
        ensures
            b == self@.contains(key),
    {
        self.members.contains_key(key)
    }

    /// Adds `key` and tells whether it is new.
    pub fn insert(&mut self, key: K) -> (new: bool)
        ensures
            final(self)@ == old(self)@.insert(key),
            new == !old(self)@.contains(key),
    {
        let previous = self.members.insert(key, ());
        assert(self@ =~= old(self)@.insert(key));
        previous.is_none()
    }

    /// Takes `key` out and tells whether it was a member.
    pub fn remove(&mut self, key: K) -> (was: bool)
        ensures
            final(self)@ == old(self)@.remove(key),
            was == old(self)@.contains(key),
    {
        let previous = self.members.remove(key);
        assert(self@ =~= old(self)@.remove(key));
        previous.is_some()
    }

    /// Takes everything out.
    pub fn clear(&mut self)
        ensures
            final(self)@ == Set::<K>::empty(),
    {
        self.members.clear();
        assert(self@ =~= Set::<K>::empty());
    }

    /// The members, each once, in no particular order.
    pub fn to_vec(&self) -> (keys: Vec<K>)
        ensures
            keys@.no_duplicates(),
            keys@.to_set() == self@,
    {
        self.members.keys()
    }

    /// Whether there are no members.
    pub fn is_empty(&self) -> (b: bool)
        ensures
            b == (self@ == Set::<K>::empty()),
    {
        let keys = self.members.keys();
        proof {
            if keys@.len() == 0 {
                assert(self@ =~= Set::<K>::empty());
            } else {
                assert(keys@.to_set().contains(keys@[0]));
            }
        }
        keys.len() == 0
    }
}

} // verus!
