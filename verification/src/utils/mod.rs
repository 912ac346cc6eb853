use vstd::prelude::*;
use crate::file_system::StorageEntry;

verus! {

/// The 16-bit little-endian number stored at `at` in `bytes`.
pub open spec fn le_u16(bytes: Seq<u8>, at: int) -> int {
    bytes[at] + 0x100 * bytes[at + 1]
}

/// The 32-bit little-endian number stored at `at` in `bytes`.
pub open spec fn le_u32(bytes: Seq<u8>, at: int) -> int {
    le_u16(bytes, at) + 0x1_0000 * le_u16(bytes, at + 2)
}

/// The 64-bit little-endian number stored at `at` in `bytes`.
pub open spec fn le_u64(bytes: Seq<u8>, at: int) -> int {
    le_u32(bytes, at) + 0x1_0000_0000 * le_u32(bytes, at + 4)
}

/// Reads the 16-bit little-endian number at `at`.
pub fn read_le_u16(bytes: &[u8], at: usize) -> (value: u16)
    requires
        at + 2 <= bytes.len(),
    ensures
        value == le_u16(bytes@, at as int),
{
    let lo: u16 = bytes[at] as u16;
    let hi: u16 = bytes[at + 1] as u16;
    lo + hi * 0x100
}

/// Reads the 32-bit little-endian number at `at`.
pub fn read_le_u32(bytes: &[u8], at: usize) -> (value: u32)
    requires
        at + 4 <= bytes.len(),
    ensures
        value == le_u32(bytes@, at as int),
{
    let lo: u32 = read_le_u16(bytes, at) as u32;
    let hi: u32 = read_le_u16(bytes, at + 2) as u32;
    lo + hi * 0x1_0000
}

/// Reads the 64-bit little-endian number at `at`.
pub fn read_le_u64(bytes: &[u8], at: usize) -> (value: u64)
    requires
        at + 8 <= bytes.len(),
    ensures
        value == le_u64(bytes@, at as int),
{
    let lo: u64 = read_le_u32(bytes, at) as u64;
    let hi: u64 = read_le_u32(bytes, at + 4) as u64;
    lo + hi * 0x1_0000_0000
}

/// Where the first of `values` that goes by `key` stands; their number
/// where none does.
pub open spec fn first_match<V: StorageEntry>(values: Seq<V>, key: Seq<char>) -> int
    decreases values.len(),
{
    if values.len() == 0 || values[0].spec_key() == key {
        0
    } else {
        1 + first_match(values.drop_first(), key)
    }
}

/// The first match stands at `at` when no value before `at` goes by `key`
/// and either the values end there or the one that stands there does.
pub proof fn lemma_first_match<V: StorageEntry>(values: Seq<V>, key: Seq<char>, at: int)
    requires
        0 <= at <= values.len(),
        forall|i: int| 0 <= i < at ==> values[i].spec_key() != key,
        at < values.len() ==> values[at].spec_key() == key,
    ensures
        first_match(values, key) == at,
    decreases values.len(),
{
    if at > 0 {
        lemma_first_match(values.drop_first(), key, at - 1);
    }
}

/// The first match is a match, and nothing before it is one.
pub proof fn lemma_first_match_is_first<V: StorageEntry>(values: Seq<V>, key: Seq<char>)
    ensures
        0 <= first_match(values, key) <= values.len(),
        forall|i: int| 0 <= i < first_match(values, key) ==> values[i].spec_key() != key,
        first_match(values, key) < values.len() ==> values[first_match(values, key)].spec_key()
            == key,
    decreases values.len(),
{
    if !(values.len() == 0 || values[0].spec_key() == key) {
        let rest = values.drop_first();
        lemma_first_match_is_first(rest, key);
        assert forall|i: int| 0 <= i < first_match(values, key) implies values[i].spec_key()
            != key by {
            if i > 0 {
                assert(values[i] == rest[i - 1]);
            }
        }
    }
}

/// Values that are found by key, kept in the order in which they came: two
/// lists side by side, one of the values and one of their keys.
#[derive(Debug)]
pub struct DoubleVecIndex<K, V> {
    values: Vec<V>,
    keys: Vec<K>,
}

impl<V: StorageEntry> View for DoubleVecIndex<String, V> {
    type V = Seq<V>;

    /// The values, in the order in which they came.
    closed spec fn view(&self) -> Seq<V> {
        self.values@
    }
}

impl<V: StorageEntry> DoubleVecIndex<String, V> {
    /// Every value stands beside its own key.
    pub closed spec fn wf(&self) -> bool {
        &&& self.keys@.len() == self.values@.len()
        &&& forall|i: int|
            0 <= i < self.keys@.len() ==> (#[trigger] self.keys@[i])@ == self.values@[i].spec_key()
    }

    /// Files each of `values` under its own key.
    pub fn new(values: Vec<V>) -> (index: Self)
        ensures
            index.wf(),
            index@ == values@,
    {
        let mut keys: Vec<String> = Vec::new();
        let mut at: usize = 0;
        while at < values.len()
            invariant
                at <= values@.len(),
                keys@.len() == at,
                forall|i: int| 0 <= i < at ==> (#[trigger] keys@[i])@ == values@[i].spec_key(),
            decreases values@.len() - at,
        {
            keys.push(values[at].key());
            at += 1;
        }
        Self { values, keys }
    }

    /// Takes out the first value that goes by `key`.
    pub fn take(&mut self, key: String) -> (found: Option<V>)
        requires
            old(self).wf(),
        ensures
            final(self).wf(),
            ({
                let at = first_match(old(self)@, key@);
                if at < old(self)@.len() {
                    found == Some(old(self)@[at]) && final(self)@ == old(self)@.remove(at)
                } else {
                    found is None && final(self)@ == old(self)@
                }
            }),
    {
        let mut at: usize = 0;
        while at < self.keys.len()
            invariant
                *self == *old(self),
                self.wf(),
                at <= self.keys@.len(),
                forall|i: int| 0 <= i < at ==> self.values@[i].spec_key() != key@,
            decreases self.keys@.len() - at,
        {
            if key == self.keys[at] {
                proof {
                    lemma_first_match(self.values@, key@, at as int);
                }
                self.keys.remove(at);
                let out = self.values.remove(at);
                return Some(out);
            }
            at += 1;
        }
        proof {
            lemma_first_match(self.values@, key@, at as int);
        }
        None
    }

    /// The keys, in the order of their values.
    pub fn keys(&self) -> (keys: Vec<String>)
        requires
            self.wf(),
        ensures
            keys@.len() == self@.len(),
            forall|i: int| 0 <= i < keys@.len() ==> (#[trigger] keys@[i])@ == self@[i].spec_key(),
    {
        let mut keys: Vec<String> = Vec::new();
        let mut at: usize = 0;
        while at < self.keys.len()
            invariant
                self.wf(),
                at <= self.keys@.len(),
                keys@.len() == at,
                forall|i: int|
                    0 <= i < at ==> (#[trigger] keys@[i])@ == self.values@[i].spec_key(),
            decreases self.keys@.len() - at,
        {
            keys.push(self.keys[at].clone());
            at += 1;
        }
        keys
    }

    /// The first value that goes by `key`, left where it is.
    pub fn get(&self, key: &String) -> (found: Option<&V>)
        requires
            self.wf(),
        ensures
            ({
                let at = first_match(self@, key@);
                if at < self@.len() {
                    found == Some(&self@[at])
                } else {
                    found is None
                }
            }),
    {
        let mut at: usize = 0;
        while at < self.keys.len()
            invariant
                self.wf(),
                at <= self.keys@.len(),
                forall|i: int| 0 <= i < at ==> self.values@[i].spec_key() != key@,
            decreases self.keys@.len() - at,
        {
            if *key == self.keys[at] {
                proof {
                    lemma_first_match(self.values@, key@, at as int);
                }
                return Some(&self.values[at]);
            }
            at += 1;
        }
        proof {
            lemma_first_match(self.values@, key@, at as int);
        }
        None
    }
}

} // verus!
