//! Reading a .NET `Dictionary<TKey, TValue>` from its entry array: slots
//! with a negative hash code are free and hold no pair.
use vstd::prelude::*;
use vstd::std_specs::cmp::PartialEqSpec;

verus! {

/// One slot of a dictionary's entry array.
#[derive(Clone, Copy, Debug)]
pub struct DictionaryEntry<TKey, TValue> {
    pub hash_code: i32,
    pub next: i32,
    pub key: TKey,
    pub value: TValue,
}

/// A dictionary as read from the game: its entry array and counters.
#[derive(Debug)]
pub struct Dictionary<TKey, TValue> {
    pub entries: Vec<DictionaryEntry<TKey, TValue>>,
    pub count: i32,
    pub version: i32,
    pub free_list: i32,
    pub free_count: i32,
}

/// The slot holds a key and value.
pub open spec fn occupied<TKey, TValue>(e: DictionaryEntry<TKey, TValue>) -> bool {
    e.hash_code >= 0
}

/// The occupied slots of `entries`, in order.
pub open spec fn occupied_entries<TKey, TValue>(entries: Seq<DictionaryEntry<TKey, TValue>>) -> Seq<
    DictionaryEntry<TKey, TValue>,
>
    decreases entries.len(),
{
    if entries.len() == 0 {
        Seq::empty()
    } else {
        let rest = occupied_entries(entries.drop_last());
        if occupied(entries.last()) {
            rest.push(entries.last())
        } else {
            rest
        }
    }
}

/// The slot at `index`, when it exists and is occupied.
pub open spec fn entry_at<TKey, TValue>(entries: Seq<DictionaryEntry<TKey, TValue>>, index: int) -> Option<
    DictionaryEntry<TKey, TValue>,
> {
    if 0 <= index < entries.len() && occupied(entries[index]) {
        Some(entries[index])
    } else {
        None
    }
}

/// The slot at `index` is occupied by `key` (by the key type's `==`).
pub open spec fn holds_key<TKey: PartialEq, TValue>(
    entries: Seq<DictionaryEntry<TKey, TValue>>,
    index: int,
    key: TKey,
) -> bool {
    occupied(entries[index]) && entries[index].key.eq_spec(&key)
}

/// The keys and the values of a dictionary come from the same occupied
/// slots, so the two lists have the same length and line up pair by pair.
pub proof fn lemma_keys_values_align<TKey, TValue>(
    entries: Seq<DictionaryEntry<TKey, TValue>>,
    i: int,
)
    requires
        0 <= i < occupied_entries(entries).len(),
    ensures
        occupied_entries(entries).map_values(|e: DictionaryEntry<TKey, TValue>| e.key).len()
            == occupied_entries(entries).map_values(
            |e: DictionaryEntry<TKey, TValue>| e.value,
        ).len(),
        occupied(occupied_entries(entries)[i]),
        exists|j: int|
            0 <= j < entries.len() && entries[j] == #[trigger] occupied_entries(entries)[i],
    decreases entries.len(),
{
    let rest = occupied_entries(entries.drop_last());
    if i < rest.len() {
        lemma_keys_values_align(entries.drop_last(), i);
        let j = choose|j: int|
            0 <= j < entries.drop_last().len() && entries.drop_last()[j] == rest[i];
        assert(entries[j] == entries.drop_last()[j]);
    } else {
        assert(entries[entries.len() - 1] == entries.last());
    }
}

impl<TKey: Copy + PartialEq, TValue: Copy> Dictionary<TKey, TValue> {
    /// The recorded number of pairs.
    pub fn get_count(&self) -> (r: i32)
        ensures
            r == self.count,
    {
        self.count
    }

    /// A copy of the entry array.
    pub fn get_entries(&self) -> (r: Vec<DictionaryEntry<TKey, TValue>>)
        ensures
            r@ == self.entries@,
    {
        let mut out: Vec<DictionaryEntry<TKey, TValue>> = Vec::new();
        let mut i: usize = 0;
        while i < self.entries.len()
            invariant
                i <= self.entries@.len(),
                out@ == self.entries@.take(i as int),
            decreases self.entries@.len() - i,
        {
            out.push(self.entries[i]);
            proof {
                assert(self.entries@.take(i + 1) =~= self.entries@.take(i as int).push(
                    self.entries@[i as int],
                ));
            }
            i = i + 1;
        }
        proof {
            assert(self.entries@.take(i as int) =~= self.entries@);
        }
        out
    }

    /// The slot at `index`, if it exists and is occupied.
    pub fn get_entry(&self, index: usize) -> (r: Option<DictionaryEntry<TKey, TValue>>)
        ensures
            r == entry_at(self.entries@, index as int),
    {
        if index < self.entries.len() && self.entries[index].hash_code >= 0 {
            Some(self.entries[index])
        } else {
            None
        }
    }

    /// The key in the slot at `index`, if it is occupied.
    pub fn get_key(&self, index: usize) -> (r: Option<TKey>)
        ensures
            r == (match entry_at(self.entries@, index as int) {
                Some(e) => Some(e.key),
                None => None,
            }),
    {
        match self.get_entry(index) {
            Some(e) => Some(e.key),
            None => None,
        }
    }

    /// The value in the slot at `index`, if it is occupied.
    pub fn get_value(&self, index: usize) -> (r: Option<TValue>)
        ensures
            r == (match entry_at(self.entries@, index as int) {
                Some(e) => Some(e.value),
                None => None,
            }),
    {
        match self.get_entry(index) {
            Some(e) => Some(e.value),
            None => None,
        }
    }

    /// The first occupied slot holding `key` (stated for key types whose
    /// `==` follows their specification, as the integer types' does).
    pub fn find_entry(&self, key: TKey) -> (r: Option<usize>)
        ensures
            TKey::obeys_eq_spec() ==> match r {
                Some(i) => i < self.entries@.len() && holds_key(self.entries@, i as int, key)
                    && forall|j: int| 0 <= j < i ==> !holds_key(self.entries@, j, key),
                None => forall|j: int|
                    0 <= j < self.entries@.len() ==> !holds_key(self.entries@, j, key),
            },
    {
        let mut i: usize = 0;
        while i < self.entries.len()
            invariant
                i <= self.entries@.len(),
                TKey::obeys_eq_spec() ==> forall|j: int|
                    0 <= j < i ==> !holds_key(self.entries@, j, key),
            decreases self.entries@.len() - i,
        {
            let e = self.entries[i];
            if e.hash_code >= 0 && e.key == key {
                return Some(i);
            }
            i = i + 1;
        }
        None
    }

    /// Whether some occupied slot holds `key`.
    pub fn contains_key(&self, key: TKey) -> (r: bool)
        ensures
            TKey::obeys_eq_spec() ==> r == exists|j: int| 0 <= j < self.entries@.len() && holds_key(self.entries@, j, key),
    {
        self.find_entry(key).is_some()
    }

    /// The value of the first occupied slot holding `key`.
    pub fn try_get_value(&self, key: TKey) -> (r: Option<TValue>)
        ensures
            TKey::obeys_eq_spec() ==> match r {
                Some(v) => exists|i: int|
                    0 <= i < self.entries@.len() && holds_key(self.entries@, i, key)
                        && self.entries@[i].value == v && forall|j: int|
                        0 <= j < i ==> !holds_key(self.entries@, j, key),
                None => forall|j: int|
                    0 <= j < self.entries@.len() ==> !holds_key(self.entries@, j, key),
            },
    {
        match self.find_entry(key) {
            Some(index) => match self.get_entry(index) {
                Some(e) => Some(e.value),
                None => None,
            },
            None => None,
        }
    }

    /// The keys of the occupied slots, in slot order.
    pub fn get_keys(&self) -> (r: Vec<TKey>)
        ensures
            r@ == occupied_entries(self.entries@).map_values(
                |e: DictionaryEntry<TKey, TValue>| e.key,
            ),
    {
        let mut out: Vec<TKey> = Vec::new();
        let mut i: usize = 0;
        while i < self.entries.len()
            invariant
                i <= self.entries@.len(),
                out@ == occupied_entries(self.entries@.take(i as int)).map_values(
                    |e: DictionaryEntry<TKey, TValue>| e.key,
                ),
            decreases self.entries@.len() - i,
        {
            proof {
                assert(self.entries@.take(i + 1).drop_last() =~= self.entries@.take(i as int));
            }
            let e = self.entries[i];
            if e.hash_code >= 0 {
                out.push(e.key);
            }
            proof {
                let prev = occupied_entries(self.entries@.take(i as int));
                assert(prev.push(e).map_values(|e: DictionaryEntry<TKey, TValue>| e.key)
                    =~= prev.map_values(|e: DictionaryEntry<TKey, TValue>| e.key).push(e.key));
            }
            i = i + 1;
        }
        proof {
            assert(self.entries@.take(i as int) =~= self.entries@);
        }
        out
    }

    /// The values of the occupied slots, in slot order.
    pub fn get_values(&self) -> (r: Vec<TValue>)
        ensures
            r@ == occupied_entries(self.entries@).map_values(
                |e: DictionaryEntry<TKey, TValue>| e.value,
            ),
    {
        let mut out: Vec<TValue> = Vec::new();
        let mut i: usize = 0;
        while i < self.entries.len()
            invariant
                i <= self.entries@.len(),
                out@ == occupied_entries(self.entries@.take(i as int)).map_values(
                    |e: DictionaryEntry<TKey, TValue>| e.value,
                ),
            decreases self.entries@.len() - i,
        {
            proof {
                assert(self.entries@.take(i + 1).drop_last() =~= self.entries@.take(i as int));
            }
            let e = self.entries[i];
            if e.hash_code >= 0 {
                out.push(e.value);
            }
            proof {
                let prev = occupied_entries(self.entries@.take(i as int));
                assert(prev.push(e).map_values(|e: DictionaryEntry<TKey, TValue>| e.value)
                    =~= prev.map_values(|e: DictionaryEntry<TKey, TValue>| e.value).push(e.value));
            }
            i = i + 1;
        }
        proof {
            assert(self.entries@.take(i as int) =~= self.entries@);
        }
        out
    }
}

} // verus!
