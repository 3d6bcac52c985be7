//! The store: keys to values, each value with an optional absolute expiry.
//! Time is a number of milliseconds that the caller reads from its clock.

use vstd::prelude::*;

verus! {

/// A value with the time at which it stops being visible, if any.
#[derive(Debug, Clone, PartialEq, Eq)]
pub struct StoredValue {
    pub data: String,
    pub expires_at: Option<u64>,
}

/// The model of a `StoredValue`.
pub struct StoredValueView {
    pub data: Seq<char>,
    pub expires_at: Option<u64>,
}

impl View for StoredValue {
    type V = StoredValueView;

    open spec fn view(&self) -> StoredValueView {
        StoredValueView { data: self.data@, expires_at: self.expires_at }
    }
}

/// The model of a store: a finite map from keys to values.
pub type StoreView = Map<Seq<char>, StoredValueView>;

/// The time at which a value set at `now` with time to live `ttl` expires.
/// A time beyond `u64::MAX` is never reached, so such a value does not
/// expire.
pub open spec fn deadline(now: u64, ttl: Option<u64>) -> Option<u64> {
    match ttl {
        Some(ms) => if now + ms <= u64::MAX {
            Some((now + ms) as u64)
        } else {
            None
        },
        None => None,
    }
}

/// The value has an expiry, and at `now` it has passed.
pub open spec fn expired(value: StoredValueView, now: u64) -> bool {
    value.expires_at matches Some(at) && at <= now
}

/// What a read of `key` at `now` sees: the data stored under the key, unless
/// there is none or it has expired.
pub open spec fn visible(store: StoreView, key: Seq<char>, now: u64) -> Option<Seq<char>> {
    if store.dom().contains(key) && !expired(store[key], now) {
        Some(store[key].data)
    } else {
        None
    }
}

/// The store after `value` is set under `key` at `now` with time to live
/// `ttl`. Whatever was stored under the key before, its expiry included, is
/// replaced.
pub open spec fn with_value(
    store: StoreView,
    key: Seq<char>,
    value: Seq<char>,
    ttl: Option<u64>,
    now: u64,
) -> StoreView {
    store.insert(key, StoredValueView { data: value, expires_at: deadline(now, ttl) })
}

/// The store after the expiry action for `key` runs at `now`: the key is
/// removed if what is stored under it has expired by then, and left alone
/// otherwise.
pub open spec fn without_expired(store: StoreView, key: Seq<char>, now: u64) -> StoreView {
    if store.dom().contains(key) && expired(store[key], now) {
        store.remove(key)
    } else {
        store
    }
}

struct Entry {
    key: String,
    value: StoredValue,
}

/// A map from keys to stored values in which no key occurs twice.
pub struct Store {
    entries: Vec<Entry>,
}

/// `i` is the position of `key` among the entries.
spec fn holds_at(entries: Seq<Entry>, key: Seq<char>, i: int) -> bool {
    0 <= i < entries.len() && entries[i].key@ == key
}

spec fn distinct_keys(entries: Seq<Entry>) -> bool {
    forall|i: int, j: int|
        0 <= i < j < entries.len() ==> (#[trigger] entries[i]).key@ != (#[trigger] entries[j]).key@
}

spec fn model(entries: Seq<Entry>) -> StoreView {
    Map::new(
        |key: Seq<char>| exists|i: int| holds_at(entries, key, i),
        |key: Seq<char>| entries[choose|i: int| holds_at(entries, key, i)].value@,
    )
}

/// With distinct keys, the entry at `i` is what the model has under its key.
proof fn lemma_model_at(entries: Seq<Entry>, i: int)
    requires
        distinct_keys(entries),
        0 <= i < entries.len(),
    ensures
        model(entries).dom().contains(entries[i].key@),
        model(entries)[entries[i].key@] == entries[i].value@,
{
    let key = entries[i].key@;
    assert(holds_at(entries, key, i));
    let k = choose|k: int| holds_at(entries, key, k);
    assert(holds_at(entries, key, k));
    if k < i {
        assert(entries[k].key@ != entries[i].key@);
    }
    if i < k {
        assert(entries[i].key@ != entries[k].key@);
    }
}

/// Replacing the entry at `i` by one with the same key sets that key in the
/// model.
proof fn lemma_model_update(before: Seq<Entry>, i: int, entry: Entry)
    requires
        distinct_keys(before),
        0 <= i < before.len(),
        entry.key@ == before[i].key@,
    ensures
        distinct_keys(before.update(i, entry)),
        model(before.update(i, entry)) == model(before).insert(entry.key@, entry.value@),
{
    let after = before.update(i, entry);
    let expected = model(before).insert(entry.key@, entry.value@);
    assert forall|a: int, b: int| 0 <= a < b < after.len() implies (#[trigger] after[a]).key@ != (
    #[trigger] after[b]).key@ by {
        assert(before[a].key@ != before[b].key@);
    }
    assert forall|k: Seq<char>| model(after).dom().contains(k) == expected.dom().contains(k) by {
        if model(after).dom().contains(k) {
            let j = choose|j: int| holds_at(after, k, j);
            assert(holds_at(before, k, j));
        }
        if model(before).dom().contains(k) {
            let j = choose|j: int| holds_at(before, k, j);
            assert(holds_at(after, k, j));
        }
        if k == entry.key@ {
            assert(holds_at(after, k, i));
        }
    }
    assert forall|k: Seq<char>| model(after).dom().contains(k) implies model(after)[k]
        == expected[k] by {
        let j = choose|j: int| holds_at(after, k, j);
        lemma_model_at(after, j);
        if j != i {
            lemma_model_at(before, j);
        }
    }
    assert(model(after) =~= expected);
}

/// Appending an entry whose key is new sets that key in the model.
proof fn lemma_model_push(before: Seq<Entry>, entry: Entry)
    requires
        distinct_keys(before),
        !model(before).dom().contains(entry.key@),
    ensures
        distinct_keys(before.push(entry)),
        model(before.push(entry)) == model(before).insert(entry.key@, entry.value@),
{
    let after = before.push(entry);
    let last = before.len() as int;
    let expected = model(before).insert(entry.key@, entry.value@);
    assert forall|a: int, b: int| 0 <= a < b < after.len() implies (#[trigger] after[a]).key@ != (
    #[trigger] after[b]).key@ by {
        if b == last {
            if holds_at(before, entry.key@, a) {
                assert(model(before).dom().contains(entry.key@));
            }
        } else {
            assert(before[a].key@ != before[b].key@);
        }
    }
    assert forall|k: Seq<char>| model(after).dom().contains(k) == expected.dom().contains(k) by {
        if model(after).dom().contains(k) {
            let j = choose|j: int| holds_at(after, k, j);
            if j != last {
                assert(holds_at(before, k, j));
            }
        }
        if model(before).dom().contains(k) {
            let j = choose|j: int| holds_at(before, k, j);
            assert(holds_at(after, k, j));
        }
        if k == entry.key@ {
            assert(holds_at(after, k, last));
        }
    }
    assert forall|k: Seq<char>| model(after).dom().contains(k) implies model(after)[k]
        == expected[k] by {
        let j = choose|j: int| holds_at(after, k, j);
        lemma_model_at(after, j);
        if j != last {
            lemma_model_at(before, j);
        }
    }
    assert(model(after) =~= expected);
}

/// Taking out the entry at `i` removes its key from the model.
proof fn lemma_model_remove(before: Seq<Entry>, i: int)
    requires
        distinct_keys(before),
        0 <= i < before.len(),
    ensures
        distinct_keys(before.remove(i)),
        model(before.remove(i)) == model(before).remove(before[i].key@),
{
    let after = before.remove(i);
    let key = before[i].key@;
    let expected = model(before).remove(key);
    assert forall|a: int, b: int| 0 <= a < b < after.len() implies (#[trigger] after[a]).key@ != (
    #[trigger] after[b]).key@ by {
        let a0 = if a < i { a } else { a + 1 };
        let b0 = if b < i { b } else { b + 1 };
        assert(before[a0].key@ != before[b0].key@);
    }
    assert forall|k: Seq<char>| model(after).dom().contains(k) == expected.dom().contains(k) by {
        if model(after).dom().contains(k) {
            let j = choose|j: int| holds_at(after, k, j);
            let j0 = if j < i { j } else { j + 1 };
            assert(holds_at(before, k, j0));
            if k == key {
                if j0 < i {
                    assert(before[j0].key@ != before[i].key@);
                } else {
                    assert(before[i].key@ != before[j0].key@);
                }
            }
        }
        if expected.dom().contains(k) {
            let j0 = choose|j: int| holds_at(before, k, j);
            let j = if j0 < i { j0 } else { j0 - 1 };
            assert(holds_at(after, k, j));
        }
    }
    assert forall|k: Seq<char>| model(after).dom().contains(k) implies model(after)[k]
        == expected[k] by {
        let j = choose|j: int| holds_at(after, k, j);
        let j0 = if j < i { j } else { j + 1 };
        lemma_model_at(after, j);
        lemma_model_at(before, j0);
    }
    assert(model(after) =~= expected);
}

impl View for Store {
    type V = StoreView;

    closed spec fn view(&self) -> StoreView {
        model(self.entries@)
    }
}

impl Store {
    #[verifier::type_invariant]
    spec fn well_formed(&self) -> bool {
        distinct_keys(self.entries@)
    }

    /// An empty store.
    pub fn new() -> (store: Store)
        ensures
            store@ == Map::<Seq<char>, StoredValueView>::empty(),
    {
        let store = Store { entries: Vec::new() };
        assert(store@ =~= Map::<Seq<char>, StoredValueView>::empty());
        store
    }

    /// The position of `key` among the entries, if it is there.
    fn position(&self, key: &String) -> (r: Option<usize>)
        ensures
            match r {
                Some(i) => holds_at(self.entries@, key@, i as int),
                None => !self@.dom().contains(key@),
            },
    {
        let len: usize = self.entries.len();
        let mut i: usize = 0;
        while i < len
            invariant
                len == self.entries@.len(),
                i <= len,
                forall|j: int| 0 <= j < i ==> !holds_at(self.entries@, key@, j),
            decreases len - i,
        {
            if self.entries[i].key == *key {
                return Some(i);
            }
            i = i + 1;
        }
        None
    }

    /// Reads `key` at time `now`. An expired value is absent, whether or not
    /// it has been removed yet.
    pub fn get(&self, key: &String, now: u64) -> (r: Option<String>)
        ensures
            match visible(self@, key@, now) {
                Some(data) => r matches Some(found) && found@ == data,
                None => r is None,
            },
    {
        proof {
            use_type_invariant(self);
        }
        match self.position(key) {
            Some(i) => {
                proof {
                    lemma_model_at(self.entries@, i as int);
                }
                let value: &StoredValue = &self.entries[i].value;
                match value.expires_at {
                    Some(at) => {
                        if at <= now {
                            return None;
                        }
                    },
                    None => {},
                }
                Some(value.data.clone())
            },
            None => None,
        }
    }

    /// Sets `key` to `value` at time `now`. With a time to live the value
    /// expires at `now + ttl`; without one it does not expire.
    pub fn set(&mut self, key: String, value: String, ttl: Option<u64>, now: u64)
        ensures
            final(self)@ == with_value(old(self)@, key@, value@, ttl, now),
    {
        proof {
            use_type_invariant(&*self);
        }
        let expires_at: Option<u64> = match ttl {
            Some(ms) => now.checked_add(ms),
            None => None,
        };
        let found: Option<usize> = self.position(&key);
        let entry = Entry { key, value: StoredValue { data: value, expires_at } };
        let mut entries: Vec<Entry> = Vec::new();
        core::mem::swap(&mut self.entries, &mut entries);
        match found {
            Some(i) => {
                proof {
                    lemma_model_update(entries@, i as int, entry);
                }
                entries.set(i, entry);
            },
            None => {
                proof {
                    lemma_model_push(entries@, entry);
                }
                entries.push(entry);
            },
        }
        self.entries = entries;
    }

    /// Removes `key`, whatever is stored under it.
    pub fn remove(&mut self, key: &String)
        ensures
            final(self)@ == old(self)@.remove(key@),
    {
        proof {
            use_type_invariant(&*self);
        }
        match self.position(key) {
            Some(i) => {
                let mut entries: Vec<Entry> = Vec::new();
                core::mem::swap(&mut self.entries, &mut entries);
                proof {
                    lemma_model_remove(entries@, i as int);
                }
                entries.remove(i);
                self.entries = entries;
            },
            None => {
                assert(self@.remove(key@) =~= self@);
            },
        }
    }

    /// The expiry action for `key`, run at time `now`: removes the key if
    /// what is stored under it has expired by then. A value that was set
    /// again since the action was scheduled is judged by its own expiry, so
    /// a later value is never removed by an earlier one's timer.
    pub fn expire(&mut self, key: &String, now: u64)
        ensures
            final(self)@ == without_expired(old(self)@, key@, now),
    {
        proof {
            use_type_invariant(&*self);
        }
        match self.position(key) {
            Some(i) => {
                proof {
                    lemma_model_at(self.entries@, i as int);
                }
                let due: bool = match self.entries[i].value.expires_at {
                    Some(at) => at <= now,
                    None => false,
                };
                if due {
                    let mut entries: Vec<Entry> = Vec::new();
                    core::mem::swap(&mut self.entries, &mut entries);
                    proof {
                        lemma_model_remove(entries@, i as int);
                    }
                    entries.remove(i);
                    self.entries = entries;
                }
            },
            None => {},
        }
    }
}

/// A value that was set is read back: a read of the key at `later` sees the
/// value, for as long as its expiry, if it has one, has not passed.
pub proof fn lemma_read_after_set(
    store: StoreView,
    key: Seq<char>,
    value: Seq<char>,
    ttl: Option<u64>,
    now: u64,
    later: u64,
)
    requires
        ttl matches Some(ms) ==> later < now + ms,
    ensures
        visible(with_value(store, key, value, ttl, now), key, later) == Some(value),
{
}

/// A key that is not in the store reads as absent.
pub proof fn lemma_read_absent(store: StoreView, key: Seq<char>, now: u64)
    requires
        !store.dom().contains(key),
    ensures
        visible(store, key, now) is None,
{
}

/// A value set with a time to live reads as absent from the moment that
/// time has passed, whether or not the expiry action has run.
pub proof fn lemma_read_after_expiry(
    store: StoreView,
    key: Seq<char>,
    value: Seq<char>,
    ms: u64,
    now: u64,
    later: u64,
)
    requires
        later >= now + ms,
    ensures
        visible(with_value(store, key, value, Some(ms), now), key, later) is None,
        visible(
            without_expired(with_value(store, key, value, Some(ms), now), key, later),
            key,
            later,
        ) is None,
{
}

/// A value set without a time to live outlives the expiry action of the
/// value it replaced: whenever that action runs, the later value is still
/// read back.
pub proof fn lemma_overwrite_outlives_expiry(
    store: StoreView,
    key: Seq<char>,
    first: Seq<char>,
    ms: u64,
    set_at: u64,
    second: Seq<char>,
    reset_at: u64,
    fired_at: u64,
    later: u64,
)
    ensures
        visible(
            without_expired(
                with_value(with_value(store, key, first, Some(ms), set_at), key, second, None, reset_at),
                key,
                fired_at,
            ),
            key,
            later,
        ) == Some(second),
{
}

/// Setting one key leaves every other key as it was.
pub proof fn lemma_set_keeps_others(
    store: StoreView,
    key: Seq<char>,
    value: Seq<char>,
    ttl: Option<u64>,
    now: u64,
    other: Seq<char>,
    later: u64,
)
    requires
        other != key,
    ensures
        visible(with_value(store, key, value, ttl, now), other, later) == visible(
            store,
            other,
            later,
        ),
{
}

/// Two sets of distinct keys give the same store in either order, and both
/// values are in it.
pub proof fn lemma_sets_commute(
    store: StoreView,
    key_a: Seq<char>,
    value_a: Seq<char>,
    ttl_a: Option<u64>,
    now_a: u64,
    key_b: Seq<char>,
    value_b: Seq<char>,
    ttl_b: Option<u64>,
    now_b: u64,
)
    requires
        key_a != key_b,
    ensures
        with_value(with_value(store, key_a, value_a, ttl_a, now_a), key_b, value_b, ttl_b, now_b)
            == with_value(
            with_value(store, key_b, value_b, ttl_b, now_b),
            key_a,
            value_a,
            ttl_a,
            now_a,
        ),
        with_value(with_value(store, key_a, value_a, ttl_a, now_a), key_b, value_b, ttl_b, now_b)[key_a].data
            == value_a,
        with_value(with_value(store, key_a, value_a, ttl_a, now_a), key_b, value_b, ttl_b, now_b)[key_b].data
            == value_b,
{
    let ab = with_value(
        with_value(store, key_a, value_a, ttl_a, now_a),
        key_b,
        value_b,
        ttl_b,
        now_b,
    );
    let ba = with_value(
        with_value(store, key_b, value_b, ttl_b, now_b),
        key_a,
        value_a,
        ttl_a,
        now_a,
    );
    assert(ab =~= ba);
}

} // verus!
