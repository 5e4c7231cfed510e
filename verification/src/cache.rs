//! The cache of open containers, ordered by use.
//!
//! The cache itself is the `LruCache` of the `lru_time_cache` crate, made for a fixed
//! number of entries and without a time of expiry. Verus does not look inside it:
//! what it holds is named by [`cache_entries`], and the functions below that call it
//! state, without proof, what its source shows of each call. The rules of the handle
//! cache are then proved from those statements.
use lru_time_cache::LruCache;
use vstd::prelude::*;

verus! {

/// The cache of the `lru_time_cache` crate. Nothing of its inside is known here.
#[verifier::external_type_specification]
#[verifier::external_body]
#[verifier::reject_recursive_types(Key)]
#[verifier::reject_recursive_types(Value)]
pub struct ExLruCache<Key, Value>(LruCache<Key, Value>);

/// A container's coordinate and the handle under which the container is open.
pub type Slot = ((i64, i64), u64);

/// What a cache holds: its entries from the least recently used to the most
/// recently used.
pub uninterp spec fn cache_entries(cache: LruCache<(i64, i64), u64>) -> Seq<Slot>;

/// The number of entries that a cache was made to hold.
pub uninterp spec fn cache_capacity(cache: LruCache<(i64, i64), u64>) -> nat;

/// Whether a cache was made without a time after which its entries expire.
pub uninterp spec fn cache_keeps(cache: LruCache<(i64, i64), u64>) -> bool;

/// Whether no coordinate has two entries.
pub open spec fn keys_distinct(entries: Seq<Slot>) -> bool {
    forall|i: int, j: int|
        0 <= i < j < entries.len() ==> (#[trigger] entries[i]).0 != (#[trigger] entries[j]).0
}

/// Whether there is an entry for `key`.
pub open spec fn holds(entries: Seq<Slot>, key: (i64, i64)) -> bool {
    exists|i: int| 0 <= i < entries.len() && (#[trigger] entries[i]).0 == key
}

/// Where the entry for `key` stands, if there is one.
pub open spec fn index_of(entries: Seq<Slot>, key: (i64, i64)) -> int {
    choose|i: int| 0 <= i < entries.len() && (#[trigger] entries[i]).0 == key
}

/// The entries after a use of `key`: its entry, if there is one, has moved to the
/// most recently used end.
pub open spec fn used(entries: Seq<Slot>, key: (i64, i64)) -> Seq<Slot> {
    if holds(entries, key) {
        let i = index_of(entries, key);
        entries.remove(i).push(entries[i])
    } else {
        entries
    }
}

/// The entries after `key` was put in with `value`, in a cache made for `capacity`
/// entries.
///
/// An entry for `key` is replaced. Otherwise a full cache first loses its least
/// recently used entries, as many as it takes to make room for one. Either way the
/// new entry is the most recently used.
pub open spec fn admitted(entries: Seq<Slot>, capacity: nat, key: (i64, i64), value: u64) -> Seq<
    Slot,
> {
    if holds(entries, key) {
        entries.remove(index_of(entries, key)).push((key, value))
    } else if entries.len() >= capacity {
        entries.skip(entries.len() - capacity + 1).push((key, value))
    } else {
        entries.push((key, value))
    }
}

/// The handle that leaves a cache of `capacity` entries when `key` is put in: the
/// earlier handle of `key`, or else, where the cache is full, that of the least
/// recently used entry.
pub open spec fn released_by(entries: Seq<Slot>, capacity: nat, key: (i64, i64)) -> Option<u64> {
    if holds(entries, key) {
        Some(entries[index_of(entries, key)].1)
    } else if entries.len() >= capacity && entries.len() > 0 {
        Some(entries[0].1)
    } else {
        None
    }
}

/// The most entries a cache is made for here. A cache sets room aside for all its
/// entries when it is made, and a demand beyond what memory can give would end the
/// program there.
pub const CAPACITY_LIMIT: usize = 65536;

/// Calls `LruCache::with_capacity`: an empty cache for `capacity` entries, which
/// never expire. The call reserves room for `capacity` keys at once, so `capacity`
/// is kept within `CAPACITY_LIMIT`.
#[verifier::external_body]
pub(crate) fn cache_with_capacity(capacity: usize) -> (cache: LruCache<(i64, i64), u64>)
    requires
        capacity <= CAPACITY_LIMIT,
    ensures
        cache_entries(cache) == Seq::<Slot>::empty(),
        cache_capacity(cache) == capacity,
        cache_keeps(cache),
{
    LruCache::with_capacity(capacity)
}

/// Calls `LruCache::len`: where entries do not expire, the number of entries.
#[verifier::external_body]
pub(crate) fn cache_len(cache: &LruCache<(i64, i64), u64>) -> (n: usize)
    requires
        cache_keeps(*cache),
    ensures
        n == cache_entries(*cache).len(),
{
    cache.len()
}

/// Calls `LruCache::get`: the value under `key`, if there is one, and that entry is
/// then the most recently used. Where entries do not expire nothing else changes.
#[verifier::external_body]
pub(crate) fn cache_get(cache: &mut LruCache<(i64, i64), u64>, key: (i64, i64)) -> (value: Option<
    u64,
>)
    requires
        cache_keeps(*old(cache)),
        keys_distinct(cache_entries(*old(cache))),
    ensures
        cache_keeps(*final(cache)),
        cache_capacity(*final(cache)) == cache_capacity(*old(cache)),
        cache_entries(*final(cache)) == used(cache_entries(*old(cache)), key),
        value is Some <==> holds(cache_entries(*old(cache)), key),
        value matches Some(v) ==> v == cache_entries(*old(cache))[index_of(
            cache_entries(*old(cache)),
            key,
        )].1,
{
    cache.get(&key).copied()
}

/// Calls `LruCache::insert`: puts `value` under `key` as the most recently used
/// entry and returns the value that was under `key` before. For a new key a full
/// cache first drops its least recently used entries, without returning them.
///
/// A cache made for no entry at all panics here, so the capacity is at least one.
#[verifier::external_body]
pub(crate) fn cache_insert(cache: &mut LruCache<(i64, i64), u64>, key: (i64, i64), value: u64) -> (
    replaced: Option<u64>
)
    requires
        cache_keeps(*old(cache)),
        cache_capacity(*old(cache)) >= 1,
        keys_distinct(cache_entries(*old(cache))),
    ensures
        cache_keeps(*final(cache)),
        cache_capacity(*final(cache)) == cache_capacity(*old(cache)),
        cache_entries(*final(cache)) == admitted(
            cache_entries(*old(cache)),
            cache_capacity(*old(cache)),
            key,
            value,
        ),
        replaced is Some <==> holds(cache_entries(*old(cache)), key),
        replaced matches Some(v) ==> v == cache_entries(*old(cache))[index_of(
            cache_entries(*old(cache)),
            key,
        )].1,
{
    cache.insert(key, value)
}

/// Calls `LruCache::peek_iter` and copies out what it yields: where entries do not
/// expire, every entry, the most recently used first. The cache is left as it is.
#[verifier::external_body]
pub(crate) fn cache_peek(cache: &LruCache<(i64, i64), u64>) -> (entries: Vec<Slot>)
    requires
        cache_keeps(*cache),
    ensures
        entries@ == cache_entries(*cache).reverse(),
{
    cache.peek_iter().map(|(key, value)| (*key, *value)).collect()
}

/// With distinct keys, an entry for `key` is the entry that `index_of` finds.
pub proof fn lemma_index_of(entries: Seq<Slot>, key: (i64, i64), i: int)
    requires
        keys_distinct(entries),
        0 <= i < entries.len(),
        entries[i].0 == key,
    ensures
        holds(entries, key),
        index_of(entries, key) == i,
{
    let j = index_of(entries, key);
    if j < i {
        assert(entries[j].0 != entries[i].0);
    } else if i < j {
        assert(entries[i].0 != entries[j].0);
    }
}

/// A use changes neither which coordinates have an entry nor how many there are,
/// and keeps the keys distinct.
pub proof fn lemma_used(entries: Seq<Slot>, key: (i64, i64))
    requires
        keys_distinct(entries),
    ensures
        keys_distinct(used(entries, key)),
        used(entries, key).len() == entries.len(),
        forall|other: (i64, i64)| holds(used(entries, key), other) <==> holds(entries, other),
        forall|i: int|
            0 <= i < entries.len() && (#[trigger] entries[i]).0 == key ==> used(entries, key)
                == entries.remove(i).push(entries[i]),
{
    let after = used(entries, key);
    assert forall|i: int| 0 <= i < entries.len() && (#[trigger] entries[i]).0 == key implies after
        == entries.remove(i).push(entries[i]) by {
        lemma_index_of(entries, key, i);
    }
    if holds(entries, key) {
        let i = index_of(entries, key);
        let n = entries.len() as int;
        assert forall|a: int, b: int| 0 <= a < b < after.len() implies (#[trigger] after[a]).0 != (
        #[trigger] after[b]).0 by {
            let sa = if a < i {
                a
            } else {
                a + 1
            };
            let sb = if b == n - 1 {
                i
            } else if b < i {
                b
            } else {
                b + 1
            };
            assert(after[a] == entries[sa]);
            assert(after[b] == entries[sb]);
            if sa < sb {
                assert(entries[sa].0 != entries[sb].0);
            } else {
                assert(entries[sb].0 != entries[sa].0);
            }
        }
        assert forall|other: (i64, i64)| holds(after, other) <==> holds(entries, other) by {
            if holds(after, other) {
                let a = choose|a: int| 0 <= a < after.len() && (#[trigger] after[a]).0 == other;
                let sa = if a == n - 1 {
                    i
                } else if a < i {
                    a
                } else {
                    a + 1
                };
                assert(after[a] == entries[sa]);
                assert(entries[sa].0 == other);
            }
            if holds(entries, other) {
                let s = choose|s: int| 0 <= s < entries.len() && (#[trigger] entries[s]).0 == other;
                let a = if s == i {
                    n - 1
                } else if s < i {
                    s
                } else {
                    s - 1
                };
                assert(after[a] == entries[s]);
                assert(after[a].0 == other);
            }
        }
    }
}

/// The rules of the handle cache. In a cache made for at least one entry that holds
/// no more than it was made for, after `key` was put in with `value`:
/// - no more entries are held than the cache was made for;
/// - `key` has the most recently used entry, with `value`, and no coordinate has two;
/// - where `key` was new and the cache was full, the least recently used entry has
///   left and every other entry has stayed, in its order;
/// - where `key` was new and there was room, nothing has left;
/// - where `key` had an entry, that entry has left and nothing else.
pub proof fn lemma_admitted(entries: Seq<Slot>, capacity: nat, key: (i64, i64), value: u64)
    requires
        keys_distinct(entries),
        capacity >= 1,
        entries.len() <= capacity,
    ensures
        admitted(entries, capacity, key, value).len() <= capacity,
        admitted(entries, capacity, key, value).last() == (key, value),
        keys_distinct(admitted(entries, capacity, key, value)),
        holds(admitted(entries, capacity, key, value), key),
        admitted(entries, capacity, key, value)[index_of(
            admitted(entries, capacity, key, value),
            key,
        )] == (key, value),
        forall|i: int|
            0 <= i < entries.len() && (#[trigger] entries[i]).0 == key ==> admitted(
                entries,
                capacity,
                key,
                value,
            ) == entries.remove(i).push((key, value)),
        !holds(entries, key) && entries.len() == capacity ==> admitted(
            entries,
            capacity,
            key,
            value,
        ) == entries.skip(1).push((key, value)),
        !holds(entries, key) && entries.len() < capacity ==> admitted(
            entries,
            capacity,
            key,
            value,
        ) == entries.push((key, value)),
        holds(entries, key) ==> admitted(entries, capacity, key, value).len() == entries.len(),
        !holds(entries, key) && entries.len() == capacity ==> released_by(entries, capacity, key)
            == Some(entries[0].1),
        !holds(entries, key) && entries.len() < capacity ==> released_by(entries, capacity, key)
            is None,
{
    let after = admitted(entries, capacity, key, value);
    let n = entries.len() as int;
    assert forall|i: int| 0 <= i < entries.len() && (#[trigger] entries[i]).0 == key implies after
        == entries.remove(i).push((key, value)) by {
        lemma_index_of(entries, key, i);
    }
    if holds(entries, key) {
        let i = index_of(entries, key);
        assert forall|a: int, b: int| 0 <= a < b < after.len() implies (#[trigger] after[a]).0 != (
        #[trigger] after[b]).0 by {
            let sa = if a < i {
                a
            } else {
                a + 1
            };
            assert(after[a] == entries[sa]);
            if b == n - 1 {
                if sa < i {
                    assert(entries[sa].0 != entries[i].0);
                } else {
                    assert(entries[i].0 != entries[sa].0);
                }
            } else {
                let sb = if b < i {
                    b
                } else {
                    b + 1
                };
                assert(after[b] == entries[sb]);
                assert(entries[sa].0 != entries[sb].0);
            }
        }
    } else {
        let kept = if n >= capacity {
            entries.skip(n - capacity + 1)
        } else {
            entries
        };
        let off = if n >= capacity {
            n - capacity + 1
        } else {
            0
        };
        assert(after == kept.push((key, value)));
        assert forall|a: int, b: int| 0 <= a < b < after.len() implies (#[trigger] after[a]).0 != (
        #[trigger] after[b]).0 by {
            assert(after[a] == entries[a + off]);
            if b == after.len() - 1 {
                assert(entries[a + off].0 != key);
            } else {
                assert(after[b] == entries[b + off]);
                assert(entries[a + off].0 != entries[b + off].0);
            }
        }
    }
    assert(after[after.len() - 1] == (key, value));
    lemma_index_of(after, key, after.len() - 1);
}

} // verus!
