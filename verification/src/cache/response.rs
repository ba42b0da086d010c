//! The cache as a whole: entries spread over parts, each with its share of the capacity.
use crate::cache::store;
use crate::cache::store::{
    find_key, make_room, put_item, remove_key, shrink, CacheEntry, CacheItem, CacheKey,
    FreezeSettings,
};
use crate::codec::query;
use crate::codec::ttl;
use crate::text;
use vstd::prelude::*;

verus! {

/// The responses of the server. Times are in milliseconds and given by the caller.
pub struct ResponseCache {
    pub shards: Vec<Vec<CacheItem>>,
    /// The most entries; 0 stands for no limit.
    pub capacity: usize,
    pub freeze: FreezeSettings,
}

pub open spec fn shard_views(shards: Seq<Vec<CacheItem>>) -> Seq<Seq<store::ItemV>> {
    shards.map_values(|s: Vec<CacheItem>| store::item_views(s@))
}

/// A number from the characters of a name.
pub open spec fn text_hash(s: Seq<char>) -> nat
    decreases s.len(),
{
    if s.len() == 0 {
        7
    } else {
        ((text_hash(s.drop_last()) * 31 + (s.last() as u32) as nat) % 0x1_0000_0000) as nat
    }
}

/// The part in which a key is kept.
pub open spec fn shard_of(key: store::KeyV, count: nat) -> int {
    ((text_hash(key.qname) * 31 + key.qtype as nat) * 2 + if key.dnssec_ok {
        1nat
    } else {
        0nat
    }) as int % count as int
}

/// The share of a part in the capacity.
pub open spec fn shard_capacity(total: nat, index: int, count: nat) -> Option<nat> {
    if total == 0 {
        None
    } else {
        Some(
            (total / count + if index < total % count {
                1int
            } else {
                0int
            }) as nat,
        )
    }
}

/// The most entries that a part ever holds.
pub open spec fn within_share(len: nat, share: Option<nat>) -> bool {
    share matches Some(c) ==> len <= c || len <= 1
}

/// Whether a part holds no key twice and none that belongs elsewhere.
pub open spec fn shard_ok(items: Seq<store::ItemV>, index: int, count: nat) -> bool {
    store::distinct(items) && forall|k: int|
        0 <= k < items.len() ==> shard_of((#[trigger] items[k]).key, count) == index
}

impl ResponseCache {
    /// The entries of each part.
    pub open spec fn parts(self) -> Seq<Seq<store::ItemV>> {
        shard_views(self.shards@)
    }

    /// What holds of a cache at any time.
    pub open spec fn wf(self) -> bool {
        &&& self.shards@.len() > 0
        &&& forall|i: int|
            0 <= i < self.shards@.len() ==> shard_ok(
                #[trigger] self.parts()[i],
                i,
                self.shards@.len(),
            ) && within_share(
                self.parts()[i].len(),
                shard_capacity(self.capacity as nat, i, self.shards@.len()),
            )
        &&& text::increasing(text::views(self.freeze.domains@))
    }

    /// The part in which a key is kept.
    pub open spec fn index_of(self, key: store::KeyV) -> int {
        shard_of(key, self.shards@.len())
    }

    /// The entry of a key.
    pub open spec fn entry(self, key: store::KeyV) -> Option<store::EntryV> {
        store::entry_of(self.parts()[self.index_of(key)], key)
    }
}

/// How many parts a cache has on a machine that runs `parallelism` threads at once.
pub open spec fn shard_count(capacity: nat, parallelism: Option<nat>) -> nat {
    let preferred: nat = match parallelism {
        Some(p) => if p * 2 < 8 {
            8
        } else if p * 2 > 64 {
            64
        } else {
            p * 2
        },
        None => 16,
    };
    if capacity == 0 || preferred <= capacity {
        preferred
    } else {
        capacity
    }
}

/// How many parts a cache has.
pub fn cache_shard_count(capacity: usize, parallelism: Option<usize>) -> (r: usize)
    ensures
        r == shard_count(
            capacity as nat,
            (match parallelism {
                Some(p) => Some(p as nat),
                None => None,
            }),
        ),
        1 <= r <= 64,
{
    let preferred: usize = match parallelism {
        Some(p) => if p < 4 {
            8
        } else if p > 32 {
            64
        } else {
            p * 2
        },
        None => 16,
    };
    if capacity == 0 || preferred <= capacity {
        preferred
    } else {
        capacity
    }
}

/// The share of a part in the capacity.
pub fn bounded_shard_capacity(total_capacity: usize, shard_index: usize, shard_count: usize) -> (r:
    Option<usize>)
    requires
        shard_index < shard_count,
    ensures
        shard_capacity(total_capacity as nat, shard_index as int, shard_count as nat) == (match r {
            Some(c) => Some(c as nat),
            None => None,
        }),
{
    if total_capacity == 0 {
        return None;
    }
    let base: usize = total_capacity / shard_count;
    let remainder: usize = total_capacity % shard_count;
    if shard_index < remainder {
        assert(base < usize::MAX) by {
            assert(base * shard_count + remainder == total_capacity) by (nonlinear_arith)
                requires
                    base == total_capacity / shard_count,
                    remainder == total_capacity % shard_count,
                    shard_count > 0,
            ;
            assert(base <= base * shard_count) by (nonlinear_arith)
                requires
                    shard_count > 0,
            ;
        }
        Some(base + 1)
    } else {
        Some(base)
    }
}

/// The shares of the first `k` parts together.
pub open spec fn shares(total: nat, count: nat, k: nat) -> nat
    decreases k,
{
    if k == 0 {
        0
    } else {
        shares(total, count, (k - 1) as nat) + shard_capacity(total, k - 1, count)->0
    }
}

proof fn lemma_shares_of(total: nat, count: nat, k: nat)
    requires
        total > 0,
        0 < count,
        k <= count,
    ensures
        shares(total, count, k) == k * (total / count) + if k < total % count {
            k as int
        } else {
            (total % count) as int
        },
    decreases k,
{
    if k > 0 {
        lemma_shares_of(total, count, (k - 1) as nat);
        let q = (total / count) as int;
        assert(k * q == (k - 1) * q + q) by (nonlinear_arith);
    } else {
        assert(0 * (total / count) == 0) by (nonlinear_arith);
    }
}

/// The parts share the capacity out completely.
pub proof fn lemma_shares(total: nat, count: nat)
    requires
        total > 0,
        0 < count,
    ensures
        shares(total, count, count) == total,
{
    lemma_shares_of(total, count, count);
    assert(count * (total / count) + total % count == total) by (nonlinear_arith)
        requires
            count > 0,
    ;
}

fn hash_text(s: &str) -> (r: u64)
    ensures
        r == text_hash(s@),
        r < 0x1_0000_0000,
{
    let chars = text::chars_of(s);
    let mut h: u64 = 7;
    let mut i: usize = 0;
    assert(s@.take(0) =~= Seq::empty());
    while i < chars.len()
        invariant
            i <= chars@.len(),
            chars@ == s@,
            h < 0x1_0000_0000,
            h == text_hash(s@.take(i as int)),
        decreases chars@.len() - i,
    {
        assert(s@.take(i + 1).drop_last() =~= s@.take(i as int));
        h = (h * 31 + (chars[i] as u32) as u64) % 0x1_0000_0000;
        i = i + 1;
    }
    assert(s@.take(i as int) =~= s@);
    h
}

/// The part in which a key is kept.
pub fn shard_index_for_key(key: &CacheKey, shard_count: usize) -> (r: usize)
    requires
        shard_count > 0,
    ensures
        r == shard_of(key@, shard_count as nat),
        r < shard_count,
{
    let bit: u64 = if key.dnssec_ok {
        1
    } else {
        0
    };
    let h: u64 = (hash_text(key.qname.as_str()) * 31 + key.qtype as u64) * 2 + bit;
    (h % shard_count as u64) as usize
}

/// The number of entries in the first `k` parts.
pub open spec fn entry_count(parts: Seq<Seq<store::ItemV>>, k: int) -> nat
    decreases k,
{
    if k <= 0 {
        0
    } else {
        entry_count(parts, k - 1) + parts[k - 1].len()
    }
}

/// What a response is served as `elapsed` milliseconds after it was cached.
pub open spec fn served(response: Seq<u8>, elapsed: u64) -> Seq<u8> {
    if elapsed < 1000 {
        response
    } else {
        ttl::decayed(response, ttl::cap_secs((elapsed / 1000) as u64))
    }
}

/// The time from one moment to a later one; 0 where it is not later.
pub open spec fn elapsed_since(from: u64, to: u64) -> u64 {
    if from <= to {
        (to - from) as u64
    } else {
        0
    }
}

/// The response of a key that is asked for now.
pub open spec fn hit(entry: Option<store::EntryV>, freeze_ttl: bool, now: u64) -> Option<
    Seq<u8>,
> {
    match entry {
        None => None,
        Some(e) => if freeze_ttl {
            Some(e.response)
        } else if now >= e.expires_at {
            None
        } else {
            Some(served(e.response, elapsed_since(e.inserted_at, now)))
        },
    }
}

/// A part after a key was asked for: an entry that is no longer valid is gone, any other has been
/// touched.
pub open spec fn after_get(
    items: Seq<store::ItemV>,
    key: store::KeyV,
    freeze_ttl: bool,
    now: u64,
) -> Seq<store::ItemV> {
    match store::entry_of(items, key) {
        None => items,
        Some(e) => if !freeze_ttl && now >= e.expires_at {
            store::without_item(items, key)
        } else {
            store::with_item(items, key, store::EntryV { last_access: now, ..e })
        },
    }
}

/// The entry of a response that is cached now for `ttl` milliseconds.
pub open spec fn new_entry(response: Seq<u8>, ttl: u64, now: u64) -> store::EntryV {
    store::EntryV {
        response,
        inserted_at: now,
        expires_at: (now + ttl) as u64,
        original_ttl_secs: (ttl / 1000) as u64,
        rcode: if response.len() < 12 {
            2
        } else {
            query::rcode_of(response)
        },
        last_access: now,
    }
}

proof fn lemma_shard_ok_update(
    items: Seq<store::ItemV>,
    key: store::KeyV,
    entry: store::EntryV,
    index: int,
    count: nat,
)
    requires
        shard_ok(items, index, count),
        shard_of(key, count) == index,
    ensures
        shard_ok(store::with_item(items, key, entry), index, count),
        store::with_item(items, key, entry).len() <= items.len() + 1,
        store::entry_of(items, key) is Some ==> store::with_item(items, key, entry).len()
            == items.len(),
{
    store::lemma_with_item(items, key, entry, key);
    store::lemma_position_bounds(items, key);
    let new = store::with_item(items, key, entry);
    assert forall|k: int| 0 <= k < new.len() implies shard_of(
        (#[trigger] new[k]).key,
        count,
    ) == index by {
        if k < items.len() && k != store::position(items, key) {
            assert(new[k] == items[k]);
        }
    }
}

proof fn lemma_shard_ok_remove(
    items: Seq<store::ItemV>,
    key: store::KeyV,
    index: int,
    count: nat,
)
    requires
        shard_ok(items, index, count),
    ensures
        shard_ok(store::without_item(items, key), index, count),
        store::without_item(items, key).len() <= items.len(),
{
    store::lemma_position_bounds(items, key);
    let i = store::position(items, key);
    let new = store::without_item(items, key);
    if i < items.len() {
        assert forall|a: int, b: int| 0 <= a < b < new.len() implies (#[trigger] new[a]).key != (
        #[trigger] new[b]).key by {
            let x = if a < i {
                a
            } else {
                a + 1
            };
            let y = if b < i {
                b
            } else {
                b + 1
            };
            assert(new[a] == items[x] && new[b] == items[y]);
        }
        assert forall|k: int| 0 <= k < new.len() implies shard_of(
            (#[trigger] new[k]).key,
            count,
        ) == index by {
            let x = if k < i {
                k
            } else {
                k + 1
            };
            assert(new[k] == items[x]);
        }
    }
}

/// Items that are all among others that belong to a part belong to it too.
proof fn lemma_shard_ok_subset(
    items: Seq<store::ItemV>,
    new: Seq<store::ItemV>,
    index: int,
    count: nat,
)
    requires
        shard_ok(items, index, count),
        store::distinct(new),
        forall|x: store::ItemV| #[trigger] new.contains(x) ==> items.contains(x),
    ensures
        shard_ok(new, index, count),
{
    assert forall|k: int| 0 <= k < new.len() implies shard_of(
        (#[trigger] new[k]).key,
        count,
    ) == index by {
        assert(new.contains(new[k]));
        let m = choose|m: int| 0 <= m < items.len() && items[m] == new[k];
        assert(shard_of(items[m].key, count) == index);
    }
}

impl ResponseCache {
    /// An empty cache for a machine that runs `parallelism` threads at once.
    pub fn with_parallelism(capacity: usize, parallelism: Option<usize>) -> (r: Self)
        ensures
            r.wf(),
            r.capacity == capacity,
            r.shards@.len() == shard_count(
                capacity as nat,
                (match parallelism {
                    Some(p) => Some(p as nat),
                    None => None,
                }),
            ),
            forall|i: int| 0 <= i < r.parts().len() ==> (#[trigger] r.parts()[i]).len() == 0,
            !r.freeze.all,
            r.freeze.domains@.len() == 0,
    {
        let count = cache_shard_count(capacity, parallelism);
        let mut shards: Vec<Vec<CacheItem>> = Vec::new();
        let mut i: usize = 0;
        while i < count
            invariant
                i <= count,
                shards@.len() == i,
                forall|k: int| 0 <= k < i ==> (#[trigger] shards@[k])@.len() == 0,
            decreases count - i,
        {
            shards.push(Vec::new());
            i = i + 1;
        }
        let r = ResponseCache { shards, capacity, freeze: FreezeSettings::none() };
        assert forall|k: int| 0 <= k < r.parts().len() implies (
        #[trigger] r.parts()[k]).len() == 0 by {
            assert(r.parts()[k] == store::item_views(r.shards@[k]@));
        }
        r
    }

    /// An empty cache. A capacity of 0 stands for no limit.
    pub fn new(capacity: usize) -> (r: Self)
        ensures
            r.wf(),
            r.capacity == capacity,
            r.shards@.len() == shard_count(capacity as nat, None),
            forall|i: int| 0 <= i < r.parts().len() ==> (#[trigger] r.parts()[i]).len() == 0,
            !r.freeze.all,
            r.freeze.domains@.len() == 0,
    {
        ResponseCache::with_parallelism(capacity, None)
    }

    /// Keeps the time to live of all entries, or no longer.
    pub fn set_freeze_all(&mut self, enabled: bool)
        requires
            old(self).wf(),
        ensures
            final(self).wf(),
            final(self).freeze.all == enabled,
            final(self).freeze.domains == old(self).freeze.domains,
            final(self).parts() == old(self).parts(),
            final(self).capacity == old(self).capacity,
    {
        self.freeze.all = enabled;
        assert(self.parts() == old(self).parts());
    }

    /// How many domains keep their time to live.
    pub fn freeze_domain_count(&self) -> (r: usize)
        ensures
            r == self.freeze.domains@.len(),
    {
        self.freeze.domains.len()
    }

    /// Whether a name keeps its time to live.
    pub fn is_frozen_for_qname(&self, qname: &str) -> (r: bool)
        ensures
            r == store::is_frozen(
                self.freeze.all,
                text::views(self.freeze.domains@),
                qname@,
            ),
    {
        self.freeze.covers(qname)
    }

    /// The most entries; 0 stands for no limit.
    pub fn capacity(&self) -> (r: usize)
        ensures
            r == self.capacity,
    {
        self.capacity
    }

    /// Caches a response for `ttl` milliseconds.
    pub fn insert(&mut self, key: CacheKey, response: Vec<u8>, ttl: u64, now: u64)
        requires
            old(self).wf(),
            now + ttl <= u64::MAX,
        ensures
            final(self).wf(),
            final(self).capacity == old(self).capacity,
            final(self).freeze == old(self).freeze,
            ({
                let i = old(self).index_of(key@);
                let share = shard_capacity(
                    old(self).capacity as nat,
                    i,
                    old(self).shards@.len(),
                );
                final(self).parts() == old(self).parts().update(
                    i,
                    store::with_item(
                        store::with_room(old(self).parts()[i], now, share),
                        key@,
                        new_entry(response@, ttl, now),
                    ),
                )
            }),
            final(self).entry(key@) == Some(new_entry(response@, ttl, now)),
    {
        let rcode: u16 = match query::response_code(response.as_slice()) {
            Some(c) => c,
            None => 2,
        };
        let count: usize = self.shards.len();
        let i = shard_index_for_key(&key, count);
        let share = bounded_shard_capacity(self.capacity, i, count);
        let entry = CacheEntry {
            response,
            inserted_at: now,
            expires_at: now + ttl,
            original_ttl_secs: ttl / 1000,
            rcode,
            last_access: now,
        };
        let ghost parts = self.parts();
        assert(parts[i as int] == store::item_views(self.shards@[i as int]@));
        make_room(&mut self.shards[i], now, share);
        let ghost mid = self.parts();
        assert(mid =~= parts.update(i as int, store::item_views(self.shards@[i as int]@)));
        put_item(&mut self.shards[i], key, entry);
        proof {
            let share_v = shard_capacity(self.capacity as nat, i as int, count as nat);
            let roomy = store::with_room(parts[i as int], now, share_v);
            let new = store::with_item(roomy, key@, entry@);
            assert(entry@ == new_entry(response@, ttl, now));
            assert(self.parts() =~= parts.update(i as int, new));
            store::lemma_with_room(parts[i as int], now, share_v);
            lemma_shard_ok_subset(parts[i as int], roomy, i as int, count as nat);
            lemma_shard_ok_update(roomy, key@, entry@, i as int, count as nat);
            store::lemma_with_item(roomy, key@, entry@, key@);
        }
    }

    /// Keeps the time to live of a domain and of what lies below it, or no longer. Says how many
    /// domains do.
    pub fn set_freeze_domain(&mut self, domain: &str, enabled: bool) -> (r: usize)
        requires
            old(self).wf(),
        ensures
            final(self).wf(),
            final(self).parts() == old(self).parts(),
            final(self).capacity == old(self).capacity,
            final(self).freeze.all == old(self).freeze.all,
            text::views(final(self).freeze.domains@) == frozen_domains(
                text::views(old(self).freeze.domains@),
                text::plain_name(domain@),
                enabled,
            ),
            r == final(self).freeze.domains@.len(),
    {
        let name = text::plain_name_of(domain);
        let ghost domains = text::views(self.freeze.domains@);
        if text::chars_of(name.as_str()).len() > 0 {
            if enabled {
                proof {
                    text::lemma_insert_text(domains, name@);
                }
                text::insert_sorted(&mut self.freeze.domains, name);
            } else {
                proof {
                    lemma_increasing_without(domains, name@);
                }
                retain_other_names(&mut self.freeze.domains, name.as_str());
            }
        }
        assert(self.parts() == old(self).parts());
        self.freeze.domains.len()
    }

    /// Drops all entries; says how many there were.
    pub fn clear_all(&mut self) -> (r: usize)
        requires
            old(self).wf(),
            entry_count(old(self).parts(), old(self).shards@.len() as int) <= usize::MAX,
        ensures
            final(self).wf(),
            final(self).capacity == old(self).capacity,
            final(self).freeze == old(self).freeze,
            final(self).shards@.len() == old(self).shards@.len(),
            forall|i: int|
                0 <= i < final(self).parts().len() ==> (#[trigger] final(self).parts()[i]).len()
                    == 0,
            r == entry_count(old(self).parts(), old(self).shards@.len() as int),
    {
        let ghost parts = self.parts();
        let count: usize = self.shards.len();
        let mut removed: usize = 0;
        let mut i: usize = 0;
        while i < count
            invariant
                i <= count,
                count == parts.len(),
                self.shards@.len() == count,
                self.capacity == old(self).capacity,
                self.freeze == old(self).freeze,
                old(self).wf(),
                parts == old(self).parts(),
                removed == entry_count(parts, i as int),
                entry_count(parts, count as int) <= usize::MAX,
                forall|k: int| 0 <= k < i ==> (#[trigger] self.shards@[k])@.len() == 0,
                forall|k: int|
                    i <= k < count ==> store::item_views((#[trigger] self.shards@[k])@)
                        == parts[k],
            decreases count - i,
        {
            proof {
                lemma_entry_count(parts, i + 1, count as int);
                assert(store::item_views(self.shards@[i as int]@) == parts[i as int]);
            }
            removed = removed + self.shards[i].len();
            self.shards[i].clear();
            i = i + 1;
        }
        proof {
            assert forall|k: int| 0 <= k < self.parts().len() implies (
            #[trigger] self.parts()[k]).len() == 0 by {
                assert(self.parts()[k] == store::item_views(self.shards@[k]@));
            }
        }
        removed
    }

    /// Drops the entries of a domain and of what lies below it; says how many there were.
    pub fn clear_domain(&mut self, domain: &str) -> (r: usize)
        requires
            old(self).wf(),
            entry_count(old(self).parts(), old(self).shards@.len() as int) <= usize::MAX,
        ensures
            final(self).wf(),
            final(self).capacity == old(self).capacity,
            final(self).freeze == old(self).freeze,
            final(self).parts() == parts_without(
                old(self).parts(),
                text::plain_name(domain@),
            ),
            r == entry_count(old(self).parts(), old(self).shards@.len() as int) - entry_count(
                final(self).parts(),
                old(self).shards@.len() as int,
            ),
    {
        let name = text::plain_name_of(domain);
        let ghost parts = self.parts();
        let ghost cleared = parts_without(parts, name@);
        if text::chars_of(name.as_str()).len() == 0 {
            assert(parts =~= cleared);
            return 0;
        }
        let count: usize = self.shards.len();
        let mut removed: usize = 0;
        let mut i: usize = 0;
        while i < count
            invariant
                i <= count,
                count == parts.len(),
                self.shards@.len() == count,
                self.capacity == old(self).capacity,
                self.freeze == old(self).freeze,
                old(self).wf(),
                parts == old(self).parts(),
                cleared == parts_without(parts, name@),
                name@.len() > 0,
                removed + entry_count(cleared, i as int) == entry_count(parts, i as int),
                entry_count(parts, count as int) <= usize::MAX,
                forall|k: int|
                    0 <= k < i ==> store::item_views((#[trigger] self.shards@[k])@)
                        == cleared[k],
                forall|k: int|
                    i <= k < count ==> store::item_views((#[trigger] self.shards@[k])@)
                        == parts[k],
            decreases count - i,
        {
            proof {
                lemma_entry_count(parts, i + 1, count as int);
                assert(store::item_views(self.shards@[i as int]@) == parts[i as int]);
                assert(cleared[i as int] == items_outside(parts[i as int], name@));
            }
            let before: usize = self.shards[i].len();
            retain_outside(&mut self.shards[i], name.as_str());
            assert(store::item_views(self.shards@[i as int]@).len() == cleared[i as int].len());
            let after: usize = self.shards[i].len();
            proof {
                lemma_items_outside(parts[i as int], name@);
            }
            removed = removed + (before - after);
            i = i + 1;
        }
        proof {
            assert(self.parts() =~= cleared);
            assert forall|k: int| 0 <= k < count implies shard_ok(
                #[trigger] self.parts()[k],
                k,
                count as nat,
            ) && within_share(
                self.parts()[k].len(),
                shard_capacity(self.capacity as nat, k, count as nat),
            ) by {
                assert(self.parts()[k] == items_outside(parts[k], name@));
                assert(shard_ok(parts[k], k, count as nat));
                lemma_items_outside(parts[k], name@);
                lemma_shard_ok_subset(parts[k], self.parts()[k], k, count as nat);
            }
        }
        removed
    }

    /// Changes the capacity. Where there is a limit, entries that are no longer valid are dropped,
    /// and more until every part is within its share.
    pub fn set_capacity(&mut self, capacity: usize, now: u64)
        requires
            old(self).wf(),
        ensures
            final(self).wf(),
            final(self).capacity == capacity,
            final(self).freeze == old(self).freeze,
            final(self).parts() == resized_parts(old(self).parts(), capacity as nat, now),
    {
        let ghost parts = self.parts();
        let ghost resized = resized_parts(parts, capacity as nat, now);
        let count: usize = self.shards.len();
        self.capacity = capacity;
        if capacity == 0 {
            assert(self.parts() == parts);
            return;
        }
        let mut i: usize = 0;
        while i < count
            invariant
                i <= count,
                count == parts.len(),
                self.shards@.len() == count,
                self.capacity == capacity,
                capacity > 0,
                self.freeze == old(self).freeze,
                old(self).wf(),
                parts == old(self).parts(),
                resized == resized_parts(parts, capacity as nat, now),
                forall|k: int|
                    0 <= k < i ==> store::item_views((#[trigger] self.shards@[k])@)
                        == resized[k],
                forall|k: int|
                    i <= k < count ==> store::item_views((#[trigger] self.shards@[k])@)
                        == parts[k],
            decreases count - i,
        {
            assert(store::item_views(self.shards@[i as int]@) == parts[i as int]);
            if let Some(share) = bounded_shard_capacity(capacity, i, count) {
                shrink(&mut self.shards[i], now, share);
            }
            i = i + 1;
        }
        proof {
            assert(self.parts() =~= resized);
            assert forall|k: int| 0 <= k < count implies shard_ok(
                #[trigger] self.parts()[k],
                k,
                count as nat,
            ) && within_share(
                self.parts()[k].len(),
                shard_capacity(self.capacity as nat, k, count as nat),
            ) by {
                let share = shard_capacity(capacity as nat, k, count as nat)->0;
                let valid = store::valid_items(parts[k], now);
                assert(shard_ok(parts[k], k, count as nat));
                store::lemma_valid_items(parts[k], now);
                store::lemma_trimmed(valid, share as int);
                assert(self.parts()[k] == store::trimmed(valid, share as int));
                lemma_shard_ok_subset(parts[k], self.parts()[k], k, count as nat);
            }
        }
    }

    /// The response of a key that is asked for now. A key keeps its time to live where
    /// `freeze_ttl` says so; otherwise the response is served with what is left of it.
    pub fn get(&mut self, key: &CacheKey, freeze_ttl: bool, now: u64) -> (r: Option<Vec<u8>>)
        requires
            old(self).wf(),
        ensures
            final(self).wf(),
            final(self).capacity == old(self).capacity,
            final(self).freeze == old(self).freeze,
            hit(old(self).entry(key@), freeze_ttl, now) == (match r {
                Some(v) => Some(v@),
                None => None,
            }),
            final(self).parts() == old(self).parts().update(
                old(self).index_of(key@),
                after_get(old(self).parts()[old(self).index_of(key@)], key@, freeze_ttl, now),
            ),
    {
        let ghost parts = self.parts();
        let count: usize = self.shards.len();
        let i = shard_index_for_key(key, count);
        let ghost items = parts[i as int];
        assert(items == store::item_views(self.shards@[i as int]@));
        let at = find_key(&self.shards[i], key);
        proof {
            store::lemma_position_bounds(items, key@);
            assert(shard_ok(items, i as int, count as nat));
        }
        if at >= self.shards[i].len() {
            assert(self.parts() =~= parts.update(i as int, items));
            return None;
        }
        let found: &CacheEntry = &self.shards[i][at].entry;
        assert(items[at as int].entry == found@);
        let ghost e = found@;
        if !freeze_ttl && now >= found.expires_at {
            remove_key(&mut self.shards[i], key);
            proof {
                lemma_shard_ok_remove(items, key@, i as int, count as nat);
                assert(self.parts() =~= parts.update(
                    i as int,
                    store::without_item(items, key@),
                ));
            }
            return None;
        }
        let mut packet = vstd::slice::slice_to_vec(found.response.as_slice());
        let inserted_at: u64 = found.inserted_at;
        let touched = CacheEntry {
            response: vstd::slice::slice_to_vec(found.response.as_slice()),
            inserted_at: found.inserted_at,
            expires_at: found.expires_at,
            original_ttl_secs: found.original_ttl_secs,
            rcode: found.rcode,
            last_access: now,
        };
        assert(touched@ == (store::EntryV { last_access: now, ..e }));
        put_item(&mut self.shards[i], store::copy_key(key), touched);
        proof {
            lemma_shard_ok_update(items, key@, touched@, i as int, count as nat);
            assert(self.parts() =~= parts.update(
                i as int,
                store::with_item(items, key@, touched@),
            ));
        }
        if freeze_ttl {
            return Some(packet);
        }
        let elapsed: u64 = if inserted_at <= now {
            now - inserted_at
        } else {
            0
        };
        if elapsed >= 1000 {
            ttl::decay_response_ttl_in_place(packet.as_mut_slice(), elapsed / 1000);
        }
        Some(packet)
    }

    /// How many milliseconds a key is still valid for. A key that keeps its time to live is for
    /// all of it, and for a second at least.
    pub fn remaining_ttl(&self, key: &CacheKey, freeze_ttl: bool, now: u64) -> (r: Option<u64>)
        requires
            self.wf(),
        ensures
            r == time_left(self.entry(key@), freeze_ttl, now),
    {
        let count: usize = self.shards.len();
        let i = shard_index_for_key(key, count);
        assert(self.parts()[i as int] == store::item_views(self.shards@[i as int]@));
        let at = find_key(&self.shards[i], key);
        if at >= self.shards[i].len() {
            return None;
        }
        let e: &CacheEntry = &self.shards[i][at].entry;
        assert(self.parts()[i as int][at as int].entry == e@);
        if freeze_ttl {
            let secs: u64 = if e.original_ttl_secs > 1 {
                e.original_ttl_secs
            } else {
                1
            };
            if secs > 0xffff_ffff_ffff_ffff / 1000 {
                return Some(0xffff_ffff_ffff_ffff);
            }
            return Some(secs * 1000);
        }
        if now >= e.expires_at {
            return None;
        }
        Some(e.expires_at - now)
    }

    /// Drops a key that is no longer valid.
    pub fn prune_expired(&mut self, key: &CacheKey, now: u64)
        requires
            old(self).wf(),
        ensures
            final(self).wf(),
            final(self).capacity == old(self).capacity,
            final(self).freeze == old(self).freeze,
            final(self).parts() == (match old(self).entry(key@) {
                Some(e) => if now >= e.expires_at {
                    old(self).parts().update(
                        old(self).index_of(key@),
                        store::without_item(
                            old(self).parts()[old(self).index_of(key@)],
                            key@,
                        ),
                    )
                } else {
                    old(self).parts()
                },
                None => old(self).parts(),
            }),
    {
        let ghost parts = self.parts();
        let count: usize = self.shards.len();
        let i = shard_index_for_key(key, count);
        let ghost items = parts[i as int];
        assert(items == store::item_views(self.shards@[i as int]@));
        let at = find_key(&self.shards[i], key);
        if at < self.shards[i].len() {
            assert(items[at as int].entry == self.shards@[i as int]@[at as int].entry@);
            if now >= self.shards[i][at].entry.expires_at {
                proof {
                    assert(shard_ok(items, i as int, count as nat));
                    lemma_shard_ok_remove(items, key@, i as int, count as nat);
                }
                remove_key(&mut self.shards[i], key);
                assert(self.parts() =~= parts.update(
                    i as int,
                    store::without_item(items, key@),
                ));
            }
        }
    }
}

impl Default for ResponseCache {
    fn default() -> (r: Self)
        ensures
            r.wf(),
            r.capacity == 0,
            r.shards@.len() == 16,
            forall|i: int| 0 <= i < r.parts().len() ==> (#[trigger] r.parts()[i]).len() == 0,
    {
        ResponseCache::new(0)
    }
}

/// The domains that keep their time to live after one was added or taken away.
pub open spec fn frozen_domains(
    domains: Seq<Seq<char>>,
    name: Seq<char>,
    enabled: bool,
) -> Seq<Seq<char>> {
    if name.len() == 0 {
        domains
    } else if enabled {
        text::insert_text(domains, name)
    } else {
        names_without(domains, name)
    }
}

pub open spec fn names_without(names: Seq<Seq<char>>, name: Seq<char>) -> Seq<Seq<char>> {
    names.filter(|n: Seq<char>| n != name)
}

/// Taking a name out of a list in order keeps the order and every other name.
pub proof fn lemma_increasing_without(names: Seq<Seq<char>>, name: Seq<char>)
    requires
        text::increasing(names),
    ensures
        text::increasing(names_without(names, name)),
        forall|n: Seq<char>| #[trigger]
            names_without(names, name).contains(n) <==> names.contains(n) && n != name,
    decreases names.len(),
{
    reveal(Seq::filter);
    if names.len() > 0 {
        let rest = names.drop_last();
        assert(text::increasing(rest)) by {
            assert forall|i: int, j: int| 0 <= i < j < rest.len() implies text::lt(
                #[trigger] rest[i],
                #[trigger] rest[j],
            ) by {
                assert(rest[i] == names[i] && rest[j] == names[j]);
            }
        }
        lemma_increasing_without(rest, name);
        let inner = names_without(rest, name);
        let all = names_without(names, name);
        assert forall|n: Seq<char>| #[trigger] all.contains(n) <==> names.contains(n) && n
            != name by {
            if all.contains(n) {
                let k = choose|k: int| 0 <= k < all.len() && all[k] == n;
                if k < inner.len() {
                    assert(inner[k] == n);
                    assert(inner.contains(n));
                    let m = choose|m: int| 0 <= m < rest.len() && rest[m] == n;
                    assert(names[m] == n);
                } else {
                    assert(names[names.len() - 1] == n);
                }
            }
            if names.contains(n) && n != name {
                let m = choose|m: int| 0 <= m < names.len() && names[m] == n;
                if m < rest.len() {
                    assert(rest[m] == n);
                    assert(rest.contains(n));
                    assert(inner.contains(n));
                    let k = choose|k: int| 0 <= k < inner.len() && inner[k] == n;
                    assert(all[k] == n);
                } else {
                    assert(all.last() == n);
                }
            }
        }
        assert forall|i: int, j: int| 0 <= i < j < all.len() implies text::lt(
            #[trigger] all[i],
            #[trigger] all[j],
        ) by {
            if j < inner.len() {
                assert(all[i] == inner[i] && all[j] == inner[j]);
            } else {
                assert(all[i] == inner[i] && all[j] == names.last());
                assert(inner.contains(inner[i]));
                let m = choose|m: int| 0 <= m < rest.len() && rest[m] == inner[i];
                assert(names[m] == inner[i]);
                assert(names[names.len() - 1] == names.last());
            }
        }
    }
}

fn retain_other_names(names: &mut Vec<String>, name: &str)
    ensures
        text::views(final(names)@) == names_without(text::views(old(names)@), name@),
{
    let ghost all = text::views(names@);
    let ghost keep = |n: Seq<char>| n != name@;
    let n: usize = names.len();
    let mut out: Vec<String> = Vec::new();
    let mut i: usize = 0;
    assert(all.take(0).filter(keep) =~= Seq::empty()) by {
        reveal(Seq::filter);
    }
    assert(text::views(out@) =~= Seq::empty());
    while i < n
        invariant
            i <= n,
            n == names@.len(),
            all == text::views(names@),
            keep == (|n: Seq<char>| n != name@),
            text::views(out@) == all.take(i as int).filter(keep),
        decreases n - i,
    {
        assert(all[i as int] == names@[i as int]@);
        assert(all.take(i + 1).drop_last() =~= all.take(i as int));
        let ghost before = text::views(out@);
        proof {
            reveal(Seq::filter);
        }
        if !text::same(names[i].as_str(), name) {
            let kept = names[i].clone();
            out.push(kept);
            assert(text::views(out@) =~= before.push(kept@));
        }
        i = i + 1;
    }
    assert(all.take(i as int) =~= all);
    *names = out;
}

proof fn lemma_entry_count(parts: Seq<Seq<store::ItemV>>, i: int, k: int)
    requires
        0 <= i <= k,
    ensures
        entry_count(parts, i) <= entry_count(parts, k),
    decreases k - i,
{
    if i < k {
        lemma_entry_count(parts, i, k - 1);
    }
}

/// The items whose name does not lie below a domain.
pub open spec fn items_outside(items: Seq<store::ItemV>, name: Seq<char>) -> Seq<store::ItemV> {
    items.filter(|i: store::ItemV| !text::is_under(text::plain_name(i.key.qname), name))
}

/// The parts without the entries of a domain and of what lies below it; a blank name drops none.
pub open spec fn parts_without(parts: Seq<Seq<store::ItemV>>, name: Seq<char>) -> Seq<
    Seq<store::ItemV>,
> {
    if name.len() == 0 {
        parts
    } else {
        parts.map_values(|p: Seq<store::ItemV>| items_outside(p, name))
    }
}

proof fn lemma_items_outside(items: Seq<store::ItemV>, name: Seq<char>)
    ensures
        items_outside(items, name).len() <= items.len(),
        store::distinct(items) ==> store::distinct(items_outside(items, name)),
        forall|x: store::ItemV| #[trigger]
            items_outside(items, name).contains(x) ==> items.contains(x),
    decreases items.len(),
{
    reveal(Seq::filter);
    if items.len() > 0 {
        let rest = items.drop_last();
        lemma_items_outside(rest, name);
        let inner = items_outside(rest, name);
        let all = items_outside(items, name);
        assert forall|x: store::ItemV| #[trigger] all.contains(x) implies items.contains(x) by {
            let k = choose|k: int| 0 <= k < all.len() && all[k] == x;
            if k < inner.len() {
                assert(inner[k] == x);
                assert(inner.contains(x));
                let m = choose|m: int| 0 <= m < rest.len() && rest[m] == x;
                assert(items[m] == x);
            } else {
                assert(items[items.len() - 1] == x);
            }
        }
        if store::distinct(items) {
            assert(store::distinct(rest)) by {
                assert forall|a: int, b: int| 0 <= a < b < rest.len() implies (
                #[trigger] rest[a]).key != (#[trigger] rest[b]).key by {
                    assert(rest[a] == items[a] && rest[b] == items[b]);
                }
            }
            assert forall|a: int, b: int| 0 <= a < b < all.len() implies (
            #[trigger] all[a]).key != (#[trigger] all[b]).key by {
                if b < inner.len() {
                    assert(all[a] == inner[a] && all[b] == inner[b]);
                } else {
                    assert(all[a] == inner[a] && all[b] == items.last());
                    assert(inner.contains(inner[a]));
                    let m = choose|m: int| 0 <= m < rest.len() && rest[m] == inner[a];
                    assert(items[m] == inner[a]);
                    assert(items[items.len() - 1] == items.last());
                }
            }
        }
    }
}

fn retain_outside(items: &mut Vec<CacheItem>, name: &str)
    ensures
        store::item_views(final(items)@) == items_outside(store::item_views(old(items)@), name@),
{
    let ghost all = store::item_views(items@);
    let ghost keep = |i: store::ItemV| !text::is_under(text::plain_name(i.key.qname), name@);
    let mut i: usize = 0;
    assert(all.take(0).filter(keep) =~= Seq::empty()) by {
        reveal(Seq::filter);
    }
    let ghost mut done: int = 0;
    assert(all.skip(0) =~= all);
    assert(all.take(0).filter(keep) + all.skip(0) =~= all);
    while i < items.len()
        invariant
            i <= items@.len(),
            0 <= done <= all.len(),
            items@.len() - i == all.len() - done,
            keep == (|i: store::ItemV| !text::is_under(text::plain_name(i.key.qname), name@)),
            i == all.take(done).filter(keep).len(),
            store::item_views(items@) == all.take(done).filter(keep) + all.skip(done),
        decreases items@.len() - i,
    {
        let ghost kept = all.take(done).filter(keep);
        let ghost before = store::item_views(items@);
        assert(all.take(done + 1).drop_last() =~= all.take(done));
        proof {
            reveal(Seq::filter);
            assert(before[i as int] == all.skip(done)[0]);
            assert(items@[i as int]@ == before[i as int]);
        }
        let qname = text::plain_name_of(items[i].key.qname.as_str());
        if text::lies_under(qname.as_str(), name) {
            let _ = items.remove(i);
            assert(store::item_views(items@) =~= before.remove(i as int));
            assert(before.remove(i as int) =~= kept + all.skip(done + 1));
        } else {
            assert(before =~= kept.push(all[done]) + all.skip(done + 1));
            i = i + 1;
        }
        proof {
            done = done + 1;
        }
    }
    assert(all.take(done) =~= all);
    assert(store::item_views(items@) =~= all.filter(keep));
}

/// The parts within their shares of another capacity.
pub open spec fn resized_parts(parts: Seq<Seq<store::ItemV>>, capacity: nat, now: u64) -> Seq<
    Seq<store::ItemV>,
> {
    if capacity == 0 {
        parts
    } else {
        parts.map(
            |i: int, p: Seq<store::ItemV>|
                store::trimmed(
                    store::valid_items(p, now),
                    shard_capacity(capacity, i, parts.len())->0 as int,
                ),
        )
    }
}

/// How many milliseconds an entry is still valid for.
pub open spec fn time_left(entry: Option<store::EntryV>, freeze_ttl: bool, now: u64) -> Option<
    u64,
> {
    match entry {
        None => None,
        Some(e) => if freeze_ttl {
            let secs: int = if e.original_ttl_secs > 1 {
                e.original_ttl_secs as int
            } else {
                1
            };
            Some(
                if secs * 1000 <= u64::MAX {
                    (secs * 1000) as u64
                } else {
                    u64::MAX
                },
            )
        } else if now >= e.expires_at {
            None
        } else {
            Some((e.expires_at - now) as u64)
        },
    }
}

/// What is cached is served: a response that was put in is what a request for its key gets, as
/// long as it is valid, with its times lowered by the time that passed.
pub proof fn lemma_served_until_expiry(response: Seq<u8>, ttl_ms: u64, then: u64, now: u64)
    requires
        then + ttl_ms <= u64::MAX,
        then <= now,
    ensures
        now < then + ttl_ms ==> hit(Some(new_entry(response, ttl_ms, then)), false, now) == Some(
            served(response, (now - then) as u64),
        ),
        now >= then + ttl_ms ==> hit(Some(new_entry(response, ttl_ms, then)), false, now) is None,
        hit(Some(new_entry(response, ttl_ms, then)), true, now) == Some(response),
{
}

} // verus!
