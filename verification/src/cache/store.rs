//! The entries of one part of the cache, and what makes room among them.
use crate::text;
use vstd::prelude::*;

verus! {

/// What a response answers.
#[derive(Debug, Clone)]
pub struct CacheKey {
    pub qname: String,
    pub qtype: u16,
    pub dnssec_ok: bool,
}

pub ghost struct KeyV {
    pub qname: Seq<char>,
    pub qtype: u16,
    pub dnssec_ok: bool,
}

impl View for CacheKey {
    type V = KeyV;

    open spec fn view(&self) -> KeyV {
        KeyV { qname: self.qname@, qtype: self.qtype, dnssec_ok: self.dnssec_ok }
    }
}

/// A cached response. Times are in milliseconds.
#[derive(Debug, Clone)]
pub struct CacheEntry {
    pub response: Vec<u8>,
    pub inserted_at: u64,
    pub expires_at: u64,
    pub original_ttl_secs: u64,
    pub rcode: u16,
    pub last_access: u64,
}

pub ghost struct EntryV {
    pub response: Seq<u8>,
    pub inserted_at: u64,
    pub expires_at: u64,
    pub original_ttl_secs: u64,
    pub rcode: u16,
    pub last_access: u64,
}

impl View for CacheEntry {
    type V = EntryV;

    open spec fn view(&self) -> EntryV {
        EntryV {
            response: self.response@,
            inserted_at: self.inserted_at,
            expires_at: self.expires_at,
            original_ttl_secs: self.original_ttl_secs,
            rcode: self.rcode,
            last_access: self.last_access,
        }
    }
}

/// An entry under its key.
#[derive(Debug, Clone)]
pub struct CacheItem {
    pub key: CacheKey,
    pub entry: CacheEntry,
}

pub ghost struct ItemV {
    pub key: KeyV,
    pub entry: EntryV,
}

impl View for CacheItem {
    type V = ItemV;

    open spec fn view(&self) -> ItemV {
        ItemV { key: self.key@, entry: self.entry@ }
    }
}

pub open spec fn item_views(items: Seq<CacheItem>) -> Seq<ItemV> {
    items.map_values(|i: CacheItem| i@)
}

/// The position of a key; the number of items where it is missing.
pub open spec fn position(items: Seq<ItemV>, key: KeyV) -> int
    decreases items.len(),
{
    if items.len() == 0 || items[0].key == key {
        0
    } else {
        1 + position(items.skip(1), key)
    }
}

/// The entry of a key.
pub open spec fn entry_of(items: Seq<ItemV>, key: KeyV) -> Option<EntryV> {
    let i = position(items, key);
    if i < items.len() {
        Some(items[i].entry)
    } else {
        None
    }
}

/// The items with another entry under a key.
pub open spec fn with_item(items: Seq<ItemV>, key: KeyV, entry: EntryV) -> Seq<ItemV> {
    let i = position(items, key);
    if i < items.len() {
        items.update(i, ItemV { key, entry })
    } else {
        items.push(ItemV { key, entry })
    }
}

/// The items without a key.
pub open spec fn without_item(items: Seq<ItemV>, key: KeyV) -> Seq<ItemV> {
    let i = position(items, key);
    if i < items.len() {
        items.remove(i)
    } else {
        items
    }
}

/// Whether no key occurs twice.
pub open spec fn distinct(items: Seq<ItemV>) -> bool {
    forall|i: int, j: int|
        0 <= i < j < items.len() ==> (#[trigger] items[i]).key != (#[trigger] items[j]).key
}

pub proof fn lemma_position(items: Seq<ItemV>, key: KeyV, i: int)
    requires
        0 <= i <= items.len(),
        forall|k: int| 0 <= k < i ==> (#[trigger] items[k]).key != key,
        i < items.len() ==> items[i].key == key,
    ensures
        position(items, key) == i,
    decreases items.len(),
{
    if items.len() > 0 && i > 0 {
        assert(items[0].key != key);
        let rest = items.skip(1);
        assert forall|k: int| 0 <= k < i - 1 implies (#[trigger] rest[k]).key != key by {
            assert(rest[k] == items[k + 1]);
        }
        lemma_position(rest, key, i - 1);
    }
}

/// What a position says of the items.
pub proof fn lemma_position_bounds(items: Seq<ItemV>, key: KeyV)
    ensures
        0 <= position(items, key) <= items.len(),
        forall|k: int| 0 <= k < position(items, key) ==> (#[trigger] items[k]).key != key,
        position(items, key) < items.len() ==> items[position(items, key)].key == key,
    decreases items.len(),
{
    if items.len() > 0 && items[0].key != key {
        let rest = items.skip(1);
        lemma_position_bounds(rest, key);
        assert forall|k: int| 0 <= k < position(items, key) implies (
        #[trigger] items[k]).key != key by {
            if k > 0 {
                assert(rest[k - 1] == items[k]);
            }
        }
    }
}

/// A key that is written has the new entry; every other key keeps its own.
pub proof fn lemma_with_item(items: Seq<ItemV>, key: KeyV, entry: EntryV, other: KeyV)
    ensures
        entry_of(with_item(items, key, entry), key) == Some(entry),
        other != key ==> entry_of(with_item(items, key, entry), other) == entry_of(items, other),
        distinct(items) ==> distinct(with_item(items, key, entry)),
{
    let i = position(items, key);
    lemma_position_bounds(items, key);
    let new = with_item(items, key, entry);
    lemma_position(new, key, i);
    if other != key {
        let j = position(items, other);
        lemma_position_bounds(items, other);
        if j < items.len() {
            lemma_position(new, other, j);
        } else {
            lemma_position(new, other, new.len() as int);
        }
    }
}

/// The items that are still valid.
pub open spec fn valid_items(items: Seq<ItemV>, now: u64) -> Seq<ItemV> {
    items.filter(|i: ItemV| now < i.entry.expires_at)
}

/// The position of the item among the first `n` that was not asked for the longest.
pub open spec fn stalest(items: Seq<ItemV>, n: int) -> int
    decreases n,
{
    if n <= 1 {
        0
    } else {
        let best = stalest(items, n - 1);
        if items[n - 1].entry.last_access < items[best].entry.last_access {
            n - 1
        } else {
            best
        }
    }
}

/// How many items are looked at before one is dropped.
pub const SAMPLE_SIZE: usize = 5;

pub open spec fn sample(len: int) -> int {
    if len < SAMPLE_SIZE {
        len
    } else {
        SAMPLE_SIZE as int
    }
}

/// The items of which at most `most` are left: the stalest of a sample is dropped until they are.
pub open spec fn trimmed(items: Seq<ItemV>, most: int) -> Seq<ItemV>
    decreases items.len(),
{
    if items.len() <= most || items.len() == 0 {
        items
    } else {
        let i = stalest(items, sample(items.len() as int));
        if 0 <= i < items.len() {
            trimmed(items.remove(i), most)
        } else {
            items
        }
    }
}

/// The items among which one more fits; nothing is limited where there is no capacity.
pub open spec fn with_room(items: Seq<ItemV>, now: u64, capacity: Option<nat>) -> Seq<ItemV> {
    match capacity {
        None => items,
        Some(c) => if c == 0 {
            Seq::empty()
        } else if items.len() >= c {
            trimmed(valid_items(items, now), c - 1)
        } else {
            items
        },
    }
}

pub proof fn lemma_stalest(items: Seq<ItemV>, n: int)
    requires
        1 <= n <= items.len(),
    ensures
        0 <= stalest(items, n) < n,
        forall|k: int|
            0 <= k < n ==> items[stalest(items, n)].entry.last_access <= (
            #[trigger] items[k]).entry.last_access,
    decreases n,
{
    if n > 1 {
        lemma_stalest(items, n - 1);
    }
}

/// Dropping items leaves at most as many as asked for, none that was not there, and no key twice.
pub proof fn lemma_trimmed(items: Seq<ItemV>, most: int)
    requires
        most >= 0,
    ensures
        trimmed(items, most).len() <= most || trimmed(items, most).len() == 0,
        trimmed(items, most).len() <= items.len(),
        distinct(items) ==> distinct(trimmed(items, most)),
        forall|x: ItemV| #[trigger] trimmed(items, most).contains(x) ==> items.contains(x),
    decreases items.len(),
{
    if items.len() > most && items.len() > 0 {
        let n = sample(items.len() as int);
        lemma_stalest(items, n);
        let i = stalest(items, n);
        let rest = items.remove(i);
        lemma_trimmed(rest, most);
        assert forall|x: ItemV| #[trigger] trimmed(items, most).contains(x) implies items.contains(
            x,
        ) by {
            let k = choose|k: int| 0 <= k < rest.len() && rest[k] == x;
            assert(rest.contains(x));
            assert(rest[k] == (if k < i {
                items[k]
            } else {
                items[k + 1]
            }));
        }
        if distinct(items) {
            assert(distinct(rest)) by {
                assert forall|a: int, b: int| 0 <= a < b < rest.len() implies (
                #[trigger] rest[a]).key != (#[trigger] rest[b]).key by {
                    let x = if a < i {
                        a
                    } else {
                        a + 1
                    };
                    let y = if b < i {
                        b
                    } else {
                        b + 1
                    };
                    assert(rest[a] == items[x] && rest[b] == items[y]);
                }
            }
        }
    }
}

/// The valid items are among the items, and no key occurs twice among them.
pub proof fn lemma_valid_items(items: Seq<ItemV>, now: u64)
    ensures
        valid_items(items, now).len() <= items.len(),
        distinct(items) ==> distinct(valid_items(items, now)),
        forall|x: ItemV| #[trigger] valid_items(items, now).contains(x) ==> items.contains(x),
    decreases items.len(),
{
    let keep = |i: ItemV| now < i.entry.expires_at;
    reveal(Seq::filter);
    if items.len() > 0 {
        let rest = items.drop_last();
        lemma_valid_items(rest, now);
        let inner = valid_items(rest, now);
        let all = valid_items(items, now);
        assert forall|x: ItemV| #[trigger] all.contains(x) implies items.contains(x) by {
            let k = choose|k: int| 0 <= k < all.len() && all[k] == x;
            if k < inner.len() {
                assert(inner[k] == x);
                assert(inner.contains(x));
                let m = choose|m: int| 0 <= m < rest.len() && rest[m] == x;
                assert(items[m] == x);
            } else {
                assert(items[items.len() - 1] == x);
            }
        }
        if distinct(items) {
            assert(distinct(rest)) by {
                assert forall|a: int, b: int| 0 <= a < b < rest.len() implies (
                #[trigger] rest[a]).key != (#[trigger] rest[b]).key by {
                    assert(rest[a] == items[a] && rest[b] == items[b]);
                }
            }
            assert forall|a: int, b: int| 0 <= a < b < all.len() implies (
            #[trigger] all[a]).key != (#[trigger] all[b]).key by {
                if b < inner.len() {
                    assert(all[a] == inner[a] && all[b] == inner[b]);
                } else {
                    assert(all[a] == inner[a] && all[b] == items.last());
                    assert(inner.contains(inner[a]));
                    let m = choose|m: int| 0 <= m < rest.len() && rest[m] == inner[a];
                    assert(items[m] == inner[a]);
                    assert(items[items.len() - 1] == items.last());
                }
            }
        }
    }
}

/// Where there is a capacity, room is made for one more item, from the items that were there.
pub proof fn lemma_with_room(items: Seq<ItemV>, now: u64, capacity: Option<nat>)
    ensures
        capacity matches Some(c) ==> with_room(items, now, capacity).len() < c || c == 0,
        distinct(items) ==> distinct(with_room(items, now, capacity)),
        with_room(items, now, capacity).len() <= items.len(),
        forall|x: ItemV| #[trigger]
            with_room(items, now, capacity).contains(x) ==> items.contains(x),
{
    if let Some(c) = capacity {
        if c > 0 && items.len() >= c {
            lemma_valid_items(items, now);
            lemma_trimmed(valid_items(items, now), c - 1);
        }
    }
}

fn same_key(a: &CacheKey, b: &CacheKey) -> (r: bool)
    ensures
        r == (a@ == b@),
{
    a.qtype == b.qtype && a.dnssec_ok == b.dnssec_ok && text::same(
        a.qname.as_str(),
        b.qname.as_str(),
    )
}

/// The position of a key.
pub fn find_key(items: &Vec<CacheItem>, key: &CacheKey) -> (r: usize)
    ensures
        r == position(item_views(items@), key@),
        r <= items@.len(),
{
    let ghost all = item_views(items@);
    let mut i: usize = 0;
    while i < items.len()
        invariant
            i <= items@.len(),
            all == item_views(items@),
            forall|k: int| 0 <= k < i ==> (#[trigger] all[k]).key != key@,
        decreases items@.len() - i,
    {
        assert(all[i as int] == items@[i as int]@);
        if same_key(&items[i].key, key) {
            proof {
                lemma_position(all, key@, i as int);
            }
            return i;
        }
        i = i + 1;
    }
    proof {
        lemma_position(all, key@, i as int);
    }
    i
}

/// Writes an entry under a key.
pub fn put_item(items: &mut Vec<CacheItem>, key: CacheKey, entry: CacheEntry)
    ensures
        item_views(final(items)@) == with_item(item_views(old(items)@), key@, entry@),
{
    let ghost all = item_views(items@);
    let i = find_key(items, &key);
    let item = CacheItem { key, entry };
    if i < items.len() {
        items.set(i, item);
        assert(item_views(items@) =~= all.update(i as int, item@));
    } else {
        items.push(item);
        assert(item_views(items@) =~= all.push(item@));
    }
}

/// Removes a key.
pub fn remove_key(items: &mut Vec<CacheItem>, key: &CacheKey)
    ensures
        item_views(final(items)@) == without_item(item_views(old(items)@), key@),
{
    let ghost all = item_views(items@);
    let i = find_key(items, key);
    if i < items.len() {
        let _ = items.remove(i);
        assert(item_views(items@) =~= all.remove(i as int));
    }
}

pub fn copy_key(key: &CacheKey) -> (r: CacheKey)
    ensures
        r@ == key@,
{
    CacheKey { qname: key.qname.clone(), qtype: key.qtype, dnssec_ok: key.dnssec_ok }
}

fn retain_valid(items: &mut Vec<CacheItem>, now: u64)
    ensures
        item_views(final(items)@) == valid_items(item_views(old(items)@), now),
{
    let ghost all = item_views(items@);
    let ghost keep = |i: ItemV| now < i.entry.expires_at;
    let n: usize = items.len();
    let mut rest: Vec<CacheItem> = Vec::new();
    while items.len() > 0
        invariant
            items@.len() + rest@.len() == n,
            n == all.len(),
            item_views(items@) == all.take(items@.len() as int),
            forall|k: int|
                0 <= k < rest@.len() ==> (#[trigger] rest@[k])@ == all[all.len() - 1 - k],
        decreases items@.len(),
    {
        let ghost before = items@;
        if let Some(item) = items.pop() {
            assert(item@ == item_views(before)[before.len() - 1]);
            assert(item_views(items@) =~= all.take(items@.len() as int));
            rest.push(item);
        }
    }
    assert(all.take(0).filter(keep) =~= Seq::empty()) by {
        reveal(Seq::filter);
    }
    let mut i: usize = 0;
    assert(item_views(items@) =~= all.take(0).filter(keep));
    while rest.len() > 0
        invariant
            rest@.len() + i == n,
            n == all.len(),
            keep == (|i: ItemV| now < i.entry.expires_at),
            forall|k: int|
                0 <= k < rest@.len() ==> (#[trigger] rest@[k])@ == all[all.len() - 1 - k],
            item_views(items@) == all.take(i as int).filter(keep),
        decreases rest@.len(),
    {
        let ghost before = item_views(items@);
        assert(all.take(i + 1).drop_last() =~= all.take(i as int));
        proof {
            reveal(Seq::filter);
        }
        if let Some(item) = rest.pop() {
            assert(item@ == all[i as int]);
            if now < item.entry.expires_at {
                items.push(item);
                assert(item_views(items@) =~= before.push(item@));
            }
        }
        i = i + 1;
    }
    assert(all.take(i as int) =~= all);
}

fn stalest_of(items: &Vec<CacheItem>, n: usize) -> (r: usize)
    requires
        1 <= n <= items@.len(),
    ensures
        r == stalest(item_views(items@), n as int),
        r < n,
{
    let ghost all = item_views(items@);
    let mut best: usize = 0;
    let mut i: usize = 1;
    while i < n
        invariant
            1 <= i <= n,
            n <= items@.len(),
            all == item_views(items@),
            best < i,
            best == stalest(all, i as int),
        decreases n - i,
    {
        assert(all[i as int] == items@[i as int]@ && all[best as int] == items@[best as int]@);
        if items[i].entry.last_access < items[best].entry.last_access {
            best = i;
        }
        i = i + 1;
    }
    best
}

/// Drops items until at most `most` are left.
pub fn trim_items(items: &mut Vec<CacheItem>, most: usize)
    ensures
        item_views(final(items)@) == trimmed(item_views(old(items)@), most as int),
{
    let ghost all = item_views(items@);
    while items.len() > most && items.len() > 0
        invariant
            trimmed(all, most as int) == trimmed(item_views(items@), most as int),
        decreases items@.len(),
    {
        let n: usize = if items.len() < SAMPLE_SIZE {
            items.len()
        } else {
            SAMPLE_SIZE
        };
        let ghost before = item_views(items@);
        let i = stalest_of(items, n);
        let _ = items.remove(i);
        assert(item_views(items@) =~= before.remove(i as int));
    }
}

/// Drops the items that are no longer valid, and more until at most `most` are left.
pub fn shrink(items: &mut Vec<CacheItem>, now: u64, most: usize)
    ensures
        item_views(final(items)@) == trimmed(
            valid_items(item_views(old(items)@), now),
            most as int,
        ),
{
    retain_valid(items, now);
    trim_items(items, most);
}

/// Makes room for one more item.
pub fn make_room(items: &mut Vec<CacheItem>, now: u64, capacity: Option<usize>)
    ensures
        item_views(final(items)@) == with_room(
            item_views(old(items)@),
            now,
            (match capacity {
                Some(c) => Some(c as nat),
                None => None,
            }),
        ),
{
    if let Some(c) = capacity {
        if c == 0 {
            items.clear();
            assert(item_views(items@) =~= Seq::empty());
        } else if items.len() >= c {
            shrink(items, now, c - 1);
        }
    }
}

/// Which names keep their time to live: all of them, or those below some domains.
#[derive(Debug, Clone)]
pub struct FreezeSettings {
    pub all: bool,
    pub domains: Vec<String>,
}

/// Whether a name keeps its time to live.
pub open spec fn is_frozen(all: bool, domains: Seq<Seq<char>>, qname: Seq<char>) -> bool {
    all || (text::plain_name(qname).len() > 0 && some_domain_covers(
        domains,
        text::plain_name(qname),
    ))
}

pub open spec fn some_domain_covers(domains: Seq<Seq<char>>, name: Seq<char>) -> bool {
    exists|i: int| 0 <= i < domains.len() && text::is_under(name, #[trigger] domains[i])
}

impl FreezeSettings {
    /// No name keeps its time to live.
    pub fn none() -> (r: Self)
        ensures
            !r.all,
            r.domains@.len() == 0,
    {
        FreezeSettings { all: false, domains: Vec::new() }
    }

    /// Whether a name keeps its time to live.
    pub fn covers(&self, qname: &str) -> (r: bool)
        ensures
            r == is_frozen(self.all, text::views(self.domains@), qname@),
    {
        if self.all {
            return true;
        }
        let name = text::plain_name_of(qname);
        if text::chars_of(name.as_str()).len() == 0 {
            return false;
        }
        let ghost domains = text::views(self.domains@);
        let mut i: usize = 0;
        while i < self.domains.len()
            invariant
                i <= self.domains@.len(),
                domains == text::views(self.domains@),
                name@ == text::plain_name(qname@),
                name@.len() > 0,
                forall|k: int| 0 <= k < i ==> !text::is_under(name@, #[trigger] domains[k]),
            decreases self.domains@.len() - i,
        {
            assert(domains[i as int] == self.domains@[i as int]@);
            if text::lies_under(name.as_str(), self.domains[i].as_str()) {
                assert(text::is_under(name@, domains[i as int]));
                return true;
            }
            i = i + 1;
        }
        false
    }
}

} // verus!
