//! What holds of the cache as a whole.
use crate::cache::dump;
use crate::cache::hex;
use crate::cache::response;
use crate::cache::response::ResponseCache;
use crate::cache::store;
use crate::text;
use vstd::prelude::*;

verus! {

proof fn lemma_parts_within(c: ResponseCache, k: nat)
    requires
        c.wf(),
        0 < c.shards@.len() <= c.capacity,
        k <= c.shards@.len(),
    ensures
        response::entry_count(c.parts(), k as int) <= response::shares(
            c.capacity as nat,
            c.shards@.len(),
            k,
        ),
    decreases k,
{
    if k > 0 {
        lemma_parts_within(c, (k - 1) as nat);
        let total = c.capacity as nat;
        let count = c.shards@.len();
        assert(total / count >= 1) by (nonlinear_arith)
            requires
                0 < count <= total,
        ;
        assert(response::within_share(
            c.parts()[k - 1].len(),
            response::shard_capacity(total, k - 1, count),
        ));
    }
}

/// A cache with a capacity never holds more entries than that, as long as the capacity is at
/// least the number of its parts: each of them may always hold one.
pub proof fn lemma_within_capacity(c: ResponseCache)
    requires
        c.wf(),
        0 < c.shards@.len() <= c.capacity,
    ensures
        response::entry_count(c.parts(), c.shards@.len() as int) <= c.capacity,
{
    lemma_parts_within(c, c.shards@.len());
    response::lemma_shares(c.capacity as nat, c.shards@.len());
}

/// A cache without a limit keeps every other entry when one is put in.
pub proof fn lemma_unlimited_keeps_all(
    items: Seq<store::ItemV>,
    key: store::KeyV,
    entry: store::EntryV,
    other: store::KeyV,
    now: u64,
)
    ensures
        ({
            let after = store::with_item(store::with_room(items, now, None), key, entry);
            &&& store::entry_of(after, key) == Some(entry)
            &&& other != key ==> store::entry_of(after, other) == store::entry_of(items, other)
        }),
{
    store::lemma_with_item(items, key, entry, other);
}

proof fn lemma_outside(items: Seq<store::ItemV>, name: Seq<char>, x: store::ItemV)
    ensures
        response::items_outside(items, name).contains(x) <==> items.contains(x) && !text::is_under(
            text::plain_name(x.key.qname),
            name,
        ),
    decreases items.len(),
{
    reveal(Seq::filter);
    let all = response::items_outside(items, name);
    if items.len() > 0 {
        let rest = items.drop_last();
        lemma_outside(rest, name, x);
        let inner = response::items_outside(rest, name);
        if inner.contains(x) {
            let k = choose|k: int| 0 <= k < inner.len() && inner[k] == x;
            assert(all[k] == x);
        }
        if rest.contains(x) {
            let k = choose|k: int| 0 <= k < rest.len() && rest[k] == x;
            assert(items[k] == x);
        }
        if items.last() == x {
            assert(items[items.len() - 1] == x);
            if !text::is_under(text::plain_name(x.key.qname), name) {
                assert(all[all.len() - 1] == x);
            }
        }
        if items.contains(x) && items.last() != x {
            let k = choose|k: int| 0 <= k < items.len() && items[k] == x;
            assert(rest[k] == x);
        }
        if all.contains(x) && !inner.contains(x) {
            let k = choose|k: int| 0 <= k < all.len() && all[k] == x;
            if k < inner.len() {
                assert(inner[k] == x);
            }
        }
    }
}

/// Clearing a domain takes out the entries of the domain and of what lies below it, and no other.
pub proof fn lemma_cleared(
    parts: Seq<Seq<store::ItemV>>,
    name: Seq<char>,
    i: int,
    x: store::ItemV,
)
    requires
        name.len() > 0,
        0 <= i < parts.len(),
    ensures
        response::parts_without(parts, name)[i].contains(x) <==> parts[i].contains(x)
            && !text::is_under(text::plain_name(x.key.qname), name),
{
    lemma_outside(parts[i], name, x);
}

/// What is dumped of an entry that is valid for a second or more, another cache takes over: the
/// same response under the same name and type, for as many whole seconds as were left.
pub proof fn lemma_dump_round_trip(
    item: store::ItemV,
    parts: Seq<Seq<store::ItemV>>,
    capacity: nat,
    now: u64,
)
    requires
        parts.len() > 0,
        now + 1000 <= item.entry.expires_at,
    ensures
        ({
            let line = dump::dump_entry(item, false, now)->0;
            let key = store::KeyV {
                qname: item.key.qname,
                qtype: item.key.qtype,
                dnssec_ok: false,
            };
            let after = dump::imported_one(parts, capacity, line, now);
            let secs = (item.entry.expires_at - now) / 1000;
            store::entry_of(after[response::shard_of(key, parts.len())], key) == Some(
                response::new_entry(item.entry.response, (secs * 1000) as u64, now),
            )
        }),
{
    dump::lemma_dump_is_importable(item, now);
    let line = dump::dump_entry(item, false, now)->0;
    let key = store::KeyV { qname: item.key.qname, qtype: item.key.qtype, dnssec_ok: false };
    let i = response::shard_of(key, parts.len());
    let room = store::with_room(
        parts[i],
        now,
        response::shard_capacity(capacity, i, parts.len()),
    );
    let entry = response::new_entry(
        hex::hex_bytes(line.response_hex)->0,
        (line.remaining_ttl_secs * 1000) as u64,
        now,
    );
    store::lemma_with_item(room, key, entry, key);
}

/// The key under which a line of a list is taken over.
pub open spec fn line_key(e: dump::DumpEntryV) -> store::KeyV {
    store::KeyV { qname: e.qname, qtype: e.qtype, dnssec_ok: false }
}

/// A line is passed over if and only if it has no time left or its response is not made of pairs
/// of hexadecimal digits.
pub proof fn lemma_passed_over(e: dump::DumpEntryV)
    ensures
        !dump::is_importable(e) <==> e.remaining_ttl_secs == 0 || !hex::is_hex(e.response_hex),
{
    hex::lemma_hex_bytes(e.response_hex);
}

/// A cache without a limit after one line is taken over: the line is there under its key, and
/// every other entry as it was.
proof fn lemma_line_taken_over(
    parts: Seq<Seq<store::ItemV>>,
    e: dump::DumpEntryV,
    now: u64,
    key: store::KeyV,
)
    requires
        parts.len() > 0,
    ensures
        ({
            let after = dump::imported_one(parts, 0, e, now);
            let i = response::shard_of(key, parts.len());
            &&& after.len() == parts.len()
            &&& if dump::is_importable(e) && key == line_key(e) {
                store::entry_of(after[i], key) == Some(
                    response::new_entry(
                        hex::hex_bytes(e.response_hex)->0,
                        (e.remaining_ttl_secs * 1000) as u64,
                        now,
                    ),
                )
            } else {
                store::entry_of(after[i], key) == store::entry_of(parts[i], key)
            }
        }),
{
    if dump::is_importable(e) {
        let at = response::shard_of(line_key(e), parts.len());
        let entry = response::new_entry(
            hex::hex_bytes(e.response_hex)->0,
            (e.remaining_ttl_secs * 1000) as u64,
            now,
        );
        lemma_unlimited_keeps_all(parts[at], line_key(e), entry, key, now);
    }
}

/// A cache without a limit that takes over a list has afterwards under every other key what it had
/// before.
pub proof fn lemma_dump_keeps_others(
    parts: Seq<Seq<store::ItemV>>,
    list: Seq<dump::DumpEntryV>,
    now: u64,
    key: store::KeyV,
)
    requires
        parts.len() > 0,
        forall|j: int|
            0 <= j < list.len() && dump::is_importable(list[j]) ==> line_key(#[trigger] list[j])
                != key,
    ensures
        ({
            let after = dump::imported(parts, 0, list, now);
            let i = response::shard_of(key, parts.len());
            &&& after.len() == parts.len()
            &&& store::entry_of(after[i], key) == store::entry_of(parts[i], key)
        }),
    decreases list.len(),
{
    if list.len() > 0 {
        let rest = list.drop_last();
        assert forall|j: int|
            0 <= j < rest.len() && dump::is_importable(rest[j]) implies line_key(#[trigger] rest[j])
            != key by {
            assert(rest[j] == list[j]);
        }
        lemma_dump_keeps_others(parts, rest, now, key);
        assert(list.last() == list[list.len() - 1]);
        lemma_line_taken_over(dump::imported(parts, 0, rest, now), list.last(), now, key);
    }
}

/// Every line that a cache without a limit takes over is there afterwards, unless a later line has
/// its key: with the bytes that its digits write, for the time it had left.
proof fn lemma_dump_entry(
    parts: Seq<Seq<store::ItemV>>,
    list: Seq<dump::DumpEntryV>,
    now: u64,
    k: int,
)
    requires
        parts.len() > 0,
        0 <= k < list.len(),
        dump::is_importable(list[k]),
        forall|j: int|
            k < j < list.len() && dump::is_importable(list[j]) ==> line_key(#[trigger] list[j])
                != line_key(list[k]),
    ensures
        ({
            let after = dump::imported(parts, 0, list, now);
            let key = line_key(list[k]);
            &&& after.len() == parts.len()
            &&& store::entry_of(after[response::shard_of(key, parts.len())], key) == Some(
                response::new_entry(
                    hex::hex_bytes(list[k].response_hex)->0,
                    (list[k].remaining_ttl_secs * 1000) as u64,
                    now,
                ),
            )
        }),
    decreases list.len(),
{
    let rest = list.drop_last();
    let key = line_key(list[k]);
    if k < list.len() - 1 {
        assert(rest[k] == list[k]);
        assert forall|j: int|
            k < j < rest.len() && dump::is_importable(rest[j]) implies line_key(#[trigger] rest[j])
            != line_key(rest[k]) by {
            assert(rest[j] == list[j]);
        }
        lemma_dump_entry(parts, rest, now, k);
        assert(list.last() == list[list.len() - 1]);
    } else {
        lemma_dump_len(parts, rest, now);
    }
    lemma_line_taken_over(dump::imported(parts, 0, rest, now), list.last(), now, key);
}

proof fn lemma_dump_len(parts: Seq<Seq<store::ItemV>>, list: Seq<dump::DumpEntryV>, now: u64)
    requires
        parts.len() > 0,
    ensures
        dump::imported(parts, 0, list, now).len() == parts.len(),
    decreases list.len(),
{
    if list.len() > 0 {
        lemma_dump_len(parts, list.drop_last(), now);
    }
}

/// A cache without a limit that takes over a list whose lines have keys of their own serves every
/// line with time left and readable digits afterwards: the bytes that the digits write, at once,
/// and at any later time where times to live are kept.
pub proof fn lemma_dump_served(
    parts: Seq<Seq<store::ItemV>>,
    list: Seq<dump::DumpEntryV>,
    now: u64,
    k: int,
    later: u64,
)
    requires
        parts.len() > 0,
        dump::times_fit(list, now),
        forall|i: int, j: int|
            0 <= i < j < list.len() ==> line_key(#[trigger] list[i]) != line_key(
                #[trigger] list[j],
            ),
        0 <= k < list.len(),
        list[k].remaining_ttl_secs > 0,
        hex::is_hex(list[k].response_hex),
    ensures
        ({
            let after = dump::imported(parts, 0, list, now);
            let key = line_key(list[k]);
            let entry = store::entry_of(after[response::shard_of(key, parts.len())], key);
            let bytes = hex::hex_bytes(list[k].response_hex);
            &&& bytes is Some
            &&& response::hit(entry, true, later) == bytes
            &&& response::hit(entry, false, now) == bytes
        }),
{
    hex::lemma_hex_bytes(list[k].response_hex);
    lemma_dump_entry(parts, list, now, k);
}

/// Whether two lines have the same name, type, time left and digits.
pub open spec fn same_line(a: dump::DumpEntryV, b: dump::DumpEntryV) -> bool {
    a.qname == b.qname && a.qtype == b.qtype && a.remaining_ttl_secs == b.remaining_ttl_secs
        && a.response_hex == b.response_hex
}

/// What else the lines of a list say, such as a response code or a visualization, plays no part
/// when the list is taken over.
pub proof fn lemma_other_fields(
    parts: Seq<Seq<store::ItemV>>,
    capacity: nat,
    a: Seq<dump::DumpEntryV>,
    b: Seq<dump::DumpEntryV>,
    now: u64,
)
    requires
        a.len() == b.len(),
        forall|i: int| 0 <= i < a.len() ==> same_line(#[trigger] a[i], b[i]),
    ensures
        dump::imported(parts, capacity, a, now) == dump::imported(parts, capacity, b, now),
        dump::importable_count(a) == dump::importable_count(b),
    decreases a.len(),
{
    if a.len() > 0 {
        let x = a.drop_last();
        let y = b.drop_last();
        assert forall|i: int| 0 <= i < x.len() implies same_line(#[trigger] x[i], y[i]) by {
            assert(x[i] == a[i] && y[i] == b[i]);
        }
        lemma_other_fields(parts, capacity, x, y, now);
        assert(same_line(a[a.len() - 1], b[a.len() - 1]));
    }
}

} // verus!
