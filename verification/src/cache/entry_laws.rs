//! What holds of the entries of the cache over time: how long they are served, what is dropped to
//! make room, and what a list of them says.
use crate::cache::dump;
use crate::cache::hex;
use crate::cache::response;
use crate::cache::store;
use crate::codec::edns;
use crate::codec::invariants;
use crate::codec::ttl;
use crate::codec::wire;
use crate::text;
use crate::codec::answer;
use crate::codec::query;
use vstd::prelude::*;

verus! {

/// A response is served with its times to live lowered by the whole seconds that have passed.
pub proof fn lemma_served_by_whole_seconds(p: Seq<u8>, elapsed: u64)
    ensures
        response::served(p, elapsed) == ttl::decayed(
            p,
            if elapsed / 1000 <= u32::MAX {
                (elapsed / 1000) as u32
            } else {
                u32::MAX
            },
        ),
{
    invariants::lemma_decayed(p, 0);
}

/// An entry is valid until its time has passed: it is served now exactly where some time is left,
/// it is served a moment before that time has passed, and no longer when it has.
pub proof fn lemma_time_left(e: Option<store::EntryV>, now: u64)
    ensures
        response::time_left(e, false, now) is Some <==> response::hit(e, false, now) is Some,
        response::time_left(e, false, now) matches Some(t) ==> t > 0 && (now + t <= u64::MAX
            ==> response::hit(e, false, (now + t) as u64) is None && response::hit(
            e,
            false,
            (now + t - 1) as u64,
        ) is Some),
        response::time_left(e, true, now) is Some <==> e is Some,
        response::hit(e, true, now) is Some <==> e is Some,
        e matches Some(x) ==> response::hit(e, true, now) == Some(x.response) && (
        1 <= x.original_ttl_secs <= u64::MAX / 1000 ==> response::time_left(e, true, now) == Some(
            (x.original_ttl_secs * 1000) as u64,
        )) && (x.original_ttl_secs == 0 ==> response::time_left(e, true, now) == Some(1000u64)),
{
}

/// What is kept of a response that is cached: its bytes, the time and the span it is cached for,
/// in whole seconds rounded down, and its response code: four bits of the header and the upper ones
/// of the OPT record, or that of a failed server where it is too short to have one.
pub proof fn lemma_new_entry(p: Seq<u8>, span: u64, now: u64)
    requires
        now + span <= u64::MAX,
    ensures
        ({
            let e = response::new_entry(p, span, now);
            &&& e.response == p
            &&& e.inserted_at == now
            &&& e.last_access == now
            &&& e.expires_at == now + span
            &&& e.original_ttl_secs * 1000 <= span < e.original_ttl_secs * 1000 + 1000
            &&& p.len() < 12 ==> e.rcode == 2
            &&& p.len() >= 12 ==> e.rcode % 16 == p[3] % 16
            &&& p.len() >= 12 ==> e.rcode / 16 == match edns::edns(p) {
                Some(o) => o.extended_rcode as int,
                None => 0,
            }
        }),
{
    if p.len() >= 12 {
        assert(wire::header(p).flags == p[2] * 256 + p[3]);
        assert(wire::header(p).flags % 16 == p[3] % 16);
    }
}

proof fn lemma_removed(items: Seq<store::ItemV>, key: store::KeyV, other: store::KeyV)
    requires
        store::distinct(items),
    ensures
        store::entry_of(store::without_item(items, key), key) is None,
        other != key ==> store::entry_of(store::without_item(items, key), other)
            == store::entry_of(items, other),
{
    let i = store::position(items, key);
    store::lemma_position_bounds(items, key);
    if i < items.len() {
        let left = items.remove(i);
        assert forall|k: int| 0 <= k < left.len() implies (#[trigger] left[k]).key != key by {
            if k < i {
                assert(left[k] == items[k]);
            } else {
                assert(left[k] == items[k + 1]);
                assert(items[i].key == key);
            }
        }
        store::lemma_position(left, key, left.len() as int);
        if other != key {
            store::lemma_position_bounds(items, other);
            let j = store::position(items, other);
            assert(j != i || j == items.len());
            let at = if j < i {
                j
            } else if j < items.len() {
                j - 1
            } else {
                left.len() as int
            };
            assert forall|k: int| 0 <= k < at implies (#[trigger] left[k]).key != other by {
                if k < i {
                    assert(left[k] == items[k]);
                } else {
                    assert(left[k] == items[k + 1]);
                }
            }
            store::lemma_position(left, other, at);
        }
    }
}

/// A request for a key drops its entry where it is no longer valid; otherwise the entry stays as it
/// was, but for the time of the last request. No other key is touched.
pub proof fn lemma_request(
    items: Seq<store::ItemV>,
    key: store::KeyV,
    other: store::KeyV,
    freeze: bool,
    now: u64,
)
    requires
        store::distinct(items),
    ensures
        ({
            let after = response::after_get(items, key, freeze, now);
            &&& other != key ==> store::entry_of(after, other) == store::entry_of(items, other)
            &&& response::hit(store::entry_of(items, key), freeze, now) is None
                ==> store::entry_of(after, key) is None
            &&& response::hit(store::entry_of(items, key), freeze, now) is Some ==> {
                let e = store::entry_of(items, key)->0;
                &&& store::entry_of(after, key) matches Some(f)
                &&& f.response == e.response
                &&& f.inserted_at == e.inserted_at
                &&& f.expires_at == e.expires_at
                &&& f.original_ttl_secs == e.original_ttl_secs
                &&& f.rcode == e.rcode
                &&& f.last_access == now
            }
        }),
{
    lemma_removed(items, key, other);
    if let Some(e) = store::entry_of(items, key) {
        store::lemma_with_item(
            items,
            key,
            store::EntryV { last_access: now, ..e },
            other,
        );
    }
}

/// Dropping items leaves exactly as many as asked for, where there were more.
pub proof fn lemma_no_more_is_dropped(items: Seq<store::ItemV>, most: int)
    requires
        most >= 0,
    ensures
        store::trimmed(items, most).len() == (if items.len() <= most {
            items.len() as int
        } else {
            most
        }),
        items.len() <= most ==> store::trimmed(items, most) == items,
    decreases items.len(),
{
    if items.len() > most && items.len() > 0 {
        let n = store::sample(items.len() as int);
        store::lemma_stalest(items, n);
        lemma_no_more_is_dropped(items.remove(store::stalest(items, n)), most);
    }
}

/// Where one item is too many, one of the first five is dropped, and none of those was asked for
/// longer ago; the others stay in their order.
pub proof fn lemma_stalest_of_five_is_dropped(items: Seq<store::ItemV>)
    requires
        items.len() > 0,
    ensures
        exists|i: int|
            0 <= i < items.len() && i < 5 && store::trimmed(items, items.len() - 1)
                == #[trigger] items.remove(i) && forall|k: int|
                0 <= k < items.len() && k < 5 ==> items[i].entry.last_access <= (
                #[trigger] items[k]).entry.last_access,
{
    let n = store::sample(items.len() as int);
    store::lemma_stalest(items, n);
    let i = store::stalest(items, n);
    let left = items.remove(i);
    assert(store::trimmed(left, items.len() - 1) == left);
    assert(store::trimmed(items, items.len() - 1) == left);
}

proof fn lemma_valid(items: Seq<store::ItemV>, now: u64)
    ensures
        forall|x: store::ItemV| #[trigger]
            store::valid_items(items, now).contains(x) <==> items.contains(x) && now
                < x.entry.expires_at,
{
    let f = |i: store::ItemV| now < i.entry.expires_at;
    let v = store::valid_items(items, now);
    items.filter_lemma(f);
    store::lemma_valid_items(items, now);
    assert forall|x: store::ItemV| #[trigger] v.contains(x) implies items.contains(x) && now
        < x.entry.expires_at by {
        let k = choose|k: int| 0 <= k < v.len() && v[k] == x;
        assert(f(v[k]));
    }
    assert forall|x: store::ItemV| items.contains(x) && now < x.entry.expires_at implies
        #[trigger] v.contains(x) by {
        let k = choose|k: int| 0 <= k < items.len() && items[k] == x;
        assert(f(items[k]));
    }
}

/// Room is made only where it is needed: below the capacity nothing is dropped, and at it no valid
/// item is dropped as long as those that are no longer valid leave room; what is left is valid
/// then.
pub proof fn lemma_room(items: Seq<store::ItemV>, now: u64, c: nat, x: store::ItemV)
    requires
        c > 0,
    ensures
        items.len() < c ==> store::with_room(items, now, Some(c)) == items,
        items.len() >= c && store::valid_items(items, now).len() < c ==> (store::with_room(
            items,
            now,
            Some(c),
        ).contains(x) <==> items.contains(x) && now < x.entry.expires_at),
        items.len() >= c && store::with_room(items, now, Some(c)).contains(x) ==> now
            < x.entry.expires_at,
        items.len() >= c && store::valid_items(items, now).len() >= c ==> store::with_room(
            items,
            now,
            Some(c),
        ).len() == c - 1,
{
    let v = store::valid_items(items, now);
    lemma_valid(items, now);
    lemma_no_more_is_dropped(v, c - 1);
    store::lemma_trimmed(v, c - 1);
}

/// The parts of a cache are twice as many as threads run at once, but eight at least and 64 at
/// most; sixteen where that number is not known, and never more than the capacity, where there is
/// one.
pub proof fn lemma_part_count(capacity: nat, threads: nat)
    ensures
        capacity == 0 && 4 <= threads <= 32 ==> response::shard_count(capacity, Some(threads)) == 2
            * threads,
        capacity == 0 && threads <= 4 ==> response::shard_count(capacity, Some(threads)) == 8,
        capacity == 0 && threads >= 32 ==> response::shard_count(capacity, Some(threads)) == 64,
        capacity == 0 ==> response::shard_count(capacity, None) == 16,
        capacity > 0 ==> response::shard_count(capacity, Some(threads)) <= capacity,
        capacity > 0 ==> response::shard_count(capacity, None) <= capacity,
        capacity >= 64 ==> response::shard_count(capacity, Some(threads)) == response::shard_count(
            0,
            Some(threads),
        ),
        capacity >= 1 ==> response::shard_count(capacity, Some(threads)) >= 1,
{
}

/// A domain that is frozen keeps its times, one that is thawed does not, and no other domain
/// changes.
pub proof fn lemma_freezing(domains: Seq<Seq<char>>, name: Seq<char>, other: Seq<char>)
    requires
        text::increasing(domains),
        name.len() > 0,
    ensures
        response::frozen_domains(domains, name, true).contains(name),
        !response::frozen_domains(domains, name, false).contains(name),
        other != name ==> (response::frozen_domains(domains, name, true).contains(other)
            <==> domains.contains(other)),
        other != name ==> (response::frozen_domains(domains, name, false).contains(other)
            <==> domains.contains(other)),
{
    text::lemma_insert_text(domains, name);
    response::lemma_increasing_without(domains, name);
}

/// A name keeps its times where all names do, or where it is one of the frozen domains or some
/// text, a dot and one of them, whatever its case, the blanks around it and the dots at its end.
pub proof fn lemma_frozen(all: bool, domains: Seq<Seq<char>>, qname: Seq<char>)
    requires
        text::plain_name(qname).len() > 0,
    ensures
        store::is_frozen(all, domains, qname) <==> all || exists|i: int|
            0 <= i < domains.len() && (text::plain_name(qname) == #[trigger] domains[i] || exists|
                head: Seq<char>,
            | #[trigger] head.push('.') + domains[i] == text::plain_name(qname)),
{
    let n = text::plain_name(qname);
    assert forall|i: int| 0 <= i < domains.len() implies (text::is_under(n, #[trigger] domains[i])
        <==> n == domains[i] || exists|head: Seq<char>| #[trigger] head.push('.') + domains[i]
        == n) by {
        crate::text_laws::lemma_under(n, domains[i]);
    }
}

/// A line says how many whole seconds are left, or how many there were where the times are kept;
/// there is no line for an entry that is no longer valid and does not keep its times.
pub proof fn lemma_line(item: store::ItemV, frozen: bool, now: u64)
    ensures
        ({
            let e = item.entry;
            match dump::dump_entry(item, frozen, now) {
                Some(d) => {
                    &&& frozen || now < e.expires_at
                    &&& d.qname == item.key.qname
                    &&& d.qtype == item.key.qtype
                    &&& d.rcode == e.rcode
                    &&& d.original_ttl_secs == e.original_ttl_secs
                    &&& d.frozen == frozen
                    &&& hex::hex_bytes(d.response_hex) == Some(e.response)
                    &&& frozen ==> d.remaining_ttl_secs == e.original_ttl_secs
                    &&& !frozen ==> now + d.remaining_ttl_secs * 1000 <= e.expires_at < now
                        + d.remaining_ttl_secs * 1000 + 1000
                },
                None => !frozen && e.expires_at <= now,
            }
        }),
{
    hex::lemma_hex_round_trip(item.entry.response);
}

/// Hexadecimal text has two digits for each byte, in small letters.
pub proof fn lemma_small_digits(data: Seq<u8>)
    ensures
        hex::hex_text(data).len() == 2 * data.len(),
        forall|i: int|
            0 <= i < hex::hex_text(data).len() ==> {
                let c = #[trigger] hex::hex_text(data)[i];
                '0' <= c <= '9' || 'a' <= c <= 'f'
            },
    decreases data.len(),
{
    if data.len() > 0 {
        lemma_small_digits(data.skip(1));
        let head = seq![
            hex::hex_digit((data[0] / 16) as u8),
            hex::hex_digit((data[0] % 16) as u8),
        ];
        let all = hex::hex_text(data);
        let rest = hex::hex_text(data.skip(1));
        assert forall|i: int| 0 <= i < all.len() implies {
            let c = #[trigger] all[i];
            '0' <= c <= '9' || 'a' <= c <= 'f'
        } by {
            if i < 2 {
                assert(all[i] == head[i]);
            } else {
                assert(all[i] == rest[i - 2]);
            }
        }
    }
}

/// A list is taken over by as many lines as have time left and readable digits.
pub proof fn lemma_importable_count(list: Seq<dump::DumpEntryV>)
    ensures
        dump::importable_count(list) == list.filter(
            |e: dump::DumpEntryV| e.remaining_ttl_secs > 0 && hex::is_hex(e.response_hex),
        ).len(),
    decreases list.len(),
{
    reveal(Seq::filter);
    if list.len() > 0 {
        lemma_importable_count(list.drop_last());
        hex::lemma_hex_bytes(list.last().response_hex);
    }
}

/// After the cache is made smaller or larger each part holds no more than its share, and what is
/// left was there before and has not run out; with a capacity of zero nothing is dropped.
pub proof fn lemma_resized(
    parts: Seq<Seq<store::ItemV>>,
    capacity: nat,
    now: u64,
    i: int,
    x: store::ItemV,
)
    requires
        0 <= i < parts.len(),
    ensures
        ({
            let new = response::resized_parts(parts, capacity, now);
            let share: int = capacity as int / parts.len() as int + (if i < capacity as int
                % parts.len() as int {
                1int
            } else {
                0int
            });
            &&& new.len() == parts.len()
            &&& capacity == 0 ==> new == parts
            &&& capacity > 0 ==> new[i].len() <= share || new[i].len() == 0
            &&& capacity > 0 && new[i].contains(x) ==> parts[i].contains(x) && now
                < x.entry.expires_at
        }),
{
    if capacity > 0 {
        let valid = store::valid_items(parts[i], now);
        let share = response::shard_capacity(capacity, i, parts.len())->0 as int;
        let count = parts.len() as int;
        let total = capacity as int;
        assert(total / count >= 0) by (nonlinear_arith)
            requires
                total >= 0,
                count > 0,
        ;
        store::lemma_trimmed(valid, share);
        store::lemma_valid_items(parts[i], now);
        let f = |item: store::ItemV| now < item.entry.expires_at;
        parts[i].filter_lemma(f);
        if store::trimmed(valid, share).contains(x) {
            assert(valid.contains(x));
            let k = choose|k: int| 0 <= k < valid.len() && valid[k] == x;
            assert(f(valid[k]));
        }
    }
}

/// What is said of a response: everything that has a header is described, by its identifier, its
/// code, its counts, its first question, and the addresses and aliases of its answers.
pub proof fn lemma_visualization(p: Seq<u8>)
    ensures
        dump::visualization(p) is Some <==> p.len() >= 12,
        p.len() >= 12 ==> {
            let v = dump::visualization(p)->0;
            let h = wire::header(p);
            &&& v.id == h.id
            &&& v.ancount == h.ancount && v.nscount == h.nscount && v.arcount == h.arcount
            &&& v.rcode % 16 == h.flags % 16
            &&& edns::edns(p) is None ==> v.rcode == h.flags % 16
            &&& v.qname is Some <==> query::first_question(p) is Some
            &&& v.qtype is Some <==> query::first_question(p) is Some
            &&& query::first_question(p) is Some ==> v.qname->0 == (query::first_question(p)->0).0
                && v.qtype->0 == (query::first_question(p)->0).1
            &&& v.answer_ips == answer::answer_endpoints(p, 53)
            &&& v.cname_chain == answer::cname_answers(p)
        },
{
}

} // verus!
