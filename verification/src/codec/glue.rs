//! Glue by host name, and glue as a whole.
use crate::codec::referral;
use crate::codec::repeated;
use crate::codec::rr;
use crate::text;
use vstd::prelude::*;

verus! {

/// The endpoints that a map gives for a host; none where it has no entry.
pub open spec fn endpoints_for(map: referral::GlueV, host: Seq<char>) -> Seq<Seq<char>> {
    let k = referral::glue_index(map, host);
    if k < map.len() {
        map[k].1
    } else {
        Seq::empty()
    }
}

/// The endpoint that a record gives for a host.
pub open spec fn glue_for(p: Seq<u8>, r: rr::NamedRr, host: Seq<char>) -> Option<Seq<char>> {
    if text::norm(r.owner) == host {
        referral::glue_of(p, r)
    } else {
        None
    }
}

/// The endpoints of all hosts, one host after the other.
pub open spec fn all_endpoints(map: referral::GlueV) -> Seq<Seq<char>>
    decreases map.len(),
{
    if map.len() == 0 {
        Seq::empty()
    } else {
        all_endpoints(map.drop_last()) + map.last().1
    }
}

/// What an endpoint that is added to a map changes.
proof fn lemma_added(
    map: referral::GlueV,
    host: Seq<char>,
    endpoint: Seq<char>,
    other: Seq<char>,
)
    ensures
        ({
            let new = referral::glue_add(map, host, endpoint);
            &&& endpoints_for(new, host) == endpoints_for(map, host).push(endpoint)
            &&& referral::glue_index(new, host) < new.len()
            &&& other != host ==> endpoints_for(new, other) == endpoints_for(map, other)
            &&& other != host ==> (referral::glue_index(new, other) < new.len()
                <==> referral::glue_index(map, other) < map.len())
        }),
    decreases map.len(),
{
    let new = referral::glue_add(map, host, endpoint);
    referral::lemma_glue_index(map, host);
    if map.len() == 0 {
        assert(new =~= seq![(host, seq![endpoint])]);
        assert(new.drop_first() =~= Seq::empty());
        assert(endpoints_for(new, host) =~= endpoints_for(map, host).push(endpoint));
    } else if map[0].0 == host {
        assert(new[0].0 == host);
        assert(new.drop_first() =~= map.drop_first());
        lemma_shifted(map, other);
        lemma_shifted(new, other);
    } else {
        let rest = map.drop_first();
        lemma_added(rest, host, endpoint, other);
        assert(new[0] == map[0]);
        assert(new.drop_first() =~= referral::glue_add(rest, host, endpoint));
        lemma_shifted(map, host);
        lemma_shifted(new, host);
        lemma_shifted(map, other);
        lemma_shifted(new, other);
    }
}

/// The endpoints for a host that is not the first one.
proof fn lemma_shifted(map: referral::GlueV, host: Seq<char>)
    requires
        map.len() > 0,
    ensures
        map[0].0 != host ==> endpoints_for(map, host) == endpoints_for(map.drop_first(), host),
        map[0].0 != host ==> (referral::glue_index(map, host) < map.len() <==> referral::glue_index(
            map.drop_first(),
            host,
        ) < map.drop_first().len()),
{
    referral::lemma_glue_index(map.drop_first(), host);
}

/// The map gives for each host the endpoints of its address records, in the order of the packet,
/// and has an entry for those hosts alone that have one.
pub proof fn lemma_glue_by_host(p: Seq<u8>, list: Seq<rr::NamedRr>, host: Seq<char>)
    ensures
        ({
            let map = referral::glue_map(p, list);
            &&& endpoints_for(map, host) == list.filter_map(|r: rr::NamedRr| glue_for(p, r, host))
            &&& referral::glue_index(map, host) < map.len() <==> exists|i: int|
                0 <= i < list.len() && glue_for(p, #[trigger] list[i], host) is Some
        }),
    decreases list.len(),
{
    let f = |r: rr::NamedRr| glue_for(p, r, host);
    let map = referral::glue_map(p, list);
    let n = list.len() as int;
    if n == 0 {
        assert(endpoints_for(map, host) =~= list.filter_map(f));
    } else {
        let start = list.drop_last();
        let last = list.last();
        lemma_glue_by_host(p, start, host);
        list.lemma_filter_map_take_succ(f, n - 1);
        assert(list.take(n) =~= list);
        assert(list.take(n - 1) =~= start);
        if let Some(e) = referral::glue_of(p, last) {
            lemma_added(referral::glue_map(p, start), text::norm(last.owner), e, host);
        }
        assert(endpoints_for(map, host) =~= list.filter_map(f));
        if exists|i: int| 0 <= i < start.len() && glue_for(p, #[trigger] start[i], host) is Some {
            let i = choose|i: int|
                0 <= i < start.len() && glue_for(p, #[trigger] start[i], host) is Some;
            assert(list[i] == start[i]);
        }
        if exists|i: int| 0 <= i < n && glue_for(p, #[trigger] list[i], host) is Some {
            let i = choose|i: int| 0 <= i < n && glue_for(p, #[trigger] list[i], host) is Some;
            if i < n - 1 {
                assert(start[i] == list[i]);
            }
        }
        if glue_for(p, last, host) is Some {
            assert(glue_for(p, list[n - 1], host) is Some);
        }
    }
}

/// An endpoint is among those of all hosts where it is one of some host.
proof fn lemma_all_endpoints(map: referral::GlueV, e: Seq<char>)
    ensures
        all_endpoints(map).contains(e) <==> exists|i: int|
            0 <= i < map.len() && (#[trigger] map[i]).1.contains(e),
    decreases map.len(),
{
    let n = map.len() as int;
    if n > 0 {
        let start = map.drop_last();
        let all = all_endpoints(map);
        let before = all_endpoints(start);
        lemma_all_endpoints(start, e);
        if all.contains(e) {
            let j = choose|j: int| 0 <= j < all.len() && all[j] == e;
            if j < before.len() {
                assert(before[j] == e);
                let i = choose|i: int| 0 <= i < start.len() && (#[trigger] start[i]).1.contains(e);
                assert(map[i].1.contains(e));
            } else {
                assert(map[n - 1].1[j - before.len()] == e);
                assert(map[n - 1].1.contains(e));
            }
        }
        if exists|i: int| 0 <= i < map.len() && (#[trigger] map[i]).1.contains(e) {
            let i = choose|i: int| 0 <= i < map.len() && (#[trigger] map[i]).1.contains(e);
            if i < n - 1 {
                assert(start[i].1.contains(e));
                let j = choose|j: int| 0 <= j < before.len() && before[j] == e;
                assert(all[j] == e);
            } else {
                let j = choose|j: int| 0 <= j < map[i].1.len() && map[i].1[j] == e;
                assert(all[before.len() + j] == e);
            }
        }
    }
}

/// The endpoints of all hosts are those that the records of the list give.
proof fn lemma_same_endpoints(p: Seq<u8>, list: Seq<rr::NamedRr>, e: Seq<char>)
    ensures
        all_endpoints(referral::glue_map(p, list)).contains(e) <==> list.filter_map(
            |r: rr::NamedRr| referral::glue_of(p, r),
        ).contains(e),
{
    let map = referral::glue_map(p, list);
    let f = |r: rr::NamedRr| referral::glue_of(p, r);
    lemma_all_endpoints(map, e);
    repeated::lemma_kept(list, f);
    referral::lemma_glue_distinct(p, list);
    if exists|i: int| 0 <= i < map.len() && (#[trigger] map[i]).1.contains(e) {
        let i = choose|i: int| 0 <= i < map.len() && (#[trigger] map[i]).1.contains(e);
        let host = map[i].0;
        let g = |r: rr::NamedRr| glue_for(p, r, host);
        lemma_index_of(map, i);
        lemma_glue_by_host(p, list, host);
        repeated::lemma_kept(list, g);
        assert(list.filter_map(g).contains(e));
        let j = choose|j: int| 0 <= j < list.len() && g(#[trigger] list[j]) == Some(e);
        assert(f(list[j]) == Some(e));
    }
    if list.filter_map(f).contains(e) {
        let j = choose|j: int| 0 <= j < list.len() && f(#[trigger] list[j]) == Some(e);
        let host = text::norm(list[j].owner);
        let g = |r: rr::NamedRr| glue_for(p, r, host);
        lemma_glue_by_host(p, list, host);
        repeated::lemma_kept(list, g);
        assert(g(list[j]) == Some(e));
        let k = referral::glue_index(map, host);
        referral::lemma_glue_index(map, host);
        assert(map[k].1.contains(e));
    }
}

proof fn lemma_index_of(map: referral::GlueV, i: int)
    requires
        referral::glue_distinct(map),
        0 <= i < map.len(),
    ensures
        referral::glue_index(map, map[i].0) == i,
{
    let host = map[i].0;
    let k = referral::glue_index(map, host);
    referral::lemma_glue_index(map, host);
    if k < i {
        assert(map[k].0 != map[i].0);
    } else if i < k {
        assert(map[i].0 != host);
    }
}

/// The endpoints of all hosts, in order and each once, are the glue that a referral gives.
pub proof fn lemma_glue_is_union(p: Seq<u8>)
    requires
        referral::referral(p) is Some,
    ensures
        text::sorted_set(all_endpoints(referral::glue_map(p, rr::scanned(p))))
            == referral::referral(p)->0.glue_nameservers,
{
    let list = rr::scanned(p);
    let all = all_endpoints(referral::glue_map(p, list));
    let glue = list.filter_map(|r: rr::NamedRr| referral::glue_of(p, r));
    text::lemma_sorted_set(all);
    text::lemma_sorted_set(glue);
    assert forall|e: Seq<char>| #[trigger]
        text::sorted_set(all).contains(e) <==> text::sorted_set(glue).contains(e) by {
        lemma_same_endpoints(p, list, e);
    }
    text::lemma_same_order(text::sorted_set(all), text::sorted_set(glue));
}

} // verus!
