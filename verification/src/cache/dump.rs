//! The cache as a list that can be stored and read back.
use crate::cache::hex;
use crate::cache::hex::{decode_hex, encode_hex};
use crate::cache::response;
use crate::cache::response::ResponseCache;
use crate::cache::store;
use crate::cache::store::{CacheItem, CacheKey};
use crate::codec::answer;
use crate::codec::query;
use crate::codec::wire;
use crate::config::types;
use crate::text;
use vstd::prelude::*;

verus! {

/// All entries of a cache at one time.
#[derive(Debug, Clone)]
pub struct CacheDump {
    pub exported_at_unix_secs: u64,
    pub entries: Vec<CacheDumpEntry>,
}

#[derive(Debug, Clone)]
pub struct CacheDumpEntry {
    pub qname: String,
    pub qtype: u16,
    pub rcode: u16,
    pub remaining_ttl_secs: u64,
    pub original_ttl_secs: u64,
    pub frozen: bool,
    pub response_hex: String,
    pub response_visualization: Option<CacheResponseVisualization>,
}

/// What a response says, for a reader.
#[derive(Debug, Clone)]
pub struct CacheResponseVisualization {
    pub id: u16,
    pub qname: Option<String>,
    pub qtype: Option<u16>,
    pub rcode: u16,
    pub ancount: u16,
    pub nscount: u16,
    pub arcount: u16,
    pub answer_ips: Vec<String>,
    pub cname_chain: Vec<CacheCnameRecord>,
}

#[derive(Debug, Clone)]
pub struct CacheCnameRecord {
    pub owner: String,
    pub target: String,
    pub ttl: u32,
}

/// How many entries of a list were taken over.
#[derive(Debug, Clone, Copy)]
pub struct CacheImportResult {
    pub imported: usize,
    pub skipped: usize,
}

pub ghost struct VisualizationV {
    pub id: u16,
    pub qname: Option<Seq<char>>,
    pub qtype: Option<u16>,
    pub rcode: u16,
    pub ancount: u16,
    pub nscount: u16,
    pub arcount: u16,
    pub answer_ips: Seq<Seq<char>>,
    pub cname_chain: Seq<(Seq<char>, Seq<char>, u32)>,
}

pub open spec fn chain_view(list: Seq<CacheCnameRecord>) -> Seq<(Seq<char>, Seq<char>, u32)> {
    list.map_values(|r: CacheCnameRecord| (r.owner@, r.target@, r.ttl))
}

pub open spec fn visualization_view(v: Option<CacheResponseVisualization>) -> Option<
    VisualizationV,
> {
    match v {
        None => None,
        Some(x) => Some(
            VisualizationV {
                id: x.id,
                qname: types::optional_view(x.qname),
                qtype: x.qtype,
                rcode: x.rcode,
                ancount: x.ancount,
                nscount: x.nscount,
                arcount: x.arcount,
                answer_ips: text::views(x.answer_ips@),
                cname_chain: chain_view(x.cname_chain@),
            },
        ),
    }
}

/// What a response says, where it is long enough to say anything.
pub open spec fn visualization(p: Seq<u8>) -> Option<VisualizationV> {
    if p.len() < 12 {
        None
    } else {
        let h = wire::header(p);
        let question = query::first_question(p);
        Some(
            VisualizationV {
                id: h.id,
                qname: match question {
                    Some((n, _, _)) => Some(n),
                    None => None,
                },
                qtype: match question {
                    Some((_, t, _)) => Some(t),
                    None => None,
                },
                rcode: query::rcode_of(p),
                ancount: h.ancount,
                nscount: h.nscount,
                arcount: h.arcount,
                answer_ips: answer::answer_endpoints(p, 53),
                cname_chain: answer::cname_answers(p),
            },
        )
    }
}

/// What a response says, for a reader.
pub fn build_response_visualization(packet: &[u8]) -> (r: Option<CacheResponseVisualization>)
    ensures
        visualization_view(r) == visualization(packet@),
{
    let h = match wire::parse_header(packet) {
        Some(h) => h,
        None => return None,
    };
    let (qname, qtype) = match query::parse_first_question(packet) {
        Some((n, t, _)) => (Some(n), Some(t)),
        None => (None, None),
    };
    let chain = answer::extract_answer_cname_records(packet);
    let mut cname_chain: Vec<CacheCnameRecord> = Vec::new();
    let mut i: usize = 0;
    while i < chain.len()
        invariant
            i <= chain@.len(),
            cname_chain@.len() == i,
            forall|k: int|
                0 <= k < i ==> (#[trigger] cname_chain@[k]).owner@ == chain@[k].0@
                    && cname_chain@[k].target@ == chain@[k].1@ && cname_chain@[k].ttl
                    == chain@[k].2,
        decreases chain@.len() - i,
    {
        cname_chain.push(
            CacheCnameRecord {
                owner: chain[i].0.clone(),
                target: chain[i].1.clone(),
                ttl: chain[i].2,
            },
        );
        i = i + 1;
    }
    assert(chain_view(cname_chain@) =~= answer::cname_views(chain@));
    let rcode: u16 = match query::response_code(packet) {
        Some(c) => c,
        None => 0,
    };
    Some(
        CacheResponseVisualization {
            id: h.id,
            qname,
            qtype,
            rcode,
            ancount: h.ancount,
            nscount: h.nscount,
            arcount: h.arcount,
            answer_ips: answer::extract_answer_ip_endpoints(packet),
            cname_chain,
        },
    )
}

pub ghost struct DumpEntryV {
    pub qname: Seq<char>,
    pub qtype: u16,
    pub rcode: u16,
    pub remaining_ttl_secs: u64,
    pub original_ttl_secs: u64,
    pub frozen: bool,
    pub response_hex: Seq<char>,
    pub visualization: Option<VisualizationV>,
}

impl View for CacheDumpEntry {
    type V = DumpEntryV;

    open spec fn view(&self) -> DumpEntryV {
        DumpEntryV {
            qname: self.qname@,
            qtype: self.qtype,
            rcode: self.rcode,
            remaining_ttl_secs: self.remaining_ttl_secs,
            original_ttl_secs: self.original_ttl_secs,
            frozen: self.frozen,
            response_hex: self.response_hex@,
            visualization: visualization_view(self.response_visualization),
        }
    }
}

pub open spec fn dump_views(list: Seq<CacheDumpEntry>) -> Seq<DumpEntryV> {
    list.map_values(|e: CacheDumpEntry| e@)
}

/// The line of an item in a list: nothing where it is no longer valid and may not be kept.
pub open spec fn dump_entry(item: store::ItemV, frozen: bool, now: u64) -> Option<DumpEntryV> {
    let e = item.entry;
    if !frozen && now >= e.expires_at {
        None
    } else {
        Some(
            DumpEntryV {
                qname: item.key.qname,
                qtype: item.key.qtype,
                rcode: e.rcode,
                remaining_ttl_secs: if frozen {
                    e.original_ttl_secs
                } else {
                    ((e.expires_at - now) / 1000) as u64
                },
                original_ttl_secs: e.original_ttl_secs,
                frozen,
                response_hex: hex::hex_text(e.response),
                visualization: visualization(e.response),
            },
        )
    }
}

/// The lines of a part, where `flags` says of each item whether it may be kept.
pub open spec fn dumped_items(items: Seq<store::ItemV>, flags: Seq<bool>, now: u64) -> Seq<
    DumpEntryV,
>
    decreases items.len(),
{
    if items.len() == 0 {
        Seq::empty()
    } else {
        let before = dumped_items(items.drop_last(), flags.drop_last(), now);
        match dump_entry(items.last(), flags.last(), now) {
            Some(e) => before.push(e),
            None => before,
        }
    }
}

/// The lines of the first `k` parts.
pub open spec fn dumped_parts(
    parts: Seq<Seq<store::ItemV>>,
    flags: Seq<Seq<bool>>,
    k: int,
    now: u64,
) -> Seq<DumpEntryV>
    decreases k,
{
    if k <= 0 {
        Seq::empty()
    } else {
        dumped_parts(parts, flags, k - 1, now) + dumped_items(parts[k - 1], flags[k - 1], now)
    }
}

/// Whether a predicate may answer a name so.
pub open spec fn may_say<F: Fn(&str) -> bool>(f: F, name: Seq<char>, answer: bool) -> bool {
    exists|s: &str| s@ == name && #[trigger] call_ensures(f, (s,), answer)
}

/// Whether a predicate may answer the names of a part so, one after the other.
pub open spec fn may_say_all<F: Fn(&str) -> bool>(
    f: F,
    items: Seq<store::ItemV>,
    flags: Seq<bool>,
) -> bool {
    flags.len() == items.len() && forall|i: int|
        0 <= i < items.len() ==> may_say(f, (#[trigger] items[i]).key.qname, flags[i])
}

/// Whether a predicate answers every name as a function of the name says.
pub open spec fn decides<F: Fn(&str) -> bool>(f: F, g: spec_fn(Seq<char>) -> bool) -> bool {
    forall|s: &str, answer: bool| #[trigger] call_ensures(f, (s,), answer) ==> answer == g(s@)
}

/// What a function of names says of the items of all parts.
pub open spec fn flags_by(
    parts: Seq<Seq<store::ItemV>>,
    g: spec_fn(Seq<char>) -> bool,
) -> Seq<Seq<bool>> {
    parts.map_values(
        |items: Seq<store::ItemV>| items.map_values(|i: store::ItemV| g(i.key.qname)),
    )
}

/// Whether the lines of all parts are those that a predicate leaves.
pub open spec fn is_dump<F: Fn(&str) -> bool>(
    parts: Seq<Seq<store::ItemV>>,
    f: F,
    now: u64,
    lines: Seq<DumpEntryV>,
) -> bool {
    exists|flags: Seq<Seq<bool>>|
        {
            &&& flags.len() == parts.len()
            &&& forall|i: int|
                0 <= i < parts.len() ==> may_say_all(f, #[trigger] parts[i], flags[i])
            &&& lines == #[trigger] dumped_parts(parts, flags, parts.len() as int, now)
        }
}

/// The lines that a predicate leaves which is a function of the name.
pub proof fn lemma_decided_dump<F: Fn(&str) -> bool>(
    parts: Seq<Seq<store::ItemV>>,
    f: F,
    now: u64,
    lines: Seq<DumpEntryV>,
    g: spec_fn(Seq<char>) -> bool,
)
    requires
        is_dump(parts, f, now, lines),
        decides(f, g),
    ensures
        lines == dumped_parts(parts, flags_by(parts, g), parts.len() as int, now),
{
    let flags = choose|flags: Seq<Seq<bool>>|
        {
            &&& flags.len() == parts.len()
            &&& forall|i: int|
                0 <= i < parts.len() ==> may_say_all(f, #[trigger] parts[i], flags[i])
            &&& lines == #[trigger] dumped_parts(parts, flags, parts.len() as int, now)
        };
    let by = flags_by(parts, g);
    assert forall|i: int| 0 <= i < parts.len() implies #[trigger] flags[i] == by[i] by {
        let items = parts[i];
        assert(may_say_all(f, parts[i], flags[i]));
        assert forall|k: int| 0 <= k < items.len() implies #[trigger] flags[i][k] == by[i][k] by {
            assert(may_say(f, items[k].key.qname, flags[i][k]));
        }
        assert(flags[i] =~= by[i]);
    }
    assert(flags =~= by);
}

fn dump_item(item: &CacheItem, frozen: bool, now: u64) -> (r: Option<CacheDumpEntry>)
    ensures
        dump_entry(item@, frozen, now) == (match r {
            Some(e) => Some(e@),
            None => None,
        }),
{
    if !frozen && now >= item.entry.expires_at {
        return None;
    }
    Some(
        CacheDumpEntry {
            qname: item.key.qname.clone(),
            qtype: item.key.qtype,
            rcode: item.entry.rcode,
            remaining_ttl_secs: if frozen {
                item.entry.original_ttl_secs
            } else {
                (item.entry.expires_at - now) / 1000
            },
            original_ttl_secs: item.entry.original_ttl_secs,
            frozen,
            response_hex: encode_hex(item.entry.response.as_slice()),
            response_visualization: build_response_visualization(item.entry.response.as_slice()),
        },
    )
}

fn dump_items<F: Fn(&str) -> bool>(
    out: &mut Vec<CacheDumpEntry>,
    items: &Vec<CacheItem>,
    is_frozen_domain: &F,
    now: u64,
) -> (flags: Ghost<Seq<bool>>)
    requires
        forall|s: &str| call_requires(*is_frozen_domain, (s,)),
    ensures
        may_say_all(*is_frozen_domain, store::item_views(items@), flags@),
        dump_views(final(out)@) == dump_views(old(out)@) + dumped_items(
            store::item_views(items@),
            flags@,
            now,
        ),
{
    let ghost start = dump_views(out@);
    let ghost list = store::item_views(items@);
    let ghost mut flags: Seq<bool> = Seq::empty();
    let mut i: usize = 0;
    assert(start =~= start + dumped_items(list.take(0), flags, now));
    while i < items.len()
        invariant
            i <= items@.len(),
            list == store::item_views(items@),
            forall|s: &str| call_requires(*is_frozen_domain, (s,)),
            flags.len() == i,
            forall|k: int|
                0 <= k < i ==> may_say(
                    *is_frozen_domain,
                    (#[trigger] list[k]).key.qname,
                    flags[k],
                ),
            dump_views(out@) == start + dumped_items(list.take(i as int), flags, now),
        decreases items@.len() - i,
    {
        let ghost before = dump_views(out@);
        let ghost said = flags;
        let name = items[i].key.qname.as_str();
        let kept = is_frozen_domain(name);
        proof {
            assert(list[i as int] == items@[i as int]@);
            assert(call_ensures(*is_frozen_domain, (name,), kept));
            assert(may_say(*is_frozen_domain, list[i as int].key.qname, kept));
            flags = said.push(kept);
            assert(list.take(i + 1).drop_last() =~= list.take(i as int));
            assert(flags.drop_last() =~= said);
        }
        if let Some(e) = dump_item(&items[i], kept, now) {
            out.push(e);
            assert(dump_views(out@) =~= before.push(e@));
            assert(before.push(e@) =~= start + dumped_items(list.take(i as int), said, now).push(
                e@,
            ));
        }
        i = i + 1;
    }
    assert(list.take(i as int) =~= list);
    Ghost(flags)
}

/// Whether a line of a list is taken over: it has time left and its response can be read.
pub open spec fn is_importable(e: DumpEntryV) -> bool {
    e.remaining_ttl_secs > 0 && hex::hex_bytes(e.response_hex) is Some
}

pub open spec fn importable_count(list: Seq<DumpEntryV>) -> nat
    decreases list.len(),
{
    if list.len() == 0 {
        0
    } else {
        importable_count(list.drop_last()) + if is_importable(list.last()) {
            1nat
        } else {
            0nat
        }
    }
}

/// The parts after a line is taken over.
pub open spec fn imported_one(
    parts: Seq<Seq<store::ItemV>>,
    capacity: nat,
    e: DumpEntryV,
    now: u64,
) -> Seq<Seq<store::ItemV>> {
    if is_importable(e) {
        let key = store::KeyV { qname: e.qname, qtype: e.qtype, dnssec_ok: false };
        let i = response::shard_of(key, parts.len());
        parts.update(
            i,
            store::with_item(
                store::with_room(
                    parts[i],
                    now,
                    response::shard_capacity(capacity, i, parts.len()),
                ),
                key,
                response::new_entry(
                    hex::hex_bytes(e.response_hex)->0,
                    (e.remaining_ttl_secs * 1000) as u64,
                    now,
                ),
            ),
        )
    } else {
        parts
    }
}

/// The parts after all lines of a list are taken over, one after the other.
pub open spec fn imported(
    parts: Seq<Seq<store::ItemV>>,
    capacity: nat,
    list: Seq<DumpEntryV>,
    now: u64,
) -> Seq<Seq<store::ItemV>>
    decreases list.len(),
{
    if list.len() == 0 {
        parts
    } else {
        imported_one(
            imported(parts, capacity, list.drop_last(), now),
            capacity,
            list.last(),
            now,
        )
    }
}

/// Whether the times of all lines can be added to the present.
pub open spec fn times_fit(list: Seq<DumpEntryV>, now: u64) -> bool {
    forall|i: int|
        0 <= i < list.len() ==> now + (#[trigger] list[i]).remaining_ttl_secs * 1000 <= u64::MAX
}

proof fn lemma_flags_prefix(
    parts: Seq<Seq<store::ItemV>>,
    flags: Seq<Seq<bool>>,
    more: Seq<bool>,
    k: int,
    now: u64,
)
    requires
        0 <= k <= flags.len(),
    ensures
        dumped_parts(parts, flags.push(more), k, now) == dumped_parts(parts, flags, k, now),
    decreases k,
{
    if k > 0 {
        lemma_flags_prefix(parts, flags, more, k - 1, now);
    }
}

impl ResponseCache {
    /// All entries that are valid now or whose names a predicate lets be kept.
    pub fn export_dump<F: Fn(&str) -> bool>(
        &self,
        is_frozen_domain: F,
        now: u64,
        exported_at_unix_secs: u64,
    ) -> (r: CacheDump)
        requires
            forall|s: &str| call_requires(is_frozen_domain, (s,)),
        ensures
            r.exported_at_unix_secs == exported_at_unix_secs,
            is_dump(self.parts(), is_frozen_domain, now, dump_views(r.entries@)),
            forall|g: spec_fn(Seq<char>) -> bool|
                decides(is_frozen_domain, g) ==> dump_views(r.entries@) == dumped_parts(
                    self.parts(),
                    #[trigger] flags_by(self.parts(), g),
                    self.shards@.len() as int,
                    now,
                ),
    {
        let mut entries: Vec<CacheDumpEntry> = Vec::new();
        let ghost parts = self.parts();
        let ghost mut flags: Seq<Seq<bool>> = Seq::empty();
        let mut i: usize = 0;
        assert(dump_views(entries@) =~= Seq::empty());
        while i < self.shards.len()
            invariant
                i <= self.shards@.len(),
                parts == self.parts(),
                forall|s: &str| call_requires(is_frozen_domain, (s,)),
                flags.len() == i,
                forall|k: int|
                    0 <= k < i ==> may_say_all(is_frozen_domain, #[trigger] parts[k], flags[k]),
                dump_views(entries@) == dumped_parts(parts, flags, i as int, now),
            decreases self.shards@.len() - i,
        {
            let ghost said = flags;
            assert(parts[i as int] == store::item_views(self.shards@[i as int]@));
            let Ghost(more) = dump_items(&mut entries, &self.shards[i], &is_frozen_domain, now);
            proof {
                flags = said.push(more);
                lemma_flags_prefix(parts, said, more, i as int, now);
            }
            i = i + 1;
        }
        proof {
            assert(parts.len() == self.shards@.len());
            let lines = dump_views(entries@);
            assert(is_dump(parts, is_frozen_domain, now, lines));
            assert forall|g: spec_fn(Seq<char>) -> bool|
                decides(is_frozen_domain, g) implies lines == dumped_parts(
                parts,
                #[trigger] flags_by(parts, g),
                parts.len() as int,
                now,
            ) by {
                lemma_decided_dump(parts, is_frozen_domain, now, lines, g);
            }
        }
        CacheDump { exported_at_unix_secs, entries }
    }

    /// Takes over the lines of a list.
    pub fn import_dump(&mut self, dump: &CacheDump, now: u64) -> (r: CacheImportResult)
        requires
            old(self).wf(),
            times_fit(dump_views(dump.entries@), now),
        ensures
            final(self).wf(),
            final(self).capacity == old(self).capacity,
            final(self).freeze == old(self).freeze,
            final(self).parts() == imported(
                old(self).parts(),
                old(self).capacity as nat,
                dump_views(dump.entries@),
                now,
            ),
            r.imported == importable_count(dump_views(dump.entries@)),
            r.imported + r.skipped == dump.entries@.len(),
    {
        let ghost start = self.parts();
        let ghost list = dump_views(dump.entries@);
        let mut imported_entries: usize = 0;
        let mut skipped: usize = 0;
        let mut i: usize = 0;
        assert(list.take(0) =~= Seq::empty());
        while i < dump.entries.len()
            invariant
                i <= dump.entries@.len(),
                list == dump_views(dump.entries@),
                times_fit(list, now),
                self.wf(),
                self.capacity == old(self).capacity,
                self.freeze == old(self).freeze,
                self.parts() == imported(
                    start,
                    self.capacity as nat,
                    list.take(i as int),
                    now,
                ),
                imported_entries == importable_count(list.take(i as int)),
                imported_entries + skipped == i,
            decreases dump.entries@.len() - i,
        {
            let e: &CacheDumpEntry = &dump.entries[i];
            let ghost before = self.parts();
            proof {
                assert(list.take(i + 1).drop_last() =~= list.take(i as int));
                assert(list.take(i + 1).last() == e@);
                assert(list[i as int] == e@);
            }
            let decoded = decode_hex(e.response_hex.as_str());
            if e.remaining_ttl_secs == 0 || decoded.is_none() {
                skipped = skipped + 1;
            } else if let Some(packet) = decoded {
                let key = CacheKey { qname: e.qname.clone(), qtype: e.qtype, dnssec_ok: false };
                let ghost key_v = key@;
                assert(key_v == (store::KeyV {
                    qname: e.qname@,
                    qtype: e.qtype,
                    dnssec_ok: false,
                }));
                self.insert(key, packet, e.remaining_ttl_secs * 1000, now);
                imported_entries = imported_entries + 1;
            }
            i = i + 1;
        }
        assert(list.take(i as int) =~= list);
        CacheImportResult { imported: imported_entries, skipped }
    }
}

/// The line of an entry that is still valid can be taken over again.
pub proof fn lemma_dump_is_importable(item: store::ItemV, now: u64)
    requires
        now + 1000 <= item.entry.expires_at,
    ensures
        dump_entry(item, false, now) is Some,
        is_importable(dump_entry(item, false, now)->0),
        hex::hex_bytes(dump_entry(item, false, now)->0.response_hex) == Some(
            item.entry.response,
        ),
{
    hex::lemma_hex_round_trip(item.entry.response);
    assert((item.entry.expires_at - now) / 1000 >= 1);
}

} // verus!
