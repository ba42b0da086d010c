//! Adding answers a second time.
use crate::codec::answer;
use crate::codec::appended;
use crate::codec::invariants;
use crate::codec::laws;
use crate::codec::name;
use crate::codec::read_back;
use crate::codec::rewrite;
use crate::codec::rr;
use crate::codec::wire;
use crate::text;
use vstd::prelude::*;

verus! {

/// Whether the name at `off` and all it points to lie behind the header and before `a`.
pub open spec fn low_name(p: Seq<u8>, off: int, depth: nat, a: int) -> bool
    decreases 17 - depth, a - off,
{
    if depth > 16 || off < 12 || off >= a {
        false
    } else if p[off] >= 192 {
        off + 1 < a && low_name(p, name::pointer_target(p, off), depth + 1, a)
    } else {
        p[off] == 0 || (off + 1 + p[off] < a && low_name(p, off + 1 + p[off], depth, a))
    }
}

/// Whether the name at `off` points to nothing but names behind the header and before `a`.
pub open spec fn points_below(p: Seq<u8>, off: int, a: int) -> bool
    decreases p.len() - off,
{
    if off < 0 || off >= p.len() {
        false
    } else if p[off] >= 192 {
        off + 1 < p.len() && low_name(p, name::pointer_target(p, off), 1, a)
    } else {
        p[off] == 0 || (off + 1 + p[off] < p.len() && points_below(p, off + 1 + p[off], a))
    }
}

/// Whether a record is an alias of class IN.
pub open spec fn is_alias(r: rr::NamedRr) -> bool {
    r.rr.rr_type == 5 && r.rr.rr_class == 1
}

/// The records behind the answers.
pub open spec fn later_records(p: Seq<u8>) -> Seq<rr::NamedRr> {
    rr::named_list(
        p,
        rr::answer_end(p)->0,
        wire::header(p).nscount as nat + wire::header(p).arcount as nat,
        rr::DnsSection::Additional,
    )
}

/// Whether all records of a packet can be read, and no name of theirs, nor one in the data of an
/// alias among the answers, points into the header or behind the answers.
pub open spec fn points_to_answers(p: Seq<u8>) -> bool {
    let a = rr::answer_end(p)->0;
    let named = answer::named_answers(p);
    let later = later_records(p);
    &&& p.len() >= 12
    &&& rr::scan_complete(p)
    &&& forall|i: int|
        0 <= i < named.len() ==> low_name(p, (#[trigger] named[i]).rr.start, 0, a) && (is_alias(
            named[i],
        ) ==> low_name(p, named[i].rr.rdata, 0, a))
    &&& forall|i: int|
        0 <= i < later.len() ==> points_below(p, (#[trigger] later[i]).rr.start, a)
}

/// A name that two packets have in common is read from both.
proof fn lemma_low_name(p: Seq<u8>, q: Seq<u8>, off: int, depth: nat, a: int)
    requires
        low_name(p, off, depth, a),
        a <= p.len(),
        appended::shared(p, q, 12, a),
    ensures
        name::labels_at(q, off, depth) == name::labels_at(p, off, depth),
    decreases 17 - depth, a - off,
{
    assert(q[off] == p[off]);
    if p[off] >= 192 {
        assert(q[off + 1] == p[off + 1]);
        lemma_low_name(p, q, name::pointer_target(p, off), depth + 1, a);
    } else if p[off] != 0 {
        let next = off + 1 + p[off];
        lemma_low_name(p, q, next, depth, a);
        assert(q.subrange(off + 1, next) =~= p.subrange(off + 1, next));
    }
}

/// Whether `q` is `p` with `k` bytes put in at `a`, but for the header.
pub open spec fn moved(p: Seq<u8>, q: Seq<u8>, a: int, k: int) -> bool {
    &&& 12 <= a <= p.len()
    &&& 0 <= k
    &&& q.len() == p.len() + k
    &&& appended::shared(p, q, 12, a)
    &&& forall|i: int| a <= i < p.len() ==> #[trigger] p[i] == q[i + k]
}

/// A name behind the bytes that were put in is read from its new place.
proof fn lemma_moved_name(p: Seq<u8>, q: Seq<u8>, off: int, a: int, k: int)
    requires
        moved(p, q, a, k),
        a <= off,
        points_below(p, off, a),
    ensures
        name::labels_at(q, off + k, 0) == (match name::labels_at(p, off, 0) {
            Some((labels, e)) => Some((labels, e + k)),
            None => None,
        }),
    decreases p.len() - off,
{
    assert(p[off] == q[off + k]);
    if p[off] >= 192 {
        assert(p[off + 1] == q[off + 1 + k]);
        lemma_low_name(p, q, name::pointer_target(p, off), 1, a);
    } else if p[off] != 0 {
        let next = off + 1 + p[off];
        if next <= p.len() {
            lemma_moved_name(p, q, next, a, k);
            assert(q.subrange(off + k + 1, next + k) =~= p.subrange(off + 1, next)) by {
                assert forall|i: int| off + 1 <= i < next implies q[i + k] == #[trigger] p[i] by {}
            }
        }
    }
}

proof fn lemma_moved_end(p: Seq<u8>, q: Seq<u8>, off: int, a: int, k: int)
    requires
        moved(p, q, a, k),
        a <= off,
    ensures
        name::name_end(q, off + k) == (match name::name_end(p, off) {
            Some(e) => Some(e + k),
            None => None,
        }),
    decreases p.len() - off,
{
    if off < p.len() {
        assert(p[off] == q[off + k]);
        if p[off] < 192 && p[off] != 0 && off + 1 + p[off] <= p.len() {
            lemma_moved_end(p, q, off + 1 + p[off], a, k);
        }
    }
}

/// A record behind the bytes that were put in stands at its new place.
proof fn lemma_moved_rr(p: Seq<u8>, q: Seq<u8>, off: int, a: int, k: int, section: rr::DnsSection)
    requires
        moved(p, q, a, k),
        a <= off,
        points_below(p, off, a),
        rr::named_at(p, off, section) is Some,
    ensures
        rr::named_at(q, off + k, section) is Some,
        (rr::named_at(q, off + k, section)->0).rr.end == (rr::named_at(p, off, section)->0).rr.end
            + k,
        off < (rr::named_at(p, off, section)->0).rr.end,
{
    lemma_moved_name(p, q, off, a, k);
    lemma_moved_end(p, q, off, a, k);
    rr::lemma_rr_bounds(p, off);
    let e = name::name_end(p, off)->0;
    assert forall|i: int| e <= i < e + 10 implies #[trigger] p[i] == q[i + k] by {}
    assert(p[e + 8] == q[e + 8 + k] && p[e + 9] == q[e + 9 + k]);
}

/// Records behind the bytes that were put in can be read as before.
proof fn lemma_moved_records(p: Seq<u8>, q: Seq<u8>, off: int, n: nat, a: int, k: int)
    requires
        moved(p, q, a, k),
        a <= off,
        rr::named_end(p, off, n) is Some,
        ({
            let list = rr::named_list(p, off, n, rr::DnsSection::Additional);
            forall|i: int| 0 <= i < list.len() ==> points_below(p, (#[trigger] list[i]).rr.start, a)
        }),
    ensures
        rr::named_end(q, off + k, n) == Some(rr::named_end(p, off, n)->0 + k),
    decreases n,
{
    if n > 0 {
        let section = rr::DnsSection::Additional;
        rr::lemma_named_section(p, off, section, rr::DnsSection::Answer);
        let list = rr::named_list(p, off, n, section);
        let r = rr::named_at(p, off, section)->0;
        let rest = rr::named_list(p, r.rr.end, (n - 1) as nat, section);
        assert(list[0] == r);
        lemma_moved_rr(p, q, off, a, k, section);
        rr::lemma_named_section(q, off + k, section, rr::DnsSection::Answer);
        assert forall|i: int| 0 <= i < rest.len() implies points_below(
            p,
            (#[trigger] rest[i]).rr.start,
            a,
        ) by {
            assert(list[i + 1] == rest[i]);
        }
        lemma_moved_records(p, q, r.rr.end, (n - 1) as nat, a, k);
    }
}

/// Answers that two packets have in common are read from both.
proof fn lemma_shared_records(p: Seq<u8>, q: Seq<u8>, off: int, n: nat, a: int)
    requires
        12 <= off,
        a <= p.len(),
        appended::shared(p, q, 12, a),
        rr::named_end(p, off, n) is Some,
        rr::named_end(p, off, n)->0 <= a,
        ({
            let list = rr::named_list(p, off, n, rr::DnsSection::Answer);
            forall|i: int| 0 <= i < list.len() ==> low_name(p, (#[trigger] list[i]).rr.start, 0, a)
        }),
    ensures
        rr::named_end(q, off, n) == rr::named_end(p, off, n),
        rr::named_list(q, off, n, rr::DnsSection::Answer) == rr::named_list(
            p,
            off,
            n,
            rr::DnsSection::Answer,
        ),
    decreases n,
{
    if n > 0 {
        let section = rr::DnsSection::Answer;
        let list = rr::named_list(p, off, n, section);
        let r = rr::named_at(p, off, section)->0;
        let rest = rr::named_list(p, r.rr.end, (n - 1) as nat, section);
        assert(list[0] == r);
        rr::lemma_named_end_is_rr_end(p, r.rr.end, (n - 1) as nat);
        rr::lemma_rr_bounds(p, off);
        rr::lemma_rr_list(p, r.rr.end, (n - 1) as nat);
        lemma_low_name(p, q, off, 0, a);
        appended::lemma_rr_shared(p, q, off);
        assert forall|i: int| 0 <= i < rest.len() implies low_name(
            p,
            (#[trigger] rest[i]).rr.start,
            0,
            a,
        ) by {
            assert(list[i + 1] == rest[i]);
        }
        lemma_shared_records(p, q, r.rr.end, (n - 1) as nat, a);
    }
}

/// Two lists of records that lie behind each other are one.
proof fn lemma_named_joined(p: Seq<u8>, off: int, n: nat, m: nat, section: rr::DnsSection)
    requires
        rr::named_end(p, off, n) is Some,
    ensures
        rr::named_list(p, off, n + m, section) == rr::named_list(p, off, n, section)
            + rr::named_list(p, rr::named_end(p, off, n)->0, m, section),
        rr::named_end(p, off, n + m) == rr::named_end(p, rr::named_end(p, off, n)->0, m),
    decreases n,
{
    if n == 0 {
        assert(rr::named_list(p, off, m, section) =~= rr::named_list(p, off, 0, section)
            + rr::named_list(p, off, m, section));
    } else {
        rr::lemma_named_section(p, off, section, rr::DnsSection::Answer);
        let r = rr::named_at(p, off, section)->0;
        lemma_named_joined(p, r.rr.end, (n - 1) as nat, m, section);
        assert(rr::named_list(p, off, n + m, section) =~= rr::named_list(p, off, n, section)
            + rr::named_list(p, rr::named_end(p, off, n)->0, m, section));
    }
}

/// Where the answers of a packet end whose records can all be read.
proof fn lemma_scan(p: Seq<u8>)
    requires
        p.len() >= 12,
        rr::scan_complete(p),
    ensures
        ({
            let h = wire::header(p);
            let e = rr::question_end(p)->0;
            let a = rr::answer_end(p)->0;
            &&& rr::question_end(p) is Some && rr::answer_end(p) is Some
            &&& 12 <= e <= a <= p.len()
            &&& rr::named_end(p, e, h.ancount as nat) == Some(a)
            &&& rr::named_end(p, a, h.nscount as nat + h.arcount as nat) is Some
        }),
{
    let h = wire::header(p);
    let e = rr::question_end(p)->0;
    appended::lemma_questions_bounds(p, 12, h.qdcount as nat);
    rr::lemma_named_end_is_rr_end(p, e, h.ancount as nat);
    rr::lemma_rr_list(p, e, h.ancount as nat);
    lemma_named_joined(
        p,
        rr::answer_end(p)->0,
        h.nscount as nat,
        h.arcount as nat,
        rr::DnsSection::Answer,
    );
}

/// What is read of a packet with records put behind its answers: all its records, the answers
/// there were as they were, and behind them the new ones.
#[verifier::spinoff_prover]
proof fn lemma_longer(p: Seq<u8>, list: Seq<answer::RecordV>)
    requires
        points_to_answers(p),
        rewrite::all_record_bytes(list) is Some,
        rewrite::with_answers(p, rewrite::all_record_bytes(list)->0, list.len()) is Some,
        list.len() <= 65535,
        read_back::records_fit(list),
    ensures
        ({
            let q = rewrite::with_answers(p, rewrite::all_record_bytes(list)->0, list.len())->0;
            let a = rr::answer_end(p)->0;
            let more = rr::named_list(q, a, list.len(), rr::DnsSection::Answer);
            &&& q.len() >= 12 && a <= p.len()
            &&& appended::shared(p, q, 12, a)
            &&& rr::answer_end(q) is Some
            &&& rr::scan_complete(q)
            &&& answer::named_answers(q) == answer::named_answers(p) + more
            &&& read_back::read_records(q, more) == read_back::absolute_records(list)
        }),
{
    let section = rr::DnsSection::Answer;
    let bytes = rewrite::all_record_bytes(list)->0;
    let q = rewrite::with_answers(p, bytes, list.len())->0;
    let h = wire::header(p);
    let e = rr::question_end(p)->0;
    let a = rr::answer_end(p)->0;
    let k = bytes.len() as int;
    let an = h.ancount as nat;
    let rest = h.nscount as nat + h.arcount as nat;
    lemma_scan(p);
    appended::lemma_spliced(p, bytes, list.len());
    assert(moved(p, q, a, k)) by {
        assert forall|i: int| a <= i < p.len() implies #[trigger] p[i] == q[i + k] by {
            assert(q.skip(a + k)[i - a] == p.skip(a)[i - a]);
        }
    }
    appended::lemma_questions_shared(p, q, 12, h.qdcount as nat);
    lemma_shared_records(p, q, e, an, a);
    read_back::lemma_records_round_trip(q, a, section, list);
    lemma_named_joined(q, e, an, list.len(), section);
    lemma_moved_records(p, q, a, rest, a, k);
    lemma_split(q, a + k, h.nscount as nat, h.arcount as nat);
    assert(wire::header(q).ancount == an + list.len());
    rr::lemma_named_end_is_rr_end(q, e, an + list.len());
}

/// Records that can all be read can be read in two parts.
proof fn lemma_split(p: Seq<u8>, off: int, n: nat, m: nat)
    requires
        rr::named_end(p, off, n + m) is Some,
    ensures
        rr::named_end(p, off, n) is Some,
        rr::named_end(p, rr::named_end(p, off, n)->0, m) is Some,
    decreases n,
{
    if n > 0 {
        let r = rr::named_at(p, off, rr::DnsSection::Answer)->0;
        lemma_split(p, r.rr.end, (n - 1) as nat, m);
    }
}

/// The records of a list end where the list ends or before.
proof fn lemma_list_ends(p: Seq<u8>, off: int, n: nat)
    requires
        12 <= off,
        rr::named_end(p, off, n) is Some,
    ensures
        ({
            let list = rr::named_list(p, off, n, rr::DnsSection::Answer);
            &&& off <= rr::named_end(p, off, n)->0
            &&& forall|i: int|
                0 <= i < list.len() ==> 12 <= (#[trigger] list[i]).rr.rdata <= list[i].rr.end
                    <= rr::named_end(p, off, n)->0
        }),
    decreases n,
{
    if n > 0 {
        let list = rr::named_list(p, off, n, rr::DnsSection::Answer);
        let r = rr::named_at(p, off, rr::DnsSection::Answer)->0;
        let rest = rr::named_list(p, r.rr.end, (n - 1) as nat, rr::DnsSection::Answer);
        rr::lemma_rr_bounds(p, off);
        lemma_list_ends(p, r.rr.end, (n - 1) as nat);
        assert forall|i: int| 0 <= i < list.len() implies 12 <= (#[trigger] list[i]).rr.rdata
            <= list[i].rr.end <= rr::named_end(p, off, n)->0 by {
            if i > 0 {
                assert(list[i] == rest[i - 1]);
            }
        }
    }
}

/// The answers of a packet lie before their end and are read alike where they are shared.
proof fn lemma_same_records(p: Seq<u8>, q: Seq<u8>)
    requires
        p.len() >= 12,
        rr::scan_complete(p),
        appended::shared(p, q, 12, rr::answer_end(p)->0),
    ensures
        read_back::read_records(q, answer::named_answers(p)) == rewrite::answer_records(p),
{
    let a = rr::answer_end(p)->0;
    let named = answer::named_answers(p);
    lemma_scan(p);
    lemma_list_ends(p, rr::question_end(p)->0, wire::header(p).ancount as nat);
    assert forall|i: int| 0 <= i < named.len() implies answer::record_of(
        q,
        #[trigger] named[i],
    ) == answer::record_of(p, named[i]) by {
        let r = named[i].rr;
        assert(q.subrange(r.rdata, r.end) =~= p.subrange(r.rdata, r.end));
    }
    assert(read_back::read_records(q, named) =~= rewrite::answer_records(p));
}

/// A name without white space around it is compared like the one that is read of it.
proof fn lemma_norm_absolute(s: Seq<char>)
    requires
        text::trim(s) == s,
    ensures
        text::norm(name::absolute(s)) == text::norm(s),
{
}

/// A name is compared like its own form in comparisons.
proof fn lemma_norm_norm(s: Seq<char>)
    ensures
        text::norm(text::norm(s)) == text::norm(s),
    decreases s.len(),
{
    if s.len() > 0 && s.last() == '.' {
        lemma_norm_norm(s.drop_last());
    } else {
        let t = text::lower(s);
        assert(text::norm(s) == t);
        assert(t.len() > 0 ==> t.last() != '.');
        assert(text::lower(t) =~= t);
    }
}

proof fn lemma_new_records_among(
    known: Seq<(Seq<char>, u16, u16, Seq<u8>)>,
    records: Seq<answer::RecordV>,
)
    ensures
        forall|i: int|
            0 <= i < rewrite::new_records(known, records).len() ==> records.contains(
                #[trigger] rewrite::new_records(known, records)[i],
            ),
    decreases records.len(),
{
    if records.len() > 0 {
        let start = records.drop_last();
        let before = rewrite::new_records(known, start);
        let all = rewrite::new_records(known, records);
        lemma_new_records_among(known, start);
        assert forall|i: int| 0 <= i < all.len() implies records.contains(#[trigger] all[i]) by {
            if i < before.len() {
                assert(all[i] == before[i]);
                let j = choose|j: int| 0 <= j < start.len() && start[j] == before[i];
                assert(records[j] == all[i]);
            } else {
                assert(records[records.len() - 1] == all[i]);
            }
        }
    }
}

/// Records that are all known add nothing.
proof fn lemma_records_known(
    known: Seq<(Seq<char>, u16, u16, Seq<u8>)>,
    records: Seq<answer::RecordV>,
)
    requires
        forall|i: int|
            0 <= i < records.len() ==> known.contains(rewrite::record_key(#[trigger] records[i])),
    ensures
        rewrite::new_records(known, records).len() == 0,
    decreases records.len(),
{
    if records.len() > 0 {
        let start = records.drop_last();
        assert forall|i: int| 0 <= i < start.len() implies known.contains(
            rewrite::record_key(#[trigger] start[i]),
        ) by {
            assert(records[i] == start[i]);
        }
        lemma_records_known(known, start);
        assert(known.contains(rewrite::record_key(records[records.len() - 1])));
    }
}

/// After records were added to the answers, all of them are known.
#[verifier::spinoff_prover]
proof fn lemma_records_there(
    p: Seq<u8>,
    q: Seq<u8>,
    more: Seq<rr::NamedRr>,
    records: Seq<answer::RecordV>,
)
    requires
        ({
            let fresh = rewrite::new_records(
                rewrite::record_keys(rewrite::answer_records(p)),
                records,
            );
            &&& answer::named_answers(q) == answer::named_answers(p) + more
            &&& read_back::read_records(q, answer::named_answers(p)) == rewrite::answer_records(p)
            &&& read_back::read_records(q, more) == read_back::absolute_records(fresh)
        }),
        forall|i: int|
            0 <= i < records.len() ==> text::trim((#[trigger] records[i]).0) == records[i].0,
    ensures
        rewrite::new_records(
            rewrite::record_keys(rewrite::answer_records(q)),
            records,
        ).len() == 0,
{
    let old = rewrite::answer_records(p);
    let known = rewrite::record_keys(old);
    let fresh = rewrite::new_records(known, records);
    let all = rewrite::answer_records(q);
    let keys = rewrite::record_keys(all);
    invariants::lemma_new_records(known, records);
    lemma_new_records_among(known, records);
    assert(all =~= old + read_back::absolute_records(fresh)) by {
        let named = answer::named_answers(p);
        assert(read_back::read_records(q, named).len() == named.len());
        assert forall|i: int| 0 <= i < all.len() implies all[i] == (old
            + read_back::absolute_records(fresh))[i] by {
            if i < named.len() {
                assert(read_back::read_records(q, named)[i] == all[i]);
            } else {
                assert(read_back::read_records(q, more)[i - named.len()] == all[i]);
            }
        }
        assert(read_back::read_records(q, more).len() == more.len());
    }
    assert forall|i: int| 0 <= i < records.len() implies keys.contains(
        rewrite::record_key(#[trigger] records[i]),
    ) by {
        let key = rewrite::record_key(records[i]);
        if known.contains(key) {
            let j = choose|j: int| 0 <= j < known.len() && known[j] == key;
            assert(all[j] == old[j]);
            assert(keys[j] == key);
        } else {
            let fresh_keys = rewrite::record_keys(fresh);
            let j = choose|j: int| 0 <= j < fresh_keys.len() && fresh_keys[j] == key;
            let m = choose|m: int| 0 <= m < records.len() && records[m] == fresh[j];
            assert(text::trim(records[m].0) == records[m].0);
            lemma_norm_absolute(fresh[j].0);
            assert(all[old.len() + j] == read_back::absolute_record(fresh[j]));
            assert(keys[old.len() + j] == key);
        }
    }
    lemma_records_known(keys, records);
}

/// Adding the same records to the answers of a packet a second time changes nothing.
pub proof fn lemma_records_appended_once(p: Seq<u8>, records: Seq<answer::RecordV>)
    requires
        points_to_answers(p),
        rewrite::with_records(p, records) is Some,
        forall|i: int|
            0 <= i < records.len() ==> text::trim((#[trigger] records[i]).0) == records[i].0
                && records[i].4.len() <= 65535,
        records.len() <= 65535,
    ensures
        rewrite::with_records(rewrite::with_records(p, records)->0, records)
            == rewrite::with_records(p, records),
{
    let known = rewrite::record_keys(rewrite::answer_records(p));
    let fresh = rewrite::new_records(known, records);
    lemma_scan(p);
    if records.len() > 0 && fresh.len() > 0 {
        let q = rewrite::with_records(p, records)->0;
        let more = rr::named_list(
            q,
            rr::answer_end(p)->0,
            fresh.len(),
            rr::DnsSection::Answer,
        );
        lemma_new_records_among(known, records);
        lemma_fewer_records(known, records);
        assert forall|i: int| 0 <= i < fresh.len() implies (#[trigger] fresh[i]).4.len()
            <= 65535 by {
            let m = choose|m: int| 0 <= m < records.len() && records[m] == fresh[i];
            assert(records[m].4.len() <= 65535);
        }
        lemma_longer(p, fresh);
        lemma_same_records(p, q);
        lemma_records_there(p, q, more, records);
    }
}

proof fn lemma_fewer_records(
    known: Seq<(Seq<char>, u16, u16, Seq<u8>)>,
    records: Seq<answer::RecordV>,
)
    ensures
        rewrite::new_records(known, records).len() <= records.len(),
    decreases records.len(),
{
    if records.len() > 0 {
        lemma_fewer_records(known, records.drop_last());
    }
}

/// Records with owners that can be written are added to a packet that has room for them.
pub proof fn lemma_records_accepted(p: Seq<u8>, records: Seq<answer::RecordV>)
    requires
        p.len() >= 12,
        rr::scan_complete(p),
        forall|i: int|
            0 <= i < records.len() ==> name::name_bytes((#[trigger] records[i]).0) is Some,
        wire::header(p).ancount + records.len() <= 65535,
    ensures
        rewrite::with_records(p, records) is Some,
{
    let known = rewrite::record_keys(rewrite::answer_records(p));
    let fresh = rewrite::new_records(known, records);
    lemma_scan(p);
    lemma_fewer_records(known, records);
    lemma_new_records_among(known, records);
    assert forall|i: int| 0 <= i < fresh.len() implies name::name_bytes(
        (#[trigger] fresh[i]).0,
    ) is Some by {
        let m = choose|m: int| 0 <= m < records.len() && records[m] == fresh[i];
        assert(name::name_bytes(records[m].0) is Some);
    }
    lemma_all_written(fresh);
}

proof fn lemma_all_written(list: Seq<answer::RecordV>)
    requires
        forall|i: int| 0 <= i < list.len() ==> name::name_bytes((#[trigger] list[i]).0) is Some,
    ensures
        rewrite::all_record_bytes(list) is Some,
    decreases list.len(),
{
    if list.len() > 0 {
        let start = list.drop_last();
        assert forall|i: int| 0 <= i < start.len() implies name::name_bytes(
            (#[trigger] start[i]).0,
        ) is Some by {
            assert(list[i] == start[i]);
        }
        lemma_all_written(start);
        assert(name::name_bytes(list[list.len() - 1].0) is Some);
    }
}

/// What a filter keeps is what it makes of the items of a list.
pub proof fn lemma_kept<A, B>(list: Seq<A>, f: spec_fn(A) -> Option<B>)
    ensures
        forall|i: int|
            0 <= i < list.len() && f(#[trigger] list[i]) is Some ==> list.filter_map(f).contains(
                f(list[i])->0,
            ),
        forall|v: B| #[trigger]
            list.filter_map(f).contains(v) ==> exists|i: int|
                0 <= i < list.len() && f(#[trigger] list[i]) == Some(v),
    decreases list.len(),
{
    let n = list.len() as int;
    let all = list.filter_map(f);
    if n > 0 {
        let start = list.take(n - 1);
        let before = start.filter_map(f);
        list.lemma_filter_map_take_succ(f, n - 1);
        assert(list.take(n) =~= list);
        lemma_kept(start, f);
        assert forall|i: int| 0 <= i < n && f(#[trigger] list[i]) is Some implies all.contains(
            f(list[i])->0,
        ) by {
            if i < n - 1 {
                assert(start[i] == list[i]);
                let j = choose|j: int| 0 <= j < before.len() && before[j] == f(list[i])->0;
                assert(all[j] == before[j]);
            } else {
                assert(all[before.len() as int] == f(list[i])->0);
            }
        }
        assert forall|v: B| #[trigger] all.contains(v) implies exists|i: int|
            0 <= i < n && f(#[trigger] list[i]) == Some(v) by {
            let j = choose|j: int| 0 <= j < all.len() && all[j] == v;
            if j < before.len() {
                assert(before[j] == v);
                assert(before.contains(v));
                let i = choose|i: int| 0 <= i < start.len() && f(#[trigger] start[i]) == Some(v);
                assert(f(list[i]) == Some(v));
            } else {
                assert(f(list[n - 1]) == Some(v));
            }
        }
    } else {
        assert(all =~= Seq::empty());
    }
}

/// The form of a name in comparisons is read as it is written.
proof fn lemma_norm_is_absolute(s: Seq<char>)
    requires
        text::trim(text::norm(s)) == text::norm(s),
    ensures
        name::absolute(text::norm(s)) == text::norm(s),
    decreases s.len(),
{
    if s.len() > 0 && s.last() == '.' {
        lemma_norm_is_absolute(s.drop_last());
    } else {
        let t = text::lower(s);
        assert(text::norm(s) == t);
        assert(t.len() > 0 ==> t.last() != '.');
    }
}

proof fn lemma_new_aliases_among(
    known: Seq<(Seq<char>, Seq<char>)>,
    records: Seq<answer::CnameV>,
)
    ensures
        rewrite::new_aliases(known, records).len() <= records.len(),
        forall|i: int|
            0 <= i < rewrite::new_aliases(known, records).len() ==> records.contains(
                #[trigger] rewrite::new_aliases(known, records)[i],
            ),
    decreases records.len(),
{
    if records.len() > 0 {
        let start = records.drop_last();
        let before = rewrite::new_aliases(known, start);
        let all = rewrite::new_aliases(known, records);
        lemma_new_aliases_among(known, start);
        assert forall|i: int| 0 <= i < all.len() implies records.contains(#[trigger] all[i]) by {
            if i < before.len() {
                assert(all[i] == before[i]);
                let j = choose|j: int| 0 <= j < start.len() && start[j] == before[i];
                assert(records[j] == all[i]);
            } else {
                assert(records[records.len() - 1] == all[i]);
            }
        }
    }
}

/// Aliases that are all known add nothing.
proof fn lemma_aliases_known(known: Seq<(Seq<char>, Seq<char>)>, records: Seq<answer::CnameV>)
    requires
        forall|i: int|
            0 <= i < records.len() ==> known.contains(rewrite::alias_key(#[trigger] records[i])),
    ensures
        rewrite::new_aliases(known, records).len() == 0,
    decreases records.len(),
{
    if records.len() > 0 {
        let start = records.drop_last();
        assert forall|i: int| 0 <= i < start.len() implies known.contains(
            rewrite::alias_key(#[trigger] start[i]),
        ) by {
            assert(records[i] == start[i]);
        }
        lemma_aliases_known(known, start);
        assert(known.contains(rewrite::alias_key(records[records.len() - 1])));
    }
}

/// Whether an alias has names on both sides that are read as they are compared.
pub open spec fn is_plain_alias(c: answer::CnameV) -> bool {
    let owner = text::norm(c.0);
    let target = text::norm(c.1);
    &&& owner.len() > 0 && text::trim(owner) == owner
    &&& target.len() > 0 && text::trim(target) == target
    &&& name::name_bytes(target) matches Some(b) ==> b.len() <= 65535
}

/// An alias that was written is read as one of the packet.
proof fn lemma_alias_read(q: Seq<u8>, r: rr::NamedRr, c: answer::CnameV)
    requires
        is_plain_alias(c),
        name::name_bytes(text::norm(c.1)) is Some,
        0 <= r.rr.rdata <= r.rr.end <= q.len(),
        answer::record_of(q, r) == read_back::absolute_record(appended::alias_record(c)),
    ensures
        answer::cname_of(q, r) == Some((text::norm(c.0), text::norm(c.1), c.2)),
        rewrite::alias_key((text::norm(c.0), text::norm(c.1), c.2)) == rewrite::alias_key(c),
{
    lemma_norm_is_absolute(c.0);
    lemma_norm_is_absolute(c.1);
    lemma_norm_norm(c.0);
    lemma_norm_norm(c.1);
    let b = name::name_bytes(text::norm(c.1))->0;
    assert(q.subrange(r.rr.rdata, r.rr.end) == b);
    assert(b.len() == r.rr.end - r.rr.rdata);
    laws::lemma_name_round_trip(text::norm(c.1), q, r.rr.rdata);
}

/// The aliases of a packet are read alike where its answers are shared.
proof fn lemma_old_aliases(p: Seq<u8>, q: Seq<u8>, more: Seq<rr::NamedRr>)
    requires
        points_to_answers(p),
        q.len() >= 12,
        rr::scan_complete(q),
        appended::shared(p, q, 12, rr::answer_end(p)->0),
        answer::named_answers(q) == answer::named_answers(p) + more,
    ensures
        forall|c: answer::CnameV| #[trigger]
            answer::cname_answers(p).contains(c) ==> answer::cname_answers(q).contains(c),
{
    let old = answer::named_answers(p);
    let all = answer::named_answers(q);
    let f = |r: rr::NamedRr| answer::cname_of(p, r);
    let g = |r: rr::NamedRr| answer::cname_of(q, r);
    lemma_scan(p);
    lemma_kept(old, f);
    lemma_kept(all, g);
    assert forall|c: answer::CnameV| #[trigger]
        answer::cname_answers(p).contains(c) implies answer::cname_answers(q).contains(c) by {
        let i = choose|i: int| 0 <= i < old.len() && f(#[trigger] old[i]) == Some(c);
        assert(all[i] == old[i]);
        lemma_low_name(p, q, old[i].rr.rdata, 0, rr::answer_end(p)->0);
        assert(g(all[i]) == Some(c));
    }
}

/// After aliases were added to the answers, all of them are known.
#[verifier::spinoff_prover]
proof fn lemma_aliases_there(
    p: Seq<u8>,
    q: Seq<u8>,
    more: Seq<rr::NamedRr>,
    records: Seq<answer::CnameV>,
)
    requires
        points_to_answers(p),
        q.len() >= 12,
        rr::scan_complete(q),
        appended::shared(p, q, 12, rr::answer_end(p)->0),
        answer::named_answers(q) == answer::named_answers(p) + more,
        ({
            let fresh = rewrite::new_aliases(
                rewrite::alias_keys(answer::cname_answers(p)),
                records,
            );
            &&& rewrite::all_alias_bytes(fresh) is Some
            &&& read_back::read_records(q, more) == read_back::absolute_records(
                appended::alias_records(fresh),
            )
        }),
        forall|i: int|
            0 <= i < more.len() ==> 0 <= (#[trigger] more[i]).rr.rdata <= more[i].rr.end <= q.len(),
        forall|i: int| 0 <= i < records.len() ==> is_plain_alias(#[trigger] records[i]),
    ensures
        rewrite::new_aliases(
            rewrite::alias_keys(answer::cname_answers(q)),
            records,
        ).len() == 0,
{
    let old = answer::cname_answers(p);
    let known = rewrite::alias_keys(old);
    let fresh = rewrite::new_aliases(known, records);
    let all = answer::cname_answers(q);
    let keys = rewrite::alias_keys(all);
    let named = answer::named_answers(q);
    let g = |r: rr::NamedRr| answer::cname_of(q, r);
    invariants::lemma_new_aliases(known, records);
    lemma_new_aliases_among(known, records);
    lemma_old_aliases(p, q, more);
    lemma_kept(named, g);
    assert forall|i: int| 0 <= i < records.len() implies keys.contains(
        rewrite::alias_key(#[trigger] records[i]),
    ) by {
        let key = rewrite::alias_key(records[i]);
        let c = if known.contains(key) {
            let j = choose|j: int| 0 <= j < known.len() && known[j] == key;
            assert(old.contains(old[j]));
            old[j]
        } else {
            let fresh_keys = rewrite::alias_keys(fresh);
            let j = choose|j: int| 0 <= j < fresh_keys.len() && fresh_keys[j] == key;
            let m = choose|m: int| 0 <= m < records.len() && records[m] == fresh[j];
            assert(is_plain_alias(records[m]));
            lemma_written_alias(fresh, j);
            let list = appended::alias_records(fresh);
            assert(read_back::read_records(q, more).len() == read_back::absolute_records(list).len());
            assert(read_back::read_records(q, more)[j] == answer::record_of(q, more[j]));
            assert(read_back::absolute_records(list)[j] == read_back::absolute_record(list[j]));
            lemma_alias_read(q, more[j], fresh[j]);
            let at = answer::named_answers(p).len() + j;
            assert(named[at] == more[j]);
            assert(g(named[at]) is Some);
            answer::cname_of(q, more[j])->0
        };
        assert(all.contains(c));
        assert(rewrite::alias_key(c) == key);
        let j = choose|j: int| 0 <= j < all.len() && all[j] == c;
        assert(keys[j] == key);
    }
    lemma_aliases_known(keys, records);
}

proof fn lemma_written_alias(list: Seq<answer::CnameV>, i: int)
    requires
        0 <= i < list.len(),
        rewrite::all_alias_bytes(list) is Some,
    ensures
        name::name_bytes(text::norm(list[i].1)) is Some,
    decreases list.len(),
{
    if i < list.len() - 1 {
        lemma_written_alias(list.drop_last(), i);
    }
}

/// Adding the same aliases to the answers of a packet a second time changes nothing.
pub proof fn lemma_aliases_appended_once(p: Seq<u8>, records: Seq<answer::CnameV>)
    requires
        points_to_answers(p),
        rewrite::with_aliases(p, records) is Some,
        forall|i: int| 0 <= i < records.len() ==> is_plain_alias(#[trigger] records[i]),
        records.len() <= 65535,
    ensures
        rewrite::with_aliases(rewrite::with_aliases(p, records)->0, records)
            == rewrite::with_aliases(p, records),
{
    let known = rewrite::alias_keys(answer::cname_answers(p));
    let fresh = rewrite::new_aliases(known, records);
    lemma_scan(p);
    if records.len() > 0 && fresh.len() > 0 {
        let q = rewrite::with_aliases(p, records)->0;
        let list = appended::alias_records(fresh);
        let a = rr::answer_end(p)->0;
        let more = rr::named_list(q, a, fresh.len(), rr::DnsSection::Answer);
        lemma_new_aliases_among(known, records);
        appended::lemma_alias_bytes(fresh);
        assert forall|i: int| 0 <= i < list.len() implies (#[trigger] list[i]).4.len()
            <= 65535 by {
            let m = choose|m: int| 0 <= m < records.len() && records[m] == fresh[i];
            assert(is_plain_alias(records[m]));
            lemma_written_alias(fresh, i);
        }
        lemma_longer(p, list);
        rr::lemma_named_list_bounds(q, a, fresh.len(), rr::DnsSection::Answer);
        lemma_aliases_there(p, q, more, records);
    }
}

/// Aliases whose names can be written are added to a packet that has room for them.
pub proof fn lemma_aliases_accepted(p: Seq<u8>, records: Seq<answer::CnameV>)
    requires
        p.len() >= 12,
        rr::answer_end(p) is Some,
        forall|i: int|
            0 <= i < records.len() ==> rewrite::alias_bytes(#[trigger] records[i]) is Some,
        wire::header(p).ancount + records.len() <= 65535,
    ensures
        rewrite::with_aliases(p, records) is Some,
{
    let known = rewrite::alias_keys(answer::cname_answers(p));
    let fresh = rewrite::new_aliases(known, records);
    lemma_new_aliases_among(known, records);
    assert forall|i: int| 0 <= i < fresh.len() implies rewrite::alias_bytes(
        #[trigger] fresh[i],
    ) is Some by {
        let m = choose|m: int| 0 <= m < records.len() && records[m] == fresh[i];
        assert(rewrite::alias_bytes(records[m]) is Some);
    }
    lemma_all_aliases_written(fresh);
}

proof fn lemma_all_aliases_written(list: Seq<answer::CnameV>)
    requires
        forall|i: int| 0 <= i < list.len() ==> rewrite::alias_bytes(#[trigger] list[i]) is Some,
    ensures
        rewrite::all_alias_bytes(list) is Some,
    decreases list.len(),
{
    if list.len() > 0 {
        let start = list.drop_last();
        assert forall|i: int| 0 <= i < start.len() implies rewrite::alias_bytes(
            #[trigger] start[i],
        ) is Some by {
            assert(list[i] == start[i]);
        }
        lemma_all_aliases_written(start);
        assert(rewrite::alias_bytes(list[list.len() - 1]) is Some);
    }
}

} // verus!
