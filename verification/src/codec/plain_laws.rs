//! Names in the data of records keep their meaning when compression is taken off them.
use crate::codec::answer;
use crate::codec::appended;
use crate::codec::laws;
use crate::codec::name;
use crate::codec::plain;
use crate::codec::read_back;
use crate::codec::rewrite;
use crate::codec::rr;
use crate::codec::wire;
use crate::text;
use vstd::prelude::*;
use vstd::utf8::*;

verus! {

/// A name ends behind its start and inside the packet, and takes at least one byte.
proof fn lemma_plain_name_bounds(p: Seq<u8>, off: int, depth: nat)
    ensures
        plain::plain_name(p, off, depth) matches Some((b, e)) ==> 0 <= off < e <= p.len()
            && b.len() > 0 && name::name_end(p, off) == Some(e),
    decreases 17 - depth, p.len() - off,
{
    if depth <= 16 && 0 <= off < p.len() {
        if p[off] >= 192 {
            if off + 1 < p.len() {
                lemma_plain_name_bounds(p, name::pointer_target(p, off), depth + 1);
            }
        } else if p[off] != 0 && p[off] <= 63 && off + 1 + p[off] <= p.len() {
            lemma_plain_name_bounds(p, off + 1 + p[off], depth);
        }
    }
}

/// A name without compression is itself when it is written without compression.
pub proof fn lemma_plain_name_again(p: Seq<u8>, off: int, depth: nat, q: Seq<u8>, at: int)
    requires
        plain::plain_name(p, off, depth) is Some,
        0 <= at,
        at + (plain::plain_name(p, off, depth)->0).0.len() <= q.len(),
        q.subrange(at, at + (plain::plain_name(p, off, depth)->0).0.len()) == (plain::plain_name(
            p,
            off,
            depth,
        )->0).0,
    ensures
        ({
            let b = (plain::plain_name(p, off, depth)->0).0;
            plain::plain_name(q, at, 0) == Some((b, at + b.len()))
        }),
    decreases 17 - depth, p.len() - off,
{
    let b = (plain::plain_name(p, off, depth)->0).0;
    let part = q.subrange(at, at + b.len());
    lemma_plain_name_bounds(p, off, depth);
    assert(q[at] == part[0]);
    if p[off] >= 192 {
        lemma_plain_name_again(p, name::pointer_target(p, off), depth + 1, q, at);
    } else if p[off] == 0 {
        assert(q[at] == 0);
    } else {
        let label = p.subrange(off, off + 1 + p[off]);
        let rest = (plain::plain_name(p, off + 1 + p[off], depth)->0).0;
        assert(b == label + rest);
        read_back::lemma_pieces(q, at, label, rest);
        assert(q[at] == label[0]);
        lemma_plain_name_again(p, off + 1 + p[off], depth, q, at + label.len());
        assert(q.subrange(at, at + 1 + q[at]) == label);
    }
}

/// A list of parts with one put before it, joined.
proof fn lemma_join_front(first: Seq<char>, rest: Seq<Seq<char>>)
    requires
        rest.len() > 0,
    ensures
        text::join_dots(seq![first] + rest) == first.push('.') + text::join_dots(rest),
    decreases rest.len(),
{
    let all = seq![first] + rest;
    assert(all.last() == rest.last());
    assert(all.drop_last() =~= seq![first] + rest.drop_last());
    if rest.len() == 1 {
        assert(seq![first] + rest.drop_last() =~= seq![first]);
        assert(text::join_dots(seq![first]) == first);
    } else {
        lemma_join_front(first, rest.drop_last());
        assert(text::join_dots(all) =~= first.push('.') + text::join_dots(rest));
    }
}

/// The parts of a name have at least one character each when they are joined.
proof fn lemma_labels_not_empty(p: Seq<u8>, off: int, depth: nat)
    ensures
        name::labels_at(p, off, depth) matches Some((labels, _)) ==> labels.len() > 0
            ==> text::join_dots(labels).len() > 0,
    decreases p.len() - off,
{
    if name::labels_at(p, off, depth) is Some && 0 < p[off] < 192 {
        let label = p.subrange(off + 1, off + 1 + p[off]);
        let rest = (name::labels_at(p, off + 1 + p[off], depth)->0).0;
        assert(decode_utf8(label).len() > 0);
        if rest.len() > 0 {
            lemma_join_front(decode_utf8(label), rest);
        } else {
            assert(seq![decode_utf8(label)] + rest =~= seq![decode_utf8(label)]);
        }
    }
}

/// A name that is written without compression is read as the text it had.
pub proof fn lemma_plain_name_text(p: Seq<u8>, off: int, depth: nat, q: Seq<u8>, at: int)
    requires
        plain::plain_name(p, off, depth) is Some,
        name::labels_at(p, off, depth) is Some,
        0 <= at,
        at + (plain::plain_name(p, off, depth)->0).0.len() <= q.len(),
        q.subrange(at, at + (plain::plain_name(p, off, depth)->0).0.len()) == (plain::plain_name(
            p,
            off,
            depth,
        )->0).0,
    ensures
        name::labels_at(q, at, 0) is Some,
        (name::labels_at(q, at, 0)->0).1 == at + (plain::plain_name(p, off, depth)->0).0.len(),
        text::join_dots((name::labels_at(q, at, 0)->0).0) == text::join_dots(
            (name::labels_at(p, off, depth)->0).0,
        ),
        (name::labels_at(q, at, 0)->0).0.len() == 0 <==> (name::labels_at(p, off, depth)->0).0.len()
            == 0,
    decreases 17 - depth, p.len() - off,
{
    let b = (plain::plain_name(p, off, depth)->0).0;
    let labels = (name::labels_at(p, off, depth)->0).0;
    let part = q.subrange(at, at + b.len());
    lemma_plain_name_bounds(p, off, depth);
    assert(q[at] == part[0]);
    if p[off] >= 192 {
        let to = name::pointer_target(p, off);
        let inner = (name::labels_at(p, to, depth + 1)->0).0;
        lemma_plain_name_text(p, to, depth + 1, q, at);
        lemma_labels_not_empty(p, to, depth + 1);
        let suffix = text::join_dots(inner);
        assert(text::join_dots(seq![suffix]) == suffix);
        assert(text::join_dots(Seq::empty()) =~= Seq::<char>::empty());
        if suffix.len() == 0 {
            assert(suffix =~= Seq::empty());
        }
    } else if p[off] == 0 {
        assert(q[at] == 0);
    } else {
        let label = p.subrange(off, off + 1 + p[off]);
        let next = off + 1 + p[off];
        let rest = (plain::plain_name(p, next, depth)->0).0;
        assert(b == label + rest);
        read_back::lemma_pieces(q, at, label, rest);
        assert(q[at] == label[0]);
        lemma_plain_name_text(p, next, depth, q, at + label.len());
        let inner = (name::labels_at(p, next, depth)->0).0;
        let there = (name::labels_at(q, at + label.len(), 0)->0).0;
        let bytes = p.subrange(off + 1, next);
        assert(q.subrange(at + 1, at + 1 + q[at]) =~= bytes) by {
            assert(q.subrange(at, at + label.len()) == label);
            assert forall|i: int| 0 <= i < bytes.len() implies q.subrange(
                at + 1,
                at + 1 + q[at],
            )[i] == #[trigger] bytes[i] by {
                assert(q.subrange(at, at + label.len())[i + 1] == label[i + 1]);
            }
        }
        let first = decode_utf8(bytes);
        if inner.len() > 0 {
            lemma_join_front(first, inner);
            lemma_join_front(first, there);
        } else {
            assert(inner =~= there);
        }
    }
}

/// `n` names read one behind the other, and where they end.
pub open spec fn texts_at(p: Seq<u8>, off: int, n: nat) -> Option<(Seq<Seq<char>>, int)>
    decreases n,
{
    if n == 0 {
        Some((Seq::empty(), off))
    } else {
        match name::name_at(p, off) {
            None => None,
            Some((t, e)) => match texts_at(p, e, (n - 1) as nat) {
                None => None,
                Some((rest, last)) => Some((seq![t] + rest, last)),
            },
        }
    }
}

/// Names that are written without compression stay as they are, and are read as the texts they
/// had.
proof fn lemma_plain_names(p: Seq<u8>, off: int, n: nat, end: int, q: Seq<u8>, at: int, last: int)
    requires
        plain::plain_names(p, off, n, end) is Some,
        0 <= at,
        at + (plain::plain_names(p, off, n, end)->0).0.len() <= last <= q.len(),
        q.subrange(at, at + (plain::plain_names(p, off, n, end)->0).0.len()) == (plain::plain_names(
            p,
            off,
            n,
            end,
        )->0).0,
    ensures
        ({
            let b = (plain::plain_names(p, off, n, end)->0).0;
            &&& plain::plain_names(q, at, n, last) == Some((b, at + b.len()))
            &&& texts_at(p, off, n) matches Some((texts, _)) ==> texts_at(q, at, n) == Some(
                (texts, at + b.len()),
            )
        }),
    decreases n,
{
    if n > 0 {
        let (b, e) = plain::plain_name(p, off, 0)->0;
        let rest = (plain::plain_names(p, e, (n - 1) as nat, end)->0).0;
        read_back::lemma_pieces(q, at, b, rest);
        lemma_plain_name_bounds(p, off, 0);
        lemma_plain_name_again(p, off, 0, q, at);
        lemma_plain_names(p, e, (n - 1) as nat, end, q, at + b.len(), last);
        if name::name_at(p, off) is Some {
            name::lemma_read_and_skip_agree(p, off, 0);
            lemma_plain_name_text(p, off, 0, q, at);
        }
    }
}

proof fn lemma_strings_end(p: Seq<u8>, off: int, n: nat, end: int)
    ensures
        plain::strings_end(p, off, n, end) matches Some(e) ==> off <= e <= end,
    decreases n,
{
    if n > 0 && off < end {
        lemma_strings_end(p, off + 1 + p[off], (n - 1) as nat, end);
    }
}

/// Character strings that are moved end as far behind their start.
proof fn lemma_strings_moved(
    p: Seq<u8>,
    off: int,
    n: nat,
    end: int,
    q: Seq<u8>,
    at: int,
    last: int,
)
    requires
        plain::strings_end(p, off, n, end) is Some,
        at + (plain::strings_end(p, off, n, end)->0 - off) <= last,
        forall|i: int|
            0 <= i < plain::strings_end(p, off, n, end)->0 - off ==> #[trigger] q[at + i] == p[off
                + i],
    ensures
        plain::strings_end(q, at, n, last) == Some(
            at + (plain::strings_end(p, off, n, end)->0 - off),
        ),
    decreases n,
{
    lemma_strings_end(p, off, n, end);
    if n > 0 {
        let next = off + 1 + p[off];
        let to = plain::strings_end(p, off, n, end)->0;
        lemma_strings_end(p, next, (n - 1) as nat, end);
        assert(q[at + 0] == p[off + 0]);
        assert forall|i: int| 0 <= i < to - next implies #[trigger] q[at + 1 + p[off] + i] == p[next
            + i] by {
            assert(q[at + (1 + p[off] + i)] == p[off + (1 + p[off] + i)]);
        }
        lemma_strings_moved(p, next, (n - 1) as nat, end, q, at + 1 + p[off], last);
    }
}

/// The names in data that is written without compression are those that it held.
#[verifier::spinoff_prover]
proof fn lemma_plain_data(p: Seq<u8>, r: rr::NamedRr, q: Seq<u8>, s: rr::NamedRr)
    requires
        0 <= r.rr.rdata <= r.rr.end <= p.len(),
        0 <= s.rr.rdata <= s.rr.end <= q.len(),
        s.rr.rr_type == r.rr.rr_type,
        !plain::is_alias(r),
        plain::names_in(p, r) is Some,
        q.subrange(s.rr.rdata, s.rr.end) == plain::plain_data(p, r)->0,
    ensures
        ({
            let n = plain::layout_of(r.rr.rr_type).names;
            let (start, names, _) = plain::names_in(p, r)->0;
            let there = s.rr.rdata + (start - r.rr.rdata);
            &&& plain::names_in(q, s) == Some((there, names, there + names.len()))
            &&& texts_at(p, start, n) matches Some((texts, _)) ==> texts_at(q, there, n) == Some(
                (texts, there + names.len()),
            )
        }),
{
    let layout = plain::layout_of(r.rr.rr_type);
    let (start, names, e) = plain::names_in(p, r)->0;
    let data = plain::plain_data(p, r)->0;
    let at = s.rr.rdata;
    lemma_strings_end(p, r.rr.rdata + layout.fixed, layout.strings, r.rr.end);
    lemma_names_bounds(p, start, layout.names, r.rr.end);
    let front = p.subrange(r.rr.rdata, start);
    let back = p.subrange(e, r.rr.end);
    read_back::lemma_joined(front, names, back);
    assert(data == front + (names + back));
    assert(s.rr.end == at + data.len());
    read_back::lemma_pieces(q, at, front, names + back);
    read_back::lemma_pieces(q, at + front.len(), names, back);
    assert forall|i: int| 0 <= i < start - (r.rr.rdata + layout.fixed) implies #[trigger] q[at
        + layout.fixed + i] == p[r.rr.rdata + layout.fixed + i] by {
        assert(q.subrange(at, at + front.len())[layout.fixed + i] == front[layout.fixed + i]);
    }
    lemma_strings_moved(
        p,
        r.rr.rdata + layout.fixed,
        layout.strings,
        r.rr.end,
        q,
        at + layout.fixed,
        s.rr.end,
    );
    lemma_plain_names(p, start, layout.names, r.rr.end, q, at + front.len(), s.rr.end);
}

proof fn lemma_names_bounds(p: Seq<u8>, off: int, n: nat, end: int)
    requires
        off <= end,
    ensures
        plain::plain_names(p, off, n, end) matches Some((_, e)) ==> off <= e <= end,
    decreases n,
{
    if n > 0 {
        if let Some((_, e)) = plain::plain_name(p, off, 0) {
            lemma_plain_name_bounds(p, off, 0);
            if e <= end {
                lemma_names_bounds(p, e, (n - 1) as nat, end);
            }
        }
    }
}

proof fn lemma_plain_written(p: Seq<u8>, list: Seq<rr::NamedRr>, i: int)
    requires
        plain::plain_records(p, list) is Some,
        0 <= i < list.len(),
    ensures
        plain::plain_data(p, list[i]) is Some,
    decreases list.len(),
{
    if i < list.len() - 1 {
        lemma_plain_written(p, list.drop_last(), i);
    }
}

/// Each answer of a packet that is written anew for a request has the type, the class and the data
/// without compression of the answer it was.
#[verifier::spinoff_prover]
proof fn lemma_reencoded_data(p: Seq<u8>, request: Seq<u8>, i: int)
    requires
        rewrite::reencoded(p, request) is Some,
        read_back::records_fit(appended::plain_forms(p, answer::named_answers(p))),
        0 <= i < answer::named_answers(p).len(),
    ensures
        ({
            let q = rewrite::reencoded(p, request)->0;
            let r = answer::named_answers(p)[i];
            let s = answer::named_answers(q)[i];
            &&& i < answer::named_answers(q).len()
            &&& 0 <= r.rr.rdata <= r.rr.end <= p.len()
            &&& 0 <= s.rr.rdata <= s.rr.end <= q.len()
            &&& s.rr.rr_type == r.rr.rr_type && s.rr.rr_class == r.rr.rr_class
            &&& plain::plain_data(p, r) == Some(q.subrange(s.rr.rdata, s.rr.end))
        }),
{
    let q = rewrite::reencoded(p, request)->0;
    let named = answer::named_answers(p);
    let there = answer::named_answers(q);
    let r = named[i];
    let list = appended::plain_forms(p, named);
    appended::lemma_reencoded(p, request);
    assert(read_back::read_records(q, there).len() == read_back::absolute_records(list).len());
    let s = there[i];
    assert(read_back::read_records(q, there)[i] == answer::record_of(q, s));
    assert(read_back::absolute_records(list)[i] == read_back::absolute_record(list[i]));
    assert(list[i] == appended::plain_form(p, r));
    lemma_plain_written(p, named, i);
    rr::lemma_named_list_bounds(
        p,
        rr::question_end(p)->0,
        wire::header(p).ancount as nat,
        rr::DnsSection::Answer,
    );
    rr::lemma_named_list_bounds(
        q,
        rr::question_end(q)->0,
        wire::header(q).ancount as nat,
        rr::DnsSection::Answer,
    );
}

/// No name in the data of an answer is changed when a packet is written anew for a request,
/// whatever it pointed to: the names have the labels they had, to the byte, and are read as the
/// texts they had. Data that does not hold the names that its type asks for stays as it is.
pub proof fn lemma_reencoded_names(p: Seq<u8>, request: Seq<u8>, i: int)
    requires
        rewrite::reencoded(p, request) is Some,
        read_back::records_fit(appended::plain_forms(p, answer::named_answers(p))),
        0 <= i < answer::named_answers(p).len(),
        !plain::is_alias(answer::named_answers(p)[i]),
    ensures
        ({
            let q = rewrite::reencoded(p, request)->0;
            let r = answer::named_answers(p)[i];
            let s = answer::named_answers(q)[i];
            let n = plain::layout_of(r.rr.rr_type).names;
            &&& i < answer::named_answers(q).len()
            &&& match plain::names_in(p, r) {
                None => q.subrange(s.rr.rdata, s.rr.end) == p.subrange(r.rr.rdata, r.rr.end),
                Some((start, names, _)) => {
                    let there = s.rr.rdata + (start - r.rr.rdata);
                    &&& plain::names_in(q, s) == Some((there, names, there + names.len()))
                    &&& texts_at(p, start, n) matches Some((texts, _)) ==> texts_at(q, there, n)
                        == Some((texts, there + names.len()))
                },
            }
        }),
{
    let q = rewrite::reencoded(p, request)->0;
    let r = answer::named_answers(p)[i];
    lemma_reencoded_data(p, request, i);
    if plain::names_in(p, r) is Some {
        lemma_plain_data(p, r, q, answer::named_answers(q)[i]);
    }
}

/// The target of an alias of class IN is not changed when a packet is written anew for a request,
/// but for white space around it and a final dot.
pub proof fn lemma_reencoded_alias(p: Seq<u8>, request: Seq<u8>, i: int)
    requires
        rewrite::reencoded(p, request) is Some,
        read_back::records_fit(appended::plain_forms(p, answer::named_answers(p))),
        0 <= i < answer::named_answers(p).len(),
        plain::is_alias(answer::named_answers(p)[i]),
    ensures
        ({
            let q = rewrite::reencoded(p, request)->0;
            let r = answer::named_answers(p)[i];
            let s = answer::named_answers(q)[i];
            &&& i < answer::named_answers(q).len()
            &&& name::name_at(p, r.rr.rdata) matches Some((t, _)) && name::name_at(q, s.rr.rdata)
                == Some((name::absolute(t), s.rr.end))
        }),
{
    let q = rewrite::reencoded(p, request)->0;
    let r = answer::named_answers(p)[i];
    let s = answer::named_answers(q)[i];
    lemma_reencoded_data(p, request, i);
    let (t, _) = name::name_at(p, r.rr.rdata)->0;
    laws::lemma_name_round_trip(t, q, s.rr.rdata);
}

/// Whether the name that starts at `off` runs into a compression pointer.
pub open spec fn is_compressed(p: Seq<u8>, off: int) -> bool
    decreases p.len() - off,
{
    if off < 0 || off >= p.len() {
        false
    } else if p[off] >= 192 {
        true
    } else if p[off] == 0 || off + 1 + p[off] > p.len() {
        false
    } else {
        is_compressed(p, off + 1 + p[off])
    }
}

/// Whether one of `n` names from `off` on is compressed.
pub open spec fn any_compressed(p: Seq<u8>, off: int, n: nat) -> bool
    decreases n,
{
    if n == 0 {
        false
    } else {
        is_compressed(p, off) || (match name::name_end(p, off) {
            None => false,
            Some(e) => any_compressed(p, e, (n - 1) as nat),
        })
    }
}

proof fn lemma_uncompressed_name(p: Seq<u8>, off: int, depth: nat)
    requires
        !is_compressed(p, off),
    ensures
        plain::plain_name(p, off, depth) matches Some((b, e)) ==> b == p.subrange(off, e),
    decreases p.len() - off,
{
    if let Some((b, e)) = plain::plain_name(p, off, depth) {
        lemma_plain_name_bounds(p, off, depth);
        if p[off] != 0 {
            lemma_uncompressed_name(p, off + 1 + p[off], depth);
            lemma_plain_name_bounds(p, off + 1 + p[off], depth);
        }
        assert(b =~= p.subrange(off, e));
    }
}

proof fn lemma_uncompressed_names(p: Seq<u8>, off: int, n: nat, end: int)
    requires
        0 <= off <= end <= p.len(),
        !any_compressed(p, off, n),
    ensures
        plain::plain_names(p, off, n, end) matches Some((b, e)) ==> b == p.subrange(off, e),
    decreases n,
{
    if let Some((b, last)) = plain::plain_names(p, off, n, end) {
        if n > 0 {
            let (first, e) = plain::plain_name(p, off, 0)->0;
            lemma_plain_name_bounds(p, off, 0);
            lemma_uncompressed_name(p, off, 0);
            lemma_uncompressed_names(p, e, (n - 1) as nat, end);
            lemma_names_bounds(p, e, (n - 1) as nat, end);
        }
        assert(b =~= p.subrange(off, last));
    }
}

/// Data without compressed names stays as it is, whatever its labels hold.
pub proof fn lemma_uncompressed_kept(p: Seq<u8>, r: rr::NamedRr)
    requires
        0 <= r.rr.rdata <= r.rr.end <= p.len(),
        !plain::is_alias(r),
        plain::names_in(p, r) matches Some((start, _, _)) ==> !any_compressed(
            p,
            start,
            plain::layout_of(r.rr.rr_type).names,
        ),
    ensures
        plain::plain_data(p, r) == Some(p.subrange(r.rr.rdata, r.rr.end)),
{
    if let Some((start, names, e)) = plain::names_in(p, r) {
        let layout = plain::layout_of(r.rr.rr_type);
        lemma_strings_end(p, r.rr.rdata + layout.fixed, layout.strings, r.rr.end);
        lemma_names_bounds(p, start, layout.names, r.rr.end);
        lemma_uncompressed_names(p, start, layout.names, r.rr.end);
        assert(p.subrange(r.rr.rdata, start) + names + p.subrange(e, r.rr.end) =~= p.subrange(
            r.rr.rdata,
            r.rr.end,
        ));
    }
}

} // verus!
