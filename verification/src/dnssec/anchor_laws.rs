//! What holds of names of zones and of the files that trust anchors come from.
use crate::dnssec::anchors;
use crate::dnssec::names;
use crate::dnssec::records;
use crate::dnssec::rrsets;
use crate::text;
use vstd::prelude::*;

verus! {

/// The last labels of a name are a part of it that stands at its end; those of a name that has
/// fewer are the name itself.
pub proof fn lemma_trimmed_name(n: names::NameV, count: nat)
    ensures
        names::trimmed(n, count).len() == (if count <= n.len() {
            count
        } else {
            n.len()
        }),
        forall|i: int|
            0 <= i < names::trimmed(n, count).len() ==> #[trigger] names::trimmed(n, count)[i]
                == n[n.len() - names::trimmed(n, count).len() + i],
{
}

/// A wildcard is a name with an asterisk before it: behind the asterisk stands the name, the zone
/// above it is the name, and the asterisk is not counted. It is two bytes longer, and there is one
/// exactly where it is not too long.
pub proof fn lemma_wildcard(n: names::NameV)
    ensures
        match names::wildcard(n) {
            Some(w) => {
                &&& w.len() == n.len() + 1
                &&& w[0] == seq![42u8]
                &&& names::behind_asterisk(w) == Some(n)
                &&& names::parent(w) == Some(n)
                &&& names::label_count(w) == n.len()
                &&& names::wire_length(w) == names::wire_length(n) + 2
                &&& names::wire_length(w) <= 255
            },
            None => names::wire_length(n) + 2 > 255,
        },
{
    if let Some(w) = names::wildcard(n) {
        assert(w.skip(1) =~= n);
        lemma_longer(seq![42u8], n);
    }
}

proof fn lemma_longer(label: Seq<u8>, n: names::NameV)
    ensures
        names::wire_length(seq![label] + n) == names::wire_length(n) + label.len() + 1,
    decreases n.len(),
{
    let all = seq![label] + n;
    if n.len() == 0 {
        assert(all.drop_last() =~= Seq::empty());
        assert(all.last() == label);
        assert(names::wire_length(all.drop_last()) == 1);
    } else {
        lemma_longer(label, n.drop_last());
        assert(all.drop_last() =~= seq![label] + n.drop_last());
        assert(all.last() == n.last());
    }
}

/// The name next to an ancestor has one label more than the ancestor, which is what stands behind
/// that label.
pub proof fn lemma_next_closer(q: names::NameV, count: nat)
    requires
        count < q.len(),
        forall|i: int| 0 <= i < q.len() ==> #[trigger] q[i] != seq![42u8],
    ensures
        ({
            let encloser = names::trimmed(q, count);
            let next = names::next_closer(q, encloser);
            &&& next.len() == count + 1
            &&& names::parent(next) == Some(encloser)
            &&& next == names::trimmed(q, count + 1)
        }),
{
    let encloser = names::trimmed(q, count);
    let next = names::next_closer(q, encloser);
    if encloser.len() > 0 {
        assert(encloser[0] == q[q.len() - count]);
    }
    assert(q[0] != seq![42u8]);
    assert(next.skip(1) =~= encloser);
}

/// The parents of a name lead to the root, one label at a time.
pub proof fn lemma_parent(n: names::NameV)
    ensures
        n.len() == 0 <==> names::parent(n) is None,
        names::parent(n) matches Some(p) ==> p.len() + 1 == n.len() && seq![n[0]] + p == n,
{
    if n.len() > 0 {
        assert(seq![n[0]] + n.skip(1) =~= n);
    }
}

/// A name is the same as itself in capital letters; names of different lengths are not the same.
pub proof fn lemma_same_names(a: names::NameV, b: names::NameV, c: names::NameV)
    ensures
        names::is_same(a, a),
        names::is_same(a, b) ==> names::is_same(b, a) && a.len() == b.len(),
        names::is_same(a, b) && names::is_same(b, c) ==> names::is_same(a, c),
        names::is_same(a, names::folded_name(a)),
{
    assert(names::folded_name(a).len() == a.len() && names::folded_name(b).len() == b.len());
    assert forall|i: int| 0 <= i < a.len() implies names::folded_name(names::folded_name(a))[i]
        == #[trigger] names::folded_name(a)[i] by {
        assert(names::folded(names::folded(a[i])) =~= names::folded(a[i]));
    }
    assert(names::folded_name(names::folded_name(a)) =~= names::folded_name(a));
}

/// A zone above another comes before it in the canonical order.
pub proof fn lemma_ancestor_comes_first(head: names::NameV, n: names::NameV)
    requires
        head.len() > 0,
    ensures
        names::is_before(n, head + n),
        !names::is_before(head + n, n),
    decreases n.len(),
{
    let all = head + n;
    if n.len() > 0 {
        assert(all.last() == n.last());
        assert(all.drop_last() =~= head + n.drop_last());
        lemma_ancestor_comes_first(head, n.drop_last());
    }
}

proof fn lemma_with_anchor(list: Seq<anchors::AnchorV>, a: anchors::AnchorV, b: anchors::AnchorV)
    requires
        list.no_duplicates(),
    ensures
        anchors::with_anchor(list, a).no_duplicates(),
        anchors::with_anchor(list, a).contains(b) <==> list.contains(b) || b == a,
{
    if !list.contains(a) {
        let new = list.push(a);
        assert(new[list.len() as int] == a);
        if list.contains(b) {
            let i = choose|i: int| 0 <= i < list.len() && list[i] == b;
            assert(new[i] == b);
        }
        if new.contains(b) && b != a {
            let i = choose|i: int| 0 <= i < new.len() && new[i] == b;
            assert(list[i] == b);
        }
    }
}

proof fn lemma_merged(
    list: Seq<anchors::AnchorV>,
    more: Seq<anchors::AnchorV>,
    b: anchors::AnchorV,
)
    requires
        list.no_duplicates(),
    ensures
        anchors::merged(list, more).no_duplicates(),
        anchors::merged(list, more).contains(b) <==> list.contains(b) || more.contains(b),
    decreases more.len(),
{
    if more.len() > 0 {
        let start = more.drop_last();
        lemma_merged(list, start, b);
        lemma_with_anchor(anchors::merged(list, start), more.last(), b);
        assert(more[more.len() - 1] == more.last());
        if start.contains(b) {
            let i = choose|i: int| 0 <= i < start.len() && start[i] == b;
            assert(more[i] == b);
        }
        if more.contains(b) && b != more.last() {
            let i = choose|i: int| 0 <= i < more.len() && more[i] == b;
            assert(start[i] == b);
        }
    }
}

/// The keys of a file that could be read, if none of its entries is wrong.
pub open spec fn file_keys(file: Option<Seq<char>>) -> Option<Seq<anchors::AnchorV>> {
    match file {
        Some(raw) => match anchors::entries_anchors(anchors::zone_entries(raw)) {
            Ok(list) => Some(list),
            Err(_) => None,
        },
        None => None,
    }
}

pub open spec fn file_holds(file: Option<Seq<char>>, b: anchors::AnchorV) -> bool {
    file_keys(file) matches Some(list) && list.contains(b)
}

/// Files that are all readable and right are loaded; the first that is not is named.
pub proof fn lemma_loading(start: Seq<anchors::AnchorV>, files: Seq<Option<Seq<char>>>)
    ensures
        match anchors::loaded(start, files) {
            Ok(_) => forall|i: int|
                0 <= i < files.len() ==> file_keys(#[trigger] files[i]) is Some,
            Err(anchors::LoadErrorV::Unreadable(i)) => 0 <= i < files.len() && files[i] is None,
            Err(anchors::LoadErrorV::Entry(i, _)) => 0 <= i < files.len() && files[i] is Some
                && file_keys(files[i]) is None,
        },
    decreases files.len(),
{
    if files.len() > 0 {
        let before = files.drop_last();
        lemma_loading(start, before);
        assert(forall|i: int| 0 <= i < before.len() ==> #[trigger] before[i] == files[i]);
        assert(files[files.len() - 1] == files.last());
        if anchors::loaded(start, files) is Ok {
            assert forall|i: int| 0 <= i < files.len() implies file_keys(#[trigger] files[i])
                is Some by {
                if i < before.len() {
                    assert(file_keys(before[i]) is Some);
                }
            }
        }
    }
}

/// The trust anchors that come from some files are those that were there before and those of the
/// files, none of them twice: nothing is lost and nothing else is trusted.
pub proof fn lemma_loaded_anchors(
    start: Seq<anchors::AnchorV>,
    files: Seq<Option<Seq<char>>>,
    b: anchors::AnchorV,
)
    requires
        start.no_duplicates(),
        anchors::loaded(start, files) is Ok,
    ensures
        ({
            let list = anchors::loaded(start, files)->Ok_0;
            &&& list.no_duplicates()
            &&& list.contains(b) <==> start.contains(b) || exists|i: int|
                0 <= i < files.len() && file_holds(#[trigger] files[i], b)
        }),
    decreases files.len(),
{
    if files.len() > 0 {
        let before = files.drop_last();
        lemma_loaded_anchors(start, before, b);
        let more = file_keys(files.last())->0;
        lemma_merged(anchors::loaded(start, before)->Ok_0, more, b);
        assert(forall|i: int| 0 <= i < before.len() ==> #[trigger] before[i] == files[i]);
        assert(files[files.len() - 1] == files.last());
        if exists|i: int| 0 <= i < before.len() && file_holds(#[trigger] before[i], b) {
            let i = choose|i: int| 0 <= i < before.len() && file_holds(#[trigger] before[i], b);
            assert(file_holds(files[i], b));
        }
        if exists|i: int| 0 <= i < files.len() && file_holds(#[trigger] files[i], b) {
            let i = choose|i: int| 0 <= i < files.len() && file_holds(#[trigger] files[i], b);
            if i < before.len() {
                assert(file_holds(before[i], b));
            }
        }
        if more.contains(b) {
            assert(file_holds(files[files.len() - 1], b));
        }
    }
}

pub open spec fn gives(entry: Seq<char>, b: anchors::AnchorV) -> bool {
    anchors::entry_anchor(entry) == Some(Ok::<anchors::AnchorV, anchors::AnchorErrorV>(b))
}

pub open spec fn is_wrong(entry: Seq<char>) -> bool {
    anchors::entry_anchor(entry) matches Some(r) && r is Err
}

/// A file of which one entry is wrong is refused; otherwise its keys are those of its entries,
/// none of them twice.
pub proof fn lemma_entries(entries: Seq<Seq<char>>, b: anchors::AnchorV)
    ensures
        anchors::entries_anchors(entries) is Err <==> exists|i: int|
            0 <= i < entries.len() && is_wrong(#[trigger] entries[i]),
        anchors::entries_anchors(entries) matches Ok(list) ==> list.no_duplicates() && (
        list.contains(b) <==> exists|i: int|
            0 <= i < entries.len() && gives(#[trigger] entries[i], b)),
    decreases entries.len(),
{
    if entries.len() > 0 {
        let start = entries.drop_last();
        lemma_entries(start, b);
        assert(forall|i: int| 0 <= i < start.len() ==> #[trigger] start[i] == entries[i]);
        assert(entries[entries.len() - 1] == entries.last());
        if exists|i: int| 0 <= i < start.len() && is_wrong(#[trigger] start[i]) {
            let i = choose|i: int| 0 <= i < start.len() && is_wrong(#[trigger] start[i]);
            assert(is_wrong(entries[i]));
        }
        if exists|i: int| 0 <= i < entries.len() && is_wrong(#[trigger] entries[i]) {
            let i = choose|i: int| 0 <= i < entries.len() && is_wrong(#[trigger] entries[i]);
            if i < start.len() {
                assert(is_wrong(start[i]));
            }
        }
        if exists|i: int| 0 <= i < start.len() && gives(#[trigger] start[i], b) {
            let i = choose|i: int| 0 <= i < start.len() && gives(#[trigger] start[i], b);
            assert(gives(entries[i], b));
        }
        if exists|i: int| 0 <= i < entries.len() && gives(#[trigger] entries[i], b) {
            let i = choose|i: int| 0 <= i < entries.len() && gives(#[trigger] entries[i], b);
            if i < start.len() {
                assert(gives(start[i], b));
            }
        }
        if let Ok(list) = anchors::entries_anchors(start) {
            if let Some(r) = anchors::entry_anchor(entries.last()) {
                if let Ok(a) = r {
                    lemma_with_anchor(list, a, b);
                    if b == a {
                        assert(gives(entries[entries.len() - 1], b));
                    }
                }
            }
        }
    }
}

/// The texts of a list, one behind the other.
pub open spec fn run_together(list: Seq<Seq<char>>) -> Seq<char>
    decreases list.len(),
{
    if list.len() == 0 {
        Seq::empty()
    } else {
        run_together(list.drop_last()) + list.last()
    }
}

proof fn lemma_word_state(s: Seq<char>)
    ensures
        ({
            let w = anchors::word_state(s);
            &&& run_together(w.done) + w.word == s.filter(|c: char| !text::is_white(c))
            &&& forall|i: int| 0 <= i < w.done.len() ==> (#[trigger] w.done[i]).len() > 0
            &&& s.len() > 0 && text::is_white(s.last()) ==> w.word.len() == 0
        }),
    decreases s.len(),
{
    reveal(Seq::filter);
    let f = |c: char| !text::is_white(c);
    let w = anchors::word_state(s);
    if s.len() == 0 {
        assert(run_together(w.done) + w.word =~= s.filter(f));
    } else {
        lemma_word_state(s.drop_last());
        let before = anchors::word_state(s.drop_last());
        if !text::is_white(s.last()) {
            assert(run_together(w.done) + w.word =~= (run_together(before.done)
                + before.word).push(s.last()));
        } else if before.word.len() > 0 {
            assert(w.done.drop_last() =~= before.done);
            assert(run_together(w.done) + w.word =~= run_together(before.done) + before.word);
        }
    }
}

/// The words of a text are not empty, and put together they are the text without its white space.
pub proof fn lemma_words_of_a_text(s: Seq<char>)
    ensures
        run_together(anchors::words(s)) == s.filter(|c: char| !text::is_white(c)),
        forall|i: int|
            0 <= i < anchors::words(s).len() ==> (#[trigger] anchors::words(s)[i]).len() > 0,
{
    lemma_word_state(s);
    let w = anchors::word_state(s);
    if w.word.len() > 0 {
        assert(w.done.push(w.word).drop_last() =~= w.done);
    } else {
        assert(run_together(w.done) + w.word =~= run_together(w.done));
    }
}

/// The words that give a key are put together as they stand, without anything between them.
pub proof fn lemma_joined(list: Seq<Seq<char>>)
    ensures
        anchors::joined(list) == run_together(list),
    decreases list.len(),
{
    if list.len() > 0 {
        lemma_joined(list.drop_last());
    }
}

/// An entry gives a key exactly where a word of it names the type of a key record, whatever its
/// case, and four words or more follow: numbers for the flags and the protocol, an algorithm that
/// can verify, and a key that can be used.
pub proof fn lemma_entry_anchor(entry: Seq<char>, i: int)
    requires
        ({
            let w = anchors::words(entry);
            &&& 0 <= i < w.len()
            &&& text::lower(w[i]) == text::lower("DNSKEY"@)
            &&& forall|j: int| 0 <= j < i ==> text::lower(#[trigger] w[j]) != text::lower("DNSKEY"@)
        }),
    ensures
        ({
            let w = anchors::words(entry);
            let r = anchors::entry_anchor(entry);
            &&& r is Some
            &&& w.len() < i + 5 <==> r == Some(
                Err::<anchors::AnchorV, anchors::AnchorErrorV>(
                    anchors::AnchorErrorV::TooShort(entry),
                ),
            )
            &&& r matches Some(Ok(a)) ==> {
                &&& w.len() >= i + 5
                &&& text::uint_value(w[i + 1], 65535) matches Some(flags)
                &&& text::uint_value(w[i + 2], 255) is Some
                &&& anchors::algorithm_number(w[i + 3]) == Some(a.0)
                &&& anchors::base64_bytes(run_together(w.skip(i + 4))) == Some(a.1)
                &&& rrsets::is_supported(a.0)
                &&& anchors::is_usable(
                    records::DnskeyV {
                        flags: flags as u16,
                        algorithm: a.0,
                        public_key: a.1,
                    },
                )
            }
        }),
{
    let w = anchors::words(entry);
    lemma_place(w, i);
    lemma_joined(w.skip(i + 4));
}

proof fn lemma_place(w: Seq<Seq<char>>, i: int)
    requires
        0 <= i < w.len(),
        text::lower(w[i]) == text::lower("DNSKEY"@),
        forall|j: int| 0 <= j < i ==> text::lower(#[trigger] w[j]) != text::lower("DNSKEY"@),
    ensures
        anchors::dnskey_place(w) == Some(i),
    decreases w.len(),
{
    if i > 0 {
        let rest = w.skip(1);
        assert(text::lower(w[0]) != text::lower("DNSKEY"@));
        assert forall|j: int| 0 <= j < i - 1 implies text::lower(#[trigger] rest[j]) != text::lower(
            "DNSKEY"@,
        ) by {
            assert(rest[j] == w[j + 1]);
        }
        lemma_place(rest, i - 1);
    }
}

/// A line stands for itself without what follows a semicolon; a line that leaves nothing changes
/// nothing, and a line that closes as many parentheses as are open ends an entry.
pub proof fn lemma_lines(lines: Seq<Seq<char>>)
    requires
        lines.len() > 0,
    ensures
        ({
            let before = anchors::zone_text(lines.drop_last());
            let after = anchors::zone_text(lines);
            let content = anchors::line_content(lines.last());
            let open = before.depth + anchors::count_char(content, '(');
            let closed = anchors::count_char(content, ')');
            &&& content.len() == 0 ==> after == before
            &&& content.len() > 0 && open <= closed ==> after.entries.len() == before.entries.len()
                + 1 && after.depth == 0 && after.current.len() == 0
            &&& content.len() > 0 && open > closed ==> after.entries == before.entries
                && after.depth + closed == open
            &&& forall|i: int|
                0 <= i < before.entries.len() ==> #[trigger] after.entries[i]
                    == before.entries[i]
        }),
{
}

/// An entry that is closed holds no parenthesis.
pub proof fn lemma_no_parens(s: Seq<char>)
    ensures
        anchors::without_parens(s).len() == s.len(),
        !anchors::without_parens(s).contains('('),
        !anchors::without_parens(s).contains(')'),
        forall|i: int|
            0 <= i < s.len() && s[i] != '(' && s[i] != ')' ==> #[trigger] anchors::without_parens(
                s,
            )[i] == s[i],
{
}

/// Only a name whose first label is an asterisk has a name behind it.
pub proof fn lemma_behind_asterisk(n: names::NameV)
    ensures
        names::behind_asterisk(n) is Some <==> n.len() > 0 && n[0] == seq![42u8],
        names::behind_asterisk(n) is Some ==> seq![n[0]] + names::behind_asterisk(n)->0 == n,
        names::behind_asterisk(Seq::empty()) is None,
{
    if n.len() > 0 {
        assert(seq![n[0]] + n.skip(1) =~= n);
    }
}

} // verus!
