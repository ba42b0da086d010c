//! Trust anchors, and the files that hold them.
use crate::dnssec::records;
use crate::dnssec::records::{DnsRecord, Dnskey, RecordData};
use crate::dnssec::roots;
use crate::dnssec::rrsets;
use crate::text;
use data_encoding::BASE64;
use hickory_proto::dnssec::rdata::DNSKEY;
use hickory_proto::dnssec::{Algorithm, PublicKey, PublicKeyBuf, Verifier};
use vstd::prelude::*;

verus! {

/// The set of trust anchors of hickory-proto.
#[verifier::external_type_specification]
#[verifier::external_body]
pub struct ExTrustAnchors(hickory_proto::dnssec::TrustAnchors);

/// The algorithm and the bytes of a public key.
pub type AnchorV = (u8, Seq<u8>);

/// The keys of a set of trust anchors, in the order in which they were put in.
pub uninterp spec fn anchors_of(t: hickory_proto::dnssec::TrustAnchors) -> Seq<(u8, Seq<u8>)>;

/// Whether hickory-proto can make a public key out of the data of a key record.
pub uninterp spec fn is_usable(key: records::DnskeyV) -> bool;

/// The bytes that data-encoding decodes from a text in Base64 with padding.
pub uninterp spec fn base64_bytes(s: Seq<char>) -> Option<Seq<u8>>;

/// Calls `hickory_proto::dnssec::TrustAnchors::empty`, which holds no key.
#[verifier::external_body]
fn no_anchors() -> (r: hickory_proto::dnssec::TrustAnchors)
    ensures
        anchors_of(r) == Seq::<(u8, Seq<u8>)>::empty(),
{
    hickory_proto::dnssec::TrustAnchors::empty()
}

/// Calls `hickory_proto::dnssec::TrustAnchors::default`, which holds the two key-signing keys of
/// the root zone that the crate brings along, the older one first.
#[verifier::external_body]
fn builtin_anchors() -> (r: hickory_proto::dnssec::TrustAnchors)
    ensures
        anchors_of(r) == roots::root_keys(),
{
    hickory_proto::dnssec::TrustAnchors::default()
}

/// Calls `hickory_proto::dnssec::TrustAnchors::contains`: whether a key of the set has the same
/// algorithm and the same bytes.
#[verifier::external_body]
fn holds_anchor(t: &hickory_proto::dnssec::TrustAnchors, algorithm: u8, key: &Vec<u8>) -> (r: bool)
    ensures
        r == anchors_of(*t).contains((algorithm, key@)),
{
    t.contains(&PublicKeyBuf::new(key.clone(), Algorithm::from_u8(algorithm)))
}

/// A list of keys with one more at the end, unless it is there already.
pub open spec fn with_anchor(list: Seq<AnchorV>, a: AnchorV) -> Seq<AnchorV> {
    if list.contains(a) {
        list
    } else {
        list.push(a)
    }
}

/// Calls `hickory_proto::dnssec::TrustAnchors::insert`, which adds a key unless the set has it,
/// and says whether it did.
#[verifier::external_body]
fn insert_anchor(t: &mut hickory_proto::dnssec::TrustAnchors, algorithm: u8, key: &Vec<u8>) -> (r:
    bool)
    ensures
        r == !anchors_of(*old(t)).contains((algorithm, key@)),
        anchors_of(*final(t)) == with_anchor(anchors_of(*old(t)), (algorithm, key@)),
{
    t.insert(&PublicKeyBuf::new(key.clone(), Algorithm::from_u8(algorithm)))
}

/// Calls `hickory_proto::dnssec::TrustAnchors::len`, the number of the keys.
#[verifier::external_body]
fn count_anchors(t: &hickory_proto::dnssec::TrustAnchors) -> (r: usize)
    ensures
        r == anchors_of(*t).len(),
{
    t.len()
}

/// Calls `hickory_proto::dnssec::TrustAnchors::get`: the algorithm and the bytes of the key at a
/// place, none behind the last.
#[verifier::external_body]
fn anchor_at(t: &hickory_proto::dnssec::TrustAnchors, i: usize) -> (r: Option<(u8, Vec<u8>)>)
    ensures
        (match r {
            Some(a) => Some((a.0, a.1@)),
            None => None,
        }) == (if i < anchors_of(*t).len() {
            Some(anchors_of(*t)[i as int])
        } else {
            None
        }),
{
    t.get(i).map(|k| (u8::from(k.algorithm()), k.public_bytes().to_vec()))
}

/// Calls `key` of `hickory_proto::dnssec::Verifier` on a key record: where it gives a public key,
/// that has the algorithm and the bytes of the record. Whether it does is a function of the
/// record. An algorithm that is not supported must not reach the call.
#[verifier::external_body]
fn decode_key(k: &Dnskey) -> (r: Option<(u8, Vec<u8>)>)
    requires
        rrsets::is_supported(k.algorithm),
    ensures
        (match r {
            Some(a) => Some((a.0, a.1@)),
            None => None,
        }) == (if is_usable(k@) {
            Some((k.algorithm, k.public_key@))
        } else {
            None
        }),
{
    let public_key = PublicKeyBuf::new(k.public_key.clone(), Algorithm::from_u8(k.algorithm));
    let key = DNSKEY::with_flags(k.flags, public_key);
    let decoded = key.key().ok()?;
    Some((u8::from(decoded.algorithm()), decoded.public_bytes().to_vec()))
}

/// Calls `decode` of `data_encoding::BASE64` on the bytes of a text. The result is a function of
/// the text.
#[verifier::external_body]
fn decode_base64(s: &str) -> (r: Option<Vec<u8>>)
    ensures
        (match r {
            Some(b) => Some(b@),
            None => None,
        }) == base64_bytes(s@),
{
    BASE64.decode(s.as_bytes()).ok()
}

/// The keys that are trusted without a signature.
pub struct AnchorSet {
    inner: hickory_proto::dnssec::TrustAnchors,
}

impl View for AnchorSet {
    type V = Seq<(u8, Seq<u8>)>;

    closed spec fn view(&self) -> Seq<(u8, Seq<u8>)> {
        anchors_of(self.inner)
    }
}

impl AnchorSet {
    /// No keys.
    pub fn empty() -> (r: Self)
        ensures
            r@ == Seq::<(u8, Seq<u8>)>::empty(),
    {
        AnchorSet { inner: no_anchors() }
    }

    /// Whether a key is trusted.
    pub fn contains(&self, algorithm: u8, key: &Vec<u8>) -> (r: bool)
        ensures
            r == self@.contains((algorithm, key@)),
    {
        holds_anchor(&self.inner, algorithm, key)
    }

    /// Adds a key unless it is there, and says whether it was added.
    pub fn insert(&mut self, algorithm: u8, key: &Vec<u8>) -> (r: bool)
        ensures
            r == !old(self)@.contains((algorithm, key@)),
            final(self)@ == with_anchor(old(self)@, (algorithm, key@)),
    {
        insert_anchor(&mut self.inner, algorithm, key)
    }

    /// The number of keys.
    pub fn len(&self) -> (r: usize)
        ensures
            r == self@.len(),
    {
        count_anchors(&self.inner)
    }

    /// The key at a place.
    pub fn get(&self, i: usize) -> (r: Option<(u8, Vec<u8>)>)
        ensures
            (match r {
                Some(a) => Some((a.0, a.1@)),
                None => None,
            }) == (if i < self@.len() {
                Some(self@[i as int])
            } else {
                None
            }),
    {
        anchor_at(&self.inner, i)
    }
}

/// The keys of the root zone that are known without a file.
pub fn root_trust_anchors() -> (r: AnchorSet)
    ensures
        r@ == roots::root_keys(),
{
    AnchorSet { inner: builtin_anchors() }
}

/// Whether a record is a key that is trusted.
pub open spec fn is_anchored(r: records::RecordV, anchors: Seq<AnchorV>) -> bool {
    match r.data {
        records::DataV::Dnskey(k) => rrsets::is_supported(k.algorithm) && is_usable(k)
            && anchors.contains((k.algorithm, k.public_key)),
        _ => false,
    }
}

/// Whether one of the keys is trusted.
pub open spec fn matches_anchors(list: Seq<records::RecordV>, anchors: Seq<AnchorV>) -> bool {
    exists|i: int| 0 <= i < list.len() && is_anchored(#[trigger] list[i], anchors)
}

/// A public key that can be used, of a supported algorithm.
pub fn usable_key(k: &Dnskey) -> (r: Option<(u8, Vec<u8>)>)
    ensures
        (match r {
            Some(a) => Some((a.0, a.1@)),
            None => None,
        }) == (if rrsets::is_supported(k.algorithm) && is_usable(k@) {
            Some((k.algorithm, k.public_key@))
        } else {
            None
        }),
{
    let a = k.algorithm;
    if a == 5 || a == 7 || a == 8 || a == 10 || a == 13 || a == 14 || a == 15 {
        decode_key(k)
    } else {
        None
    }
}

/// Whether one of the keys of a zone is a trust anchor.
pub fn dnskey_rrset_matches_trust_anchors(
    dnskey_records: &Vec<DnsRecord>,
    trust_anchors: &AnchorSet,
) -> (r: bool)
    ensures
        r == matches_anchors(records::views(dnskey_records@), trust_anchors@),
{
    let ghost all = records::views(dnskey_records@);
    let mut i: usize = 0;
    while i < dnskey_records.len()
        invariant
            i <= dnskey_records@.len(),
            all == records::views(dnskey_records@),
            forall|k: int| 0 <= k < i ==> !is_anchored(#[trigger] all[k], trust_anchors@),
        decreases dnskey_records@.len() - i,
    {
        assert(all[i as int] == dnskey_records@[i as int]@);
        if let RecordData::Dnskey(k) = &dnskey_records[i].data {
            if let Some(key) = usable_key(k) {
                if trust_anchors.contains(key.0, &key.1) {
                    assert(is_anchored(all[i as int], trust_anchors@));
                    return true;
                }
            }
        }
        i = i + 1;
    }
    false
}

/// A line without its comment and the blanks around it.
pub open spec fn line_content(line: Seq<char>) -> Seq<char> {
    text::trim(text::split(line, ';')[0])
}

pub open spec fn count_char(s: Seq<char>, c: char) -> nat
    decreases s.len(),
{
    if s.len() == 0 {
        0
    } else {
        count_char(s.drop_last(), c) + (if s.last() == c {
            1nat
        } else {
            0
        })
    }
}

/// A text with blanks in place of its parentheses.
pub open spec fn without_parens(s: Seq<char>) -> Seq<char> {
    s.map_values(
        |c: char|
            if c == '(' || c == ')' {
                ' '
            } else {
                c
            },
    )
}

/// The entries that are complete, the text of the one that is not, and the number of its
/// parentheses that are open.
pub ghost struct ZoneText {
    pub entries: Seq<Seq<char>>,
    pub current: Seq<char>,
    pub depth: nat,
}

pub open spec fn zone_step(z: ZoneText, content: Seq<char>) -> ZoneText {
    if content.len() == 0 {
        z
    } else {
        let current = if z.current.len() > 0 {
            z.current.push(' ') + content
        } else {
            z.current + content
        };
        let opened = z.depth + count_char(content, '(');
        let closed = count_char(content, ')');
        if opened <= closed {
            ZoneText {
                entries: z.entries.push(without_parens(current)),
                current: Seq::empty(),
                depth: 0,
            }
        } else {
            ZoneText { entries: z.entries, current, depth: (opened - closed) as nat }
        }
    }
}

pub open spec fn zone_text(lines: Seq<Seq<char>>) -> ZoneText
    decreases lines.len(),
{
    if lines.len() == 0 {
        ZoneText { entries: Seq::empty(), current: Seq::empty(), depth: 0 }
    } else {
        zone_step(zone_text(lines.drop_last()), line_content(lines.last()))
    }
}

/// The entries of a zone file, one to a line or spread over lines between parentheses.
pub open spec fn zone_entries(raw: Seq<char>) -> Seq<Seq<char>> {
    let z = zone_text(text::split(raw, '\n'));
    if text::trim(z.current).len() > 0 {
        z.entries.push(without_parens(z.current))
    } else {
        z.entries
    }
}

fn count_of(s: &[char], c: char) -> (r: usize)
    ensures
        r == count_char(s@, c),
{
    let mut n: usize = 0;
    let mut i: usize = 0;
    assert(s@.take(0).len() == 0);
    while i < s.len()
        invariant
            i <= s@.len(),
            n <= i,
            n == count_char(s@.take(i as int), c),
        decreases s@.len() - i,
    {
        assert(s@.take(i + 1).drop_last() =~= s@.take(i as int));
        assert(s@.take(i + 1).last() == s@[i as int]);
        if s[i] == c {
            n = n + 1;
        }
        i = i + 1;
    }
    assert(s@.take(i as int) =~= s@);
    n
}

fn blank_parens(s: &Vec<char>) -> (r: String)
    ensures
        r@ == without_parens(s@),
{
    let mut out: Vec<char> = Vec::new();
    let mut i: usize = 0;
    while i < s.len()
        invariant
            i <= s@.len(),
            out@ == without_parens(s@).take(i as int),
        decreases s@.len() - i,
    {
        if s[i] == '(' || s[i] == ')' {
            out.push(' ');
        } else {
            out.push(s[i]);
        }
        assert(out@ =~= without_parens(s@).take(i + 1));
        i = i + 1;
    }
    assert(without_parens(s@).take(i as int) =~= without_parens(s@));
    text::string_of(out.as_slice())
}

fn append_chars(out: &mut Vec<char>, more: &Vec<char>)
    ensures
        final(out)@ == old(out)@ + more@,
{
    let ghost start = out@;
    let mut i: usize = 0;
    assert(start + more@.take(0) =~= start);
    while i < more.len()
        invariant
            i <= more@.len(),
            start == old(out)@,
            out@ == start + more@.take(i as int),
        decreases more@.len() - i,
    {
        out.push(more[i]);
        assert(out@ =~= start + more@.take(i + 1));
        i = i + 1;
    }
    assert(more@.take(i as int) =~= more@);
}

/// The entries of a zone file.
pub fn logical_zone_lines(raw: &str) -> (r: Vec<String>)
    ensures
        text::views(r@) == zone_entries(raw@),
{
    let chars = text::chars_of(raw);
    let lines = text::split_chars(chars.as_slice(), '\n');
    let ghost all = text::char_views(lines@);
    let mut entries: Vec<String> = Vec::new();
    let mut current: Vec<char> = Vec::new();
    let mut depth: u128 = 0;
    let mut i: usize = 0;
    assert(text::views(entries@) =~= Seq::empty());
    assert(current@ =~= Seq::empty());
    assert(all.take(0).len() == 0);
    while i < lines.len()
        invariant
            i <= lines@.len(),
            all == text::char_views(lines@),
            zone_text(all.take(i as int)) == (ZoneText {
                entries: text::views(entries@),
                current: current@,
                depth: depth as nat,
            }),
            depth <= i * 0xFFFF_FFFF_FFFF_FFFF,
        decreases lines@.len() - i,
    {
        let ghost before = text::views(entries@);
        assert(all[i as int] == lines@[i as int]@);
        assert(all.take(i + 1).drop_last() =~= all.take(i as int));
        assert(all.take(i + 1).last() == all[i as int]);
        let parts = text::split_chars(lines[i].as_slice(), ';');
        assert(text::char_views(parts@)[0] == parts@[0]@);
        let content = text::trim_chars(parts[0].as_slice());
        assert(content@ == line_content(all[i as int]));
        if content.len() > 0 {
            if current.len() > 0 {
                current.push(' ');
            }
            append_chars(&mut current, &content);
            let opened: u128 = depth + count_of(content.as_slice(), '(') as u128;
            let closed: u128 = count_of(content.as_slice(), ')') as u128;
            if opened <= closed {
                let entry = blank_parens(&current);
                entries.push(entry);
                assert(text::views(entries@) =~= before.push(entry@));
                current = Vec::new();
                assert(current@ =~= Seq::empty());
                depth = 0;
            } else {
                depth = opened - closed;
            }
        }
        i = i + 1;
    }
    assert(all.take(i as int) =~= all);
    let rest = text::trim_chars(current.as_slice());
    if rest.len() > 0 {
        let ghost before = text::views(entries@);
        let entry = blank_parens(&current);
        entries.push(entry);
        assert(text::views(entries@) =~= before.push(entry@));
    }
    entries
}

pub ghost struct Words {
    pub done: Seq<Seq<char>>,
    pub word: Seq<char>,
}

pub open spec fn word_state(s: Seq<char>) -> Words
    decreases s.len(),
{
    if s.len() == 0 {
        Words { done: Seq::empty(), word: Seq::empty() }
    } else {
        let w = word_state(s.drop_last());
        if !text::is_white(s.last()) {
            Words { done: w.done, word: w.word.push(s.last()) }
        } else if w.word.len() > 0 {
            Words { done: w.done.push(w.word), word: Seq::empty() }
        } else {
            w
        }
    }
}

/// The words of a text, between blanks.
pub open spec fn words(s: Seq<char>) -> Seq<Seq<char>> {
    let w = word_state(s);
    if w.word.len() > 0 {
        w.done.push(w.word)
    } else {
        w.done
    }
}

/// The words of a text.
pub fn split_words(s: &str) -> (r: Vec<String>)
    ensures
        text::views(r@) == words(s@),
{
    let chars = text::chars_of(s);
    let mut done: Vec<String> = Vec::new();
    let mut word: Vec<char> = Vec::new();
    let mut i: usize = 0;
    assert(text::views(done@) =~= Seq::empty());
    assert(word@ =~= Seq::empty());
    assert(chars@.take(0).len() == 0);
    while i < chars.len()
        invariant
            i <= chars@.len(),
            word_state(chars@.take(i as int)) == (Words {
                done: text::views(done@),
                word: word@,
            }),
        decreases chars@.len() - i,
    {
        let ghost before = text::views(done@);
        assert(chars@.take(i + 1).drop_last() =~= chars@.take(i as int));
        assert(chars@.take(i + 1).last() == chars@[i as int]);
        if !text::white(chars[i]) {
            word.push(chars[i]);
        } else if word.len() > 0 {
            let w = text::string_of(word.as_slice());
            done.push(w);
            assert(text::views(done@) =~= before.push(w@));
            word = Vec::new();
            assert(word@ =~= Seq::empty());
        }
        i = i + 1;
    }
    assert(chars@.take(i as int) =~= chars@);
    if word.len() > 0 {
        let ghost before = text::views(done@);
        let w = text::string_of(word.as_slice());
        done.push(w);
        assert(text::views(done@) =~= before.push(w@));
    }
    done
}

/// The number of an algorithm that is given by its name or its number.
pub open spec fn algorithm_number(value: Seq<char>) -> Option<u8> {
    let s = text::upper(text::trim(value));
    if s == "RSAMD5"@ {
        Some(1u8)
    } else if s == "DSA"@ {
        Some(3u8)
    } else if s == "RSASHA1"@ {
        Some(5u8)
    } else if s == "RSASHA1-NSEC3-SHA1"@ {
        Some(7u8)
    } else if s == "RSASHA256"@ {
        Some(8u8)
    } else if s == "RSASHA512"@ {
        Some(10u8)
    } else if s == "ECDSAP256SHA256"@ {
        Some(13u8)
    } else if s == "ECDSAP384SHA384"@ {
        Some(14u8)
    } else if s == "ED25519"@ {
        Some(15u8)
    } else {
        match text::uint_value(s, 255) {
            Some(n) => Some(n as u8),
            None => None,
        }
    }
}

/// Reads the number of an algorithm.
pub fn parse_dnskey_algorithm(value: &str) -> (r: Option<u8>)
    ensures
        r == algorithm_number(value@),
{
    let normalized = text::to_upper(text::trimmed(value).as_str());
    let s = normalized.as_str();
    if text::same(s, "RSAMD5") {
        Some(1)
    } else if text::same(s, "DSA") {
        Some(3)
    } else if text::same(s, "RSASHA1") {
        Some(5)
    } else if text::same(s, "RSASHA1-NSEC3-SHA1") {
        Some(7)
    } else if text::same(s, "RSASHA256") {
        Some(8)
    } else if text::same(s, "RSASHA512") {
        Some(10)
    } else if text::same(s, "ECDSAP256SHA256") {
        Some(13)
    } else if text::same(s, "ECDSAP384SHA384") {
        Some(14)
    } else if text::same(s, "ED25519") {
        Some(15)
    } else {
        match text::parse_uint(text::chars_of(s).as_slice(), 255) {
            Some(n) => Some(n as u8),
            None => None,
        }
    }
}

/// What is wrong with an entry of a file of trust anchors. The first four carry the entry.
#[derive(Debug)]
pub enum AnchorError {
    TooShort(String),
    Flags(String),
    Protocol(String),
    Algorithm(String),
    PublicKey,
    Unsupported,
}

pub ghost enum AnchorErrorV {
    TooShort(Seq<char>),
    Flags(Seq<char>),
    Protocol(Seq<char>),
    Algorithm(Seq<char>),
    PublicKey,
    Unsupported,
}

impl View for AnchorError {
    type V = AnchorErrorV;

    open spec fn view(&self) -> AnchorErrorV {
        match *self {
            AnchorError::TooShort(s) => AnchorErrorV::TooShort(s@),
            AnchorError::Flags(s) => AnchorErrorV::Flags(s@),
            AnchorError::Protocol(s) => AnchorErrorV::Protocol(s@),
            AnchorError::Algorithm(s) => AnchorErrorV::Algorithm(s@),
            AnchorError::PublicKey => AnchorErrorV::PublicKey,
            AnchorError::Unsupported => AnchorErrorV::Unsupported,
        }
    }
}

/// The place of the first word that names the type of a key record.
pub open spec fn dnskey_place(list: Seq<Seq<char>>) -> Option<int>
    decreases list.len(),
{
    if list.len() == 0 {
        None
    } else if text::lower(list[0]) == text::lower("DNSKEY"@) {
        Some(0)
    } else {
        match dnskey_place(list.skip(1)) {
            Some(i) => Some(i + 1),
            None => None,
        }
    }
}

pub open spec fn joined(list: Seq<Seq<char>>) -> Seq<char>
    decreases list.len(),
{
    if list.len() == 0 {
        Seq::empty()
    } else {
        joined(list.drop_last()) + list.last()
    }
}

/// The key that the words of an entry give, nothing where it is no key record.
pub open spec fn entry_anchor(entry: Seq<char>) -> Option<Result<AnchorV, AnchorErrorV>> {
    let w = words(entry);
    match dnskey_place(w) {
        None => None,
        Some(i) => Some(
            if w.len() < i + 5 {
                Err(AnchorErrorV::TooShort(entry))
            } else {
                match (
                    text::uint_value(w[i + 1], 0xffff),
                    text::uint_value(w[i + 2], 0xff),
                    algorithm_number(w[i + 3]),
                    base64_bytes(joined(w.skip(i + 4))),
                ) {
                    (None, _, _, _) => Err(AnchorErrorV::Flags(entry)),
                    (_, None, _, _) => Err(AnchorErrorV::Protocol(entry)),
                    (_, _, None, _) => Err(AnchorErrorV::Algorithm(entry)),
                    (_, _, _, None) => Err(AnchorErrorV::PublicKey),
                    (Some(flags), Some(_), Some(algorithm), Some(key)) => if rrsets::is_supported(
                        algorithm,
                    ) && is_usable(
                        records::DnskeyV { flags: flags as u16, algorithm, public_key: key },
                    ) {
                        Ok((algorithm, key))
                    } else {
                        Err(AnchorErrorV::Unsupported)
                    },
                }
            },
        ),
    }
}

/// The keys of a list of entries, each once; the first entry that is wrong is an error.
pub open spec fn entries_anchors(entries: Seq<Seq<char>>) -> Result<Seq<AnchorV>, AnchorErrorV>
    decreases entries.len(),
{
    if entries.len() == 0 {
        Ok(Seq::empty())
    } else {
        match entries_anchors(entries.drop_last()) {
            Err(e) => Err(e),
            Ok(list) => match entry_anchor(entries.last()) {
                None => Ok(list),
                Some(Err(e)) => Err(e),
                Some(Ok(a)) => Ok(with_anchor(list, a)),
            },
        }
    }
}

pub open spec fn anchors_result(r: Result<AnchorSet, AnchorError>) -> Result<
    Seq<AnchorV>,
    AnchorErrorV,
> {
    match r {
        Ok(t) => Ok(t@),
        Err(e) => Err(e@),
    }
}

fn find_dnskey(list: &Vec<String>) -> (r: Option<usize>)
    ensures
        (match r {
            Some(i) => Some(i as int),
            None => None,
        }) == dnskey_place(text::views(list@)),
        r matches Some(i) ==> i < list@.len(),
{
    let ghost all = text::views(list@);
    let mut i: usize = 0;
    assert(all.skip(0) =~= all);
    while i < list.len()
        invariant
            i <= list@.len(),
            all == text::views(list@),
            dnskey_place(all) == (match dnskey_place(all.skip(i as int)) {
                Some(k) => Some(k + i),
                None => None,
            }),
        decreases list@.len() - i,
    {
        assert(all.skip(i as int)[0] == list@[i as int]@);
        assert(all.skip(i as int).skip(1) =~= all.skip(i + 1));
        if text::same_fold(list[i].as_str(), "DNSKEY") {
            return Some(i);
        }
        i = i + 1;
    }
    None
}

fn join_from(list: &Vec<String>, start: usize) -> (r: String)
    requires
        start <= list@.len(),
    ensures
        r@ == joined(text::views(list@).skip(start as int)),
{
    let ghost rest = text::views(list@).skip(start as int);
    let mut out = String::new();
    let mut i: usize = start;
    assert(rest.take(0).len() == 0);
    assert(out@ =~= Seq::empty());
    while i < list.len()
        invariant
            start <= i <= list@.len(),
            rest == text::views(list@).skip(start as int),
            out@ == joined(rest.take(i - start)),
        decreases list@.len() - i,
    {
        assert(rest[i - start] == list@[i as int]@);
        assert(rest.take(i + 1 - start).drop_last() =~= rest.take(i - start));
        assert(rest.take(i + 1 - start).last() == rest[i - start]);
        out.append(list[i].as_str());
        i = i + 1;
    }
    assert(rest.take(i - start) =~= rest);
    out
}

fn read_entry(entry: &String) -> (r: Option<Result<(u8, Vec<u8>), AnchorError>>)
    ensures
        (match r {
            Some(Ok(a)) => Some(Ok((a.0, a.1@))),
            Some(Err(e)) => Some(Err(e@)),
            None => None,
        }) == entry_anchor(entry@),
{
    let w = split_words(entry.as_str());
    let ghost all = text::views(w@);
    let n: usize = w.len();
    let i = match find_dnskey(&w) {
        Some(i) => i,
        None => return None,
    };
    if n - i < 5 {
        return Some(Err(AnchorError::TooShort(entry.clone())));
    }
    assert(all[i + 1] == w@[i + 1]@ && all[i + 2] == w@[i + 2]@ && all[i + 3] == w@[i + 3]@);
    let flags = match text::parse_uint(text::chars_of(w[i + 1].as_str()).as_slice(), 0xffff) {
        Some(n) => n,
        None => return Some(Err(AnchorError::Flags(entry.clone()))),
    };
    match text::parse_uint(text::chars_of(w[i + 2].as_str()).as_slice(), 0xff) {
        Some(_) => {},
        None => return Some(Err(AnchorError::Protocol(entry.clone()))),
    }
    let algorithm = match parse_dnskey_algorithm(w[i + 3].as_str()) {
        Some(a) => a,
        None => return Some(Err(AnchorError::Algorithm(entry.clone()))),
    };
    let public_key = match decode_base64(join_from(&w, i + 4).as_str()) {
        Some(k) => k,
        None => return Some(Err(AnchorError::PublicKey)),
    };
    match usable_key(&Dnskey { flags: flags as u16, algorithm, public_key }) {
        Some(a) => Some(Ok(a)),
        None => Some(Err(AnchorError::Unsupported)),
    }
}

/// Reads the keys out of a file of trust anchors.
pub fn parse_trust_anchors(raw: &str) -> (r: Result<AnchorSet, AnchorError>)
    ensures
        anchors_result(r) == entries_anchors(zone_entries(raw@)),
{
    let entries = logical_zone_lines(raw);
    let ghost all = text::views(entries@);
    let mut anchors = AnchorSet::empty();
    let mut i: usize = 0;
    assert(all.take(0).len() == 0);
    while i < entries.len()
        invariant
            i <= entries@.len(),
            all == text::views(entries@),
            all == zone_entries(raw@),
            entries_anchors(all.take(i as int)) == Ok::<Seq<AnchorV>, AnchorErrorV>(anchors@),
        decreases entries@.len() - i,
    {
        assert(all[i as int] == entries@[i as int]@);
        assert(all.take(i + 1).drop_last() =~= all.take(i as int));
        assert(all.take(i + 1).last() == all[i as int]);
        match read_entry(&entries[i]) {
            None => {},
            Some(Ok(a)) => {
                anchors.insert(a.0, &a.1);
            },
            Some(Err(e)) => {
                proof {
                    lemma_entries_error(all, i + 1);
                }
                return Err(e);
            },
        }
        i = i + 1;
    }
    assert(all.take(i as int) =~= all);
    Ok(anchors)
}

proof fn lemma_entries_error(entries: Seq<Seq<char>>, i: int)
    requires
        0 <= i <= entries.len(),
        entries_anchors(entries.take(i)) is Err,
    ensures
        entries_anchors(entries) == entries_anchors(entries.take(i)),
    decreases entries.len() - i,
{
    if i < entries.len() {
        assert(entries.take(i + 1).drop_last() =~= entries.take(i));
        lemma_entries_error(entries, i + 1);
    } else {
        assert(entries.take(i) =~= entries);
    }
}

/// Why the trust anchors cannot be had: a file by its place that cannot be read, or one with an
/// entry that is wrong.
#[derive(Debug)]
pub enum LoadError {
    Unreadable(usize),
    Entry(usize, AnchorError),
}

pub ghost enum LoadErrorV {
    Unreadable(int),
    Entry(int, AnchorErrorV),
}

impl View for LoadError {
    type V = LoadErrorV;

    open spec fn view(&self) -> LoadErrorV {
        match *self {
            LoadError::Unreadable(i) => LoadErrorV::Unreadable(i as int),
            LoadError::Entry(i, e) => LoadErrorV::Entry(i as int, e@),
        }
    }
}

/// One list of keys with those of another added, each once.
pub open spec fn merged(list: Seq<AnchorV>, more: Seq<AnchorV>) -> Seq<AnchorV>
    decreases more.len(),
{
    if more.len() == 0 {
        list
    } else {
        with_anchor(merged(list, more.drop_last()), more.last())
    }
}

pub open spec fn file_views(files: Seq<Option<String>>) -> Seq<Option<Seq<char>>> {
    files.map_values(
        |f: Option<String>|
            match f {
                Some(s) => Some(s@),
                None => None,
            },
    )
}

/// The keys that there are at the start with those of the files, in their order.
pub open spec fn loaded(start: Seq<AnchorV>, files: Seq<Option<Seq<char>>>) -> Result<
    Seq<AnchorV>,
    LoadErrorV,
>
    decreases files.len(),
{
    if files.len() == 0 {
        Ok(start)
    } else {
        match loaded(start, files.drop_last()) {
            Err(e) => Err(e),
            Ok(list) => match files.last() {
                None => Err(LoadErrorV::Unreadable(files.len() - 1)),
                Some(raw) => match entries_anchors(zone_entries(raw)) {
                    Err(e) => Err(LoadErrorV::Entry(files.len() - 1, e)),
                    Ok(more) => Ok(merged(list, more)),
                },
            },
        }
    }
}

pub open spec fn load_result(r: Result<AnchorSet, LoadError>) -> Result<
    Seq<AnchorV>,
    LoadErrorV,
> {
    match r {
        Ok(t) => Ok(t@),
        Err(e) => Err(e@),
    }
}

proof fn lemma_loaded_error(start: Seq<AnchorV>, files: Seq<Option<Seq<char>>>, i: int)
    requires
        0 <= i <= files.len(),
        loaded(start, files.take(i)) is Err,
    ensures
        loaded(start, files) == loaded(start, files.take(i)),
    decreases files.len() - i,
{
    if i < files.len() {
        assert(files.take(i + 1).drop_last() =~= files.take(i));
        lemma_loaded_error(start, files, i + 1);
    } else {
        assert(files.take(i) =~= files);
    }
}

fn add_all(anchors: &mut AnchorSet, more: &AnchorSet)
    ensures
        final(anchors)@ == merged(old(anchors)@, more@),
{
    let ghost start = anchors@;
    let n = more.len();
    let mut i: usize = 0;
    assert(more@.take(0).len() == 0);
    while i < n
        invariant
            i <= n,
            n == more@.len(),
            start == old(anchors)@,
            anchors@ == merged(start, more@.take(i as int)),
        decreases n - i,
    {
        assert(more@.take(i + 1).drop_last() =~= more@.take(i as int));
        assert(more@.take(i + 1).last() == more@[i as int]);
        if let Some(a) = more.get(i) {
            anchors.insert(a.0, &a.1);
        }
        i = i + 1;
    }
    assert(more@.take(i as int) =~= more@);
}

/// Puts together the trust anchors out of the built-in keys, where they are wanted, and the texts
/// of files. A file that could not be read is `None`.
pub fn load_trust_anchors(use_builtin_trust_anchors: bool, files: &Vec<Option<String>>) -> (r:
    Result<AnchorSet, LoadError>)
    ensures
        load_result(r) == loaded(
            (if use_builtin_trust_anchors {
                roots::root_keys()
            } else {
                Seq::empty()
            }),
            file_views(files@),
        ),
{
    let mut anchors = if use_builtin_trust_anchors {
        root_trust_anchors()
    } else {
        AnchorSet::empty()
    };
    let ghost start = anchors@;
    let ghost all = file_views(files@);
    let mut i: usize = 0;
    assert(all.take(0).len() == 0);
    while i < files.len()
        invariant
            i <= files@.len(),
            all == file_views(files@),
            start == (if use_builtin_trust_anchors {
                roots::root_keys()
            } else {
                Seq::empty()
            }),
            loaded(start, all.take(i as int)) == Ok::<Seq<AnchorV>, LoadErrorV>(anchors@),
        decreases files@.len() - i,
    {
        assert(all.take(i + 1).drop_last() =~= all.take(i as int));
        assert(all.take(i + 1).last() == all[i as int]);
        assert(all.take(i + 1).len() - 1 == i);
        match &files[i] {
            None => {
                proof {
                    lemma_loaded_error(start, all, i + 1);
                }
                return Err(LoadError::Unreadable(i));
            },
            Some(raw) => match parse_trust_anchors(raw.as_str()) {
                Err(e) => {
                    proof {
                        lemma_loaded_error(start, all, i + 1);
                    }
                    return Err(LoadError::Entry(i, e));
                },
                Ok(more) => {
                    add_all(&mut anchors, &more);
                },
            },
        }
        i = i + 1;
    }
    assert(all.take(i as int) =~= all);
    Ok(anchors)
}

/// What is said of an entry of a file that is refused.
pub open spec fn entry_message(e: AnchorErrorV, path: Seq<char>) -> Seq<char> {
    match e {
        AnchorErrorV::TooShort(s) => "invalid DNSKEY trust anchor line in "@ + path + ": "@ + s,
        AnchorErrorV::Flags(s) => "invalid DNSKEY flags in "@ + path + ": "@ + s,
        AnchorErrorV::Protocol(s) => "invalid DNSKEY protocol in "@ + path + ": "@ + s,
        AnchorErrorV::Algorithm(s) => "invalid DNSKEY algorithm in "@ + path + ": "@ + s,
        AnchorErrorV::PublicKey => "invalid DNSKEY public key in "@ + path,
        AnchorErrorV::Unsupported => "unsupported DNSKEY public key in "@ + path,
    }
}

fn with_entry(what: &str, path: &str, entry: &str) -> (r: String)
    ensures
        r@ == what@ + path@ + ": "@ + entry@,
{
    let mut s = text::concat(what, path);
    s.append(": ");
    s.append(entry);
    s
}

impl AnchorError {
    /// What is said of an entry of a file that is refused.
    pub fn message(&self, path: &str) -> (r: String)
        ensures
            r@ == entry_message(self@, path@),
    {
        match self {
            AnchorError::TooShort(s) => {
                with_entry("invalid DNSKEY trust anchor line in ", path, s.as_str())
            },
            AnchorError::Flags(s) => with_entry("invalid DNSKEY flags in ", path, s.as_str()),
            AnchorError::Protocol(s) => with_entry("invalid DNSKEY protocol in ", path, s.as_str()),
            AnchorError::Algorithm(s) => {
                with_entry("invalid DNSKEY algorithm in ", path, s.as_str())
            },
            AnchorError::PublicKey => text::concat("invalid DNSKEY public key in ", path),
            AnchorError::Unsupported => text::concat("unsupported DNSKEY public key in ", path),
        }
    }
}

/// What is said of files of which one is refused; nothing where it is not among the paths.
pub open spec fn load_message(e: LoadErrorV, paths: Seq<Seq<char>>) -> Option<Seq<char>> {
    match e {
        LoadErrorV::Unreadable(i) => if i < paths.len() {
            Some("failed to read trust anchor file: "@ + paths[i])
        } else {
            None
        },
        LoadErrorV::Entry(i, entry) => if i < paths.len() {
            Some(entry_message(entry, paths[i]))
        } else {
            None
        },
    }
}

impl LoadError {
    /// What is said of files of which one is refused.
    pub fn message(&self, paths: &Vec<String>) -> (r: Option<String>)
        ensures
            (match r {
                Some(s) => Some(s@),
                None => None,
            }) == load_message(self@, text::views(paths@)),
    {
        match self {
            LoadError::Unreadable(i) => if *i < paths.len() {
                Some(text::concat("failed to read trust anchor file: ", paths[*i].as_str()))
            } else {
                None
            },
            LoadError::Entry(i, entry) => if *i < paths.len() {
                Some(entry.message(paths[*i].as_str()))
            } else {
                None
            },
        }
    }
}

} // verus!
