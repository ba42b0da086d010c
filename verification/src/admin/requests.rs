//! Decisions on requests: who may ask, what a failure is called, which log files are shown.
use crate::text;
use vstd::prelude::*;

verus! {

/// Whether `part` stands somewhere in `s`.
pub open spec fn contains_text(s: Seq<char>, part: Seq<char>) -> bool {
    exists|i: int|
        0 <= i <= s.len() - part.len() && #[trigger] s.subrange(i, i + part.len()) == part
}

fn matches_at(s: &Vec<char>, i: usize, part: &Vec<char>) -> (r: bool)
    requires
        i + part@.len() <= s@.len(),
    ensures
        r == (s@.subrange(i as int, i + part@.len()) == part@),
{
    let n: usize = s.len();
    let mut k: usize = 0;
    while k < part.len()
        invariant
            k <= part@.len(),
            n == s@.len(),
            i + part@.len() <= n,
            forall|j: int| 0 <= j < k ==> s@[i + j] == #[trigger] part@[j],
        decreases part@.len() - k,
    {
        if s[i + k] != part[k] {
            assert(s@.subrange(i as int, i + part@.len())[k as int] != part@[k as int]);
            return false;
        }
        k = k + 1;
    }
    assert(s@.subrange(i as int, i + part@.len()) =~= part@);
    true
}

/// Whether `part` stands somewhere in `s`.
pub fn has_text(s: &str, part: &str) -> (r: bool)
    ensures
        r == contains_text(s@, part@),
{
    let all = text::chars_of(s);
    let wanted = text::chars_of(part);
    if wanted.len() > all.len() {
        return false;
    }
    let last: usize = all.len() - wanted.len();
    let mut i: usize = 0;
    loop
        invariant
            all@ == s@,
            wanted@ == part@,
            last + part@.len() == s@.len(),
            i <= last,
            forall|k: int| 0 <= k < i ==> #[trigger] s@.subrange(k, k + part@.len()) != part@,
        decreases last - i,
    {
        if matches_at(&all, i, &wanted) {
            return true;
        }
        if i == last {
            return false;
        }
        i = i + 1;
    }
}

/// What kind of failure the message of a failed reload tells of.
#[derive(Debug, Clone, Copy, PartialEq, Eq, Structural)]
pub enum ReloadFailure {
    ReadError,
    ParseError,
    InvalidConfig,
    BuildError,
    Other,
}

pub open spec fn reload_failure(message: Seq<char>) -> ReloadFailure {
    let m = text::lower(message);
    if contains_text(m, "failed to read config file"@) {
        ReloadFailure::ReadError
    } else if contains_text(m, "failed to parse config file"@) {
        ReloadFailure::ParseError
    } else if contains_text(m, "invalid config"@) {
        ReloadFailure::InvalidConfig
    } else if contains_text(m, "policy"@) || contains_text(m, "resolver"@) {
        ReloadFailure::BuildError
    } else {
        ReloadFailure::Other
    }
}

impl ReloadFailure {
    pub open spec fn label(self) -> Seq<char> {
        match self {
            ReloadFailure::ReadError => "read_error"@,
            ReloadFailure::ParseError => "parse_error"@,
            ReloadFailure::InvalidConfig => "invalid_config"@,
            ReloadFailure::BuildError => "build_error"@,
            ReloadFailure::Other => "other"@,
        }
    }
}

/// The name of the kind of failure that a message tells of.
pub fn classify_reload_error(message: &str) -> (r: &'static str)
    ensures
        r@ == reload_failure(message@).label(),
{
    let m = text::to_lower(message);
    let m = m.as_str();
    if has_text(m, "failed to read config file") {
        "read_error"
    } else if has_text(m, "failed to parse config file") {
        "parse_error"
    } else if has_text(m, "invalid config") {
        "invalid_config"
    } else if has_text(m, "policy") || has_text(m, "resolver") {
        "build_error"
    } else {
        "other"
    }
}

/// The rest of a text behind a prefix.
pub open spec fn after_prefix(s: Seq<char>, prefix: Seq<char>) -> Option<Seq<char>> {
    if s.len() >= prefix.len() && s.take(prefix.len() as int) == prefix {
        Some(s.skip(prefix.len() as int))
    } else {
        None
    }
}

/// The rest of a text behind a prefix.
pub fn strip_prefix(s: &str, prefix: &str) -> (r: Option<String>)
    ensures
        after_prefix(s@, prefix@) == (match r {
            Some(t) => Some(t@),
            None => None,
        }),
{
    let all = text::chars_of(s);
    let head = text::chars_of(prefix);
    if all.len() < head.len() || !matches_at(&all, 0, &head) {
        assert(s@.len() >= prefix@.len() ==> s@.subrange(0, prefix@.len() as int) =~= s@.take(
            prefix@.len() as int,
        ));
        return None;
    }
    assert(s@.subrange(0, prefix@.len() as int) =~= s@.take(prefix@.len() as int));
    let rest = vstd::slice::slice_subrange(all.as_slice(), head.len(), all.len());
    assert(rest@ =~= s@.skip(prefix@.len() as int));
    Some(text::string_of(rest))
}

/// Whether a request with the given header values may use the interface: always where no token
/// is set, otherwise with the token in its own header or as a bearer token.
pub open spec fn is_authorized(
    token_header: Option<Seq<char>>,
    authorization: Option<Seq<char>>,
    expected: Option<Seq<char>>,
) -> bool {
    expected is None || expected->0.len() == 0 || token_header == expected || (authorization
        is Some && after_prefix(authorization->0, "Bearer "@) == expected)
}

pub open spec fn str_view(s: Option<&str>) -> Option<Seq<char>> {
    match s {
        Some(t) => Some(t@),
        None => None,
    }
}

/// Whether a request with the given values of the headers `x-cognidns-token` and `authorization`
/// may use the interface.
pub fn is_admin_request_authorized(
    token_header: Option<&str>,
    authorization: Option<&str>,
    expected_token: Option<&str>,
) -> (r: bool)
    ensures
        r == is_authorized(
            str_view(token_header),
            str_view(authorization),
            str_view(expected_token),
        ),
{
    let expected = match expected_token {
        None => return true,
        Some(t) => t,
    };
    if text::chars_of(expected).len() == 0 {
        return true;
    }
    if let Some(value) = token_header {
        if text::same(value, expected) {
            return true;
        }
    }
    match authorization {
        None => false,
        Some(value) => match strip_prefix(value, "Bearer ") {
            None => false,
            Some(token) => text::same(token.as_str(), expected),
        },
    }
}

/// Whether a name is one of a file in the log directory itself.
pub open spec fn is_log_file_name(s: Seq<char>) -> bool {
    s.len() > 0 && !s.contains('/') && !s.contains('\\') && !contains_text(s, ".."@)
}

fn holds_char(s: &str, c: char) -> (r: bool)
    ensures
        r == s@.contains(c),
{
    let chars = text::chars_of(s);
    let mut i: usize = 0;
    while i < chars.len()
        invariant
            i <= chars@.len(),
            chars@ == s@,
            forall|k: int| 0 <= k < i ==> #[trigger] s@[k] != c,
        decreases chars@.len() - i,
    {
        if chars[i] == c {
            assert(s@[i as int] == c);
            return true;
        }
        i = i + 1;
    }
    false
}

/// Whether a name is one of a file in the log directory itself.
pub fn validate_log_file_name(file_name: &str) -> (r: bool)
    ensures
        r == is_log_file_name(file_name@),
{
    text::chars_of(file_name).len() > 0 && !holds_char(file_name, '/') && !holds_char(
        file_name,
        '\\',
    ) && !has_text(file_name, "..")
}

/// A file of the log directory.
#[derive(Debug, Clone)]
pub struct LogFileEntry {
    pub name: String,
    pub size_bytes: u64,
    pub modified_unix_secs: Option<u64>,
}

pub ghost struct LogFileV {
    pub name: Seq<char>,
    pub size_bytes: u64,
    pub modified: Option<u64>,
}

impl View for LogFileEntry {
    type V = LogFileV;

    open spec fn view(&self) -> LogFileV {
        LogFileV {
            name: self.name@,
            size_bytes: self.size_bytes,
            modified: self.modified_unix_secs,
        }
    }
}

pub open spec fn log_views(list: Seq<LogFileEntry>) -> Seq<LogFileV> {
    list.map_values(|f: LogFileEntry| f@)
}

/// Whether a file was modified later than another; a file without a time is the oldest.
pub open spec fn is_newer(a: Option<u64>, b: Option<u64>) -> bool {
    match (a, b) {
        (Some(x), Some(y)) => x > y,
        (Some(_), None) => true,
        (None, _) => false,
    }
}

/// Whether a file is listed before another: newer ones first, those of one time by name.
pub open spec fn listed_before(a: LogFileV, b: LogFileV) -> bool {
    is_newer(a.modified, b.modified) || (a.modified == b.modified && text::lt(a.name, b.name))
}

/// A list with a file put in behind all that are not listed after it.
pub open spec fn insert_file(sorted: Seq<LogFileV>, f: LogFileV) -> Seq<LogFileV>
    decreases sorted.len(),
{
    if sorted.len() == 0 || !listed_before(f, sorted.last()) {
        sorted.push(f)
    } else {
        insert_file(sorted.drop_last(), f).push(sorted.last())
    }
}

/// The files in the order in which they are listed.
pub open spec fn listed(files: Seq<LogFileV>) -> Seq<LogFileV>
    decreases files.len(),
{
    if files.len() == 0 {
        Seq::empty()
    } else {
        insert_file(listed(files.drop_last()), files.last())
    }
}

/// Whether no file of a list is listed before one that precedes it.
pub open spec fn in_order(files: Seq<LogFileV>) -> bool {
    forall|i: int, j: int|
        0 <= i < j < files.len() ==> !listed_before(#[trigger] files[j], #[trigger] files[i])
}

proof fn lemma_listed_transitive(a: LogFileV, b: LogFileV, c: LogFileV)
    requires
        listed_before(a, b),
        !listed_before(c, b),
    ensures
        !listed_before(c, a),
{
    if listed_before(c, a) {
        if c.modified == a.modified && a.modified == b.modified {
            text::lemma_lt_transitive(c.name, a.name, b.name);
        }
    }
}

proof fn lemma_insert_file(sorted: Seq<LogFileV>, f: LogFileV)
    requires
        in_order(sorted),
    ensures
        in_order(insert_file(sorted, f)),
        insert_file(sorted, f).to_multiset() == sorted.to_multiset().insert(f),
        forall|i: int|
            0 <= i < insert_file(sorted, f).len() ==> (#[trigger] insert_file(sorted, f)[i]) == f
                || sorted.contains(insert_file(sorted, f)[i]),
    decreases sorted.len(),
{
    broadcast use vstd::seq_lib::group_to_multiset_ensures;

    let all = insert_file(sorted, f);
    if sorted.len() == 0 {
        assert(all =~= sorted.push(f));
    } else if !listed_before(f, sorted.last()) {
        assert(all == sorted.push(f));
        assert forall|i: int| 0 <= i < all.len() implies (#[trigger] all[i]) == f
            || sorted.contains(all[i]) by {
            if i < sorted.len() {
                assert(sorted[i] == all[i]);
            }
        }
        assert forall|i: int, j: int| 0 <= i < j < all.len() implies !listed_before(
            #[trigger] all[j],
            #[trigger] all[i],
        ) by {
            if j == sorted.len() {
                let last = sorted.last();
                assert(all[j] == f && all[i] == sorted[i]);
                if i < sorted.len() - 1 {
                    assert(!listed_before(sorted[sorted.len() - 1], sorted[i]));
                    if listed_before(f, sorted[i]) {
                        lemma_not_before(f, last, sorted[i]);
                    }
                }
            } else {
                assert(all[j] == sorted[j] && all[i] == sorted[i]);
            }
        }
    } else {
        let rest = sorted.drop_last();
        let last = sorted.last();
        assert(in_order(rest)) by {
            assert forall|i: int, j: int| 0 <= i < j < rest.len() implies !listed_before(
                #[trigger] rest[j],
                #[trigger] rest[i],
            ) by {
                assert(rest[j] == sorted[j] && rest[i] == sorted[i]);
            }
        }
        lemma_insert_file(rest, f);
        let inner = insert_file(rest, f);
        assert(all == inner.push(last));
        assert(sorted =~= rest.push(last));
        assert(all.to_multiset() =~= sorted.to_multiset().insert(f));
        assert forall|i: int| 0 <= i < all.len() implies (#[trigger] all[i]) == f
            || sorted.contains(all[i]) by {
            if i < inner.len() {
                assert(inner[i] == all[i]);
                if inner[i] != f {
                    let k = choose|k: int| 0 <= k < rest.len() && rest[k] == inner[i];
                    assert(sorted[k] == all[i]);
                }
            } else {
                assert(sorted[sorted.len() - 1] == all[i]);
            }
        }
        assert forall|i: int, j: int| 0 <= i < j < all.len() implies !listed_before(
            #[trigger] all[j],
            #[trigger] all[i],
        ) by {
            if j == inner.len() {
                assert(all[i] == inner[i] && all[j] == last);
                if inner[i] == f {
                    lemma_not_before_self(last);
                    lemma_listed_transitive(f, last, last);
                } else {
                    let k = choose|k: int| 0 <= k < rest.len() && rest[k] == inner[i];
                    assert(sorted[k] == inner[i]);
                    assert(!listed_before(sorted[sorted.len() - 1], sorted[k]));
                }
            } else {
                assert(all[i] == inner[i] && all[j] == inner[j]);
            }
        }
    }
}

proof fn lemma_not_before_self(a: LogFileV)
    ensures
        !listed_before(a, a),
{
    text::lemma_lt_irreflexive(a.name);
}

/// A file that is not listed before another is not listed before what precedes that one.
proof fn lemma_not_before(f: LogFileV, b: LogFileV, a: LogFileV)
    requires
        !listed_before(b, a),
        listed_before(f, a),
    ensures
        listed_before(f, b),
{
    text::lemma_lt_total(a.name, b.name);
    if f.modified == a.modified && a.modified == b.modified && a.name != b.name {
        if text::lt(a.name, b.name) {
            text::lemma_lt_transitive(f.name, a.name, b.name);
        }
    }
}

/// The list holds the same files, in order.
pub proof fn lemma_listed(files: Seq<LogFileV>)
    ensures
        in_order(listed(files)),
        listed(files).to_multiset() == files.to_multiset(),
    decreases files.len(),
{
    broadcast use vstd::seq_lib::group_to_multiset_ensures;

    if files.len() > 0 {
        let rest = files.drop_last();
        lemma_listed(rest);
        lemma_insert_file(listed(rest), files.last());
        assert(files =~= rest.push(files.last()));
    }
}

fn newer(a: Option<u64>, b: Option<u64>) -> (r: bool)
    ensures
        r == is_newer(a, b),
{
    match (a, b) {
        (Some(x), Some(y)) => x > y,
        (Some(_), None) => true,
        (None, _) => false,
    }
}

fn goes_before(a: &LogFileEntry, b: &LogFileEntry) -> (r: bool)
    ensures
        r == listed_before(a@, b@),
{
    newer(a.modified_unix_secs, b.modified_unix_secs) || (!newer(
        b.modified_unix_secs,
        a.modified_unix_secs,
    ) && text::text_less(a.name.as_str(), b.name.as_str()))
}

fn insert_log_file(sorted: &mut Vec<LogFileEntry>, f: LogFileEntry)
    ensures
        log_views(final(sorted)@) == insert_file(log_views(old(sorted)@), f@),
{
    let ghost all = log_views(sorted@);
    let n: usize = sorted.len();
    let mut i: usize = n;
    assert(all.take(n as int) =~= all && all.skip(n as int) =~= Seq::empty());
    assert(insert_file(all, f@) =~= insert_file(all.take(i as int), f@) + all.skip(i as int));
    while i > 0 && goes_before(&f, &sorted[i - 1])
        invariant
            i <= n,
            n == sorted@.len(),
            *sorted == *old(sorted),
            all == log_views(sorted@),
            insert_file(all, f@) == insert_file(all.take(i as int), f@) + all.skip(i as int),
        decreases i,
    {
        let ghost head = all.take(i as int);
        assert(head.last() == sorted@[i - 1]@);
        assert(head.drop_last() =~= all.take(i - 1));
        assert(insert_file(head, f@) == insert_file(all.take(i - 1), f@).push(head.last()));
        assert(insert_file(all.take(i - 1), f@).push(head.last()) + all.skip(i as int)
            =~= insert_file(all.take(i - 1), f@) + all.skip(i - 1));
        i = i - 1;
    }
    let ghost head = all.take(i as int);
    assert(insert_file(head, f@) == head.push(f@)) by {
        if i > 0 {
            assert(head.last() == sorted@[i - 1]@);
        }
    }
    sorted.insert(i, f);
    assert(log_views(sorted@) =~= head.push(f@) + all.skip(i as int));
}

/// Puts the files of the log directory in the order in which they are listed.
pub fn sort_log_files(files: Vec<LogFileEntry>) -> (r: Vec<LogFileEntry>)
    ensures
        log_views(r@) == listed(log_views(files@)),
{
    let ghost all = log_views(files@);
    let mut out: Vec<LogFileEntry> = Vec::new();
    let mut i: usize = 0;
    assert(all.take(0) =~= Seq::empty());
    assert(log_views(out@) =~= Seq::empty());
    while i < files.len()
        invariant
            i <= files@.len(),
            all == log_views(files@),
            log_views(out@) == listed(all.take(i as int)),
        decreases files@.len() - i,
    {
        assert(all.take(i + 1).drop_last() =~= all.take(i as int));
        assert(all[i as int] == files@[i as int]@);
        let f = LogFileEntry {
            name: files[i].name.clone(),
            size_bytes: files[i].size_bytes,
            modified_unix_secs: files[i].modified_unix_secs,
        };
        insert_log_file(&mut out, f);
        i = i + 1;
    }
    assert(all.take(i as int) =~= all);
    out
}

/// A number of entries or of seconds that a request asks for, within its bounds.
pub open spec fn bounded(asked: Option<u64>, usual: u64, most: u64) -> u64 {
    let n = match asked {
        Some(n) => n,
        None => usual,
    };
    if n < 1 {
        1
    } else if n > most {
        most
    } else {
        n
    }
}

/// How many entries a ranking shows: 10 where nothing is asked for, and between 1 and 100.
pub fn top_n_entries(asked: Option<u64>) -> (r: u64)
    ensures
        r == bounded(asked, 10, 100),
{
    bound(asked, 10, 100)
}

/// How many seconds a ranking covers: 300 where nothing is asked for, and between 1 and 3600.
pub fn top_n_window(asked: Option<u64>) -> (r: u64)
    ensures
        r == bounded(asked, 300, 3600),
{
    bound(asked, 300, 3600)
}

fn bound(asked: Option<u64>, usual: u64, most: u64) -> (r: u64)
    ensures
        r == bounded(asked, usual, most),
{
    let n: u64 = match asked {
        Some(n) => n,
        None => usual,
    };
    if n < 1 {
        1
    } else if n > most {
        most
    } else {
        n
    }
}

/// The answer to the question whether the server is ready.
pub fn readiness(healthy_upstreams: usize) -> (r: (u16, &'static str))
    ensures
        healthy_upstreams > 0 ==> r.0 == 200 && r.1@ == "ready"@,
        healthy_upstreams == 0 ==> r.0 == 503 && r.1@ == "degraded"@,
{
    if healthy_upstreams > 0 {
        (200, "ready")
    } else {
        (503, "degraded")
    }
}

/// What is said after the times to live of all entries of the cache are kept, or are no longer.
pub fn freeze_all_message(enabled: bool) -> (r: String)
    ensures
        r@ == "cache freeze-all "@ + (if enabled {
            "enabled"@
        } else {
            "disabled"@
        }),
{
    text::concat(
        "cache freeze-all ",
        if enabled {
            "enabled"
        } else {
            "disabled"
        },
    )
}

/// What is said after the times to live of a domain are kept, or are no longer.
pub fn freeze_domain_message(domain: &str, enabled: bool) -> (r: String)
    ensures
        r@ == "cache freeze-domain "@ + (if enabled {
            "added: "@
        } else {
            "removed: "@
        }) + domain@,
{
    let mut s = text::concat(
        "cache freeze-domain ",
        if enabled {
            "added: "
        } else {
            "removed: "
        },
    );
    s.append(domain);
    s
}

/// What is said after the entries of a domain are taken out of the cache.
pub fn clear_domain_message(domain: &str) -> (r: String)
    ensures
        r@ == "cache cleared for domain: "@ + domain@,
{
    text::concat("cache cleared for domain: ", domain)
}

} // verus!
