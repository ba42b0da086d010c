//! Rules on single values: what a broken rule is called, and the tests that many rules share.
use crate::ip;
use crate::text;
use vstd::prelude::*;

verus! {

/// A setting that breaks a rule; the message names the setting and the rule.
#[derive(Debug, Clone)]
pub struct ConfigError {
    pub message: String,
}

impl ConfigError {
    /// The message in words.
    pub fn to_text(&self) -> (r: String)
        ensures
            r@ == self.message@,
    {
        self.message.clone()
    }
}

/// The message of a failed check.
pub open spec fn error_text(r: Result<(), ConfigError>) -> Option<Seq<char>> {
    match r {
        Ok(_) => None,
        Err(e) => Some(e.message@),
    }
}

/// Equality of two texts but for the case of ASCII letters.
pub open spec fn fold_eq(a: Seq<char>, b: Seq<char>) -> bool {
    text::lower(a) == text::lower(b)
}

/// Whether a text is empty but for white space.
pub open spec fn blank(s: Seq<char>) -> bool {
    text::trim(s).len() == 0
}

/// The first of two checks, or the second where the first passes.
pub open spec fn either(a: Option<Seq<char>>, b: Option<Seq<char>>) -> Option<Seq<char>> {
    if a is Some {
        a
    } else {
        b
    }
}

/// The first message of a list of checks.
pub open spec fn first(list: Seq<Option<Seq<char>>>) -> Option<Seq<char>>
    decreases list.len(),
{
    if list.len() == 0 {
        None
    } else if list[0] is Some {
        list[0]
    } else {
        first(list.skip(1))
    }
}

/// The first check that fails decides.
pub proof fn lemma_first(list: Seq<Option<Seq<char>>>, i: int)
    requires
        0 <= i <= list.len(),
        forall|k: int| 0 <= k < i ==> (#[trigger] list[k]) is None,
        i < list.len() ==> list[i] is Some,
    ensures
        first(list) == (if i < list.len() {
            list[i]
        } else {
            None
        }),
    decreases list.len(),
{
    if list.len() > 0 && i > 0 {
        assert(list[0] is None);
        let rest = list.skip(1);
        assert forall|k: int| 0 <= k < i - 1 implies (#[trigger] rest[k]) is None by {
            assert(rest[k] == list[k + 1]);
        }
        lemma_first(rest, i - 1);
    }
}

/// The failed check with the given message.
pub fn broken(message: &str) -> (r: Result<(), ConfigError>)
    ensures
        error_text(r) == Some(message@),
{
    Err(ConfigError { message: message.to_owned() })
}

/// Whether a text is empty but for white space.
pub fn is_blank(s: &str) -> (r: bool)
    ensures
        r == blank(s@),
{
    let trimmed = text::chars_of(text::trimmed(s).as_str());
    trimmed.len() == 0
}

/// The rule on a listening or server endpoint: an IP address and a port other than 0.
pub open spec fn endpoint_error(value: Seq<char>, field: Seq<char>) -> Option<Seq<char>> {
    let addr = text::trim(value);
    if addr.len() == 0 {
        Some(field + " must not be empty"@)
    } else if ip::socket_port(addr) is None {
        Some(field + " endpoint must be a valid ip:port socket address: "@ + addr)
    } else if ip::socket_port(addr) == Some(0nat) {
        Some(field + " has invalid port 0 (expected 1..65535): "@ + addr)
    } else {
        None
    }
}

/// Checks a listening or server endpoint.
pub fn validate_endpoint(value: &str, field: &str) -> (r: Result<(), ConfigError>)
    ensures
        error_text(r) == endpoint_error(value@, field@),
{
    let addr = text::trimmed(value);
    if is_blank(value) {
        return broken(text::concat(field, " must not be empty").as_str());
    }
    match ip::parse_socket_port(addr.as_str()) {
        None => {
            let message = text::concat(field, " endpoint must be a valid ip:port socket address: ");
            broken(text::concat(message.as_str(), addr.as_str()).as_str())
        },
        Some(port) => {
            if port == 0 {
                let message = text::concat(field, " has invalid port 0 (expected 1..65535): ");
                return broken(text::concat(message.as_str(), addr.as_str()).as_str());
            }
            Ok(())
        },
    }
}

/// The endpoint rule on each item of a list.
pub open spec fn endpoints_error(list: Seq<Seq<char>>, field: Seq<char>) -> Option<Seq<char>> {
    first(list.map_values(|s: Seq<char>| endpoint_error(s, field)))
}

/// Checks every endpoint of a list.
pub fn validate_endpoints(list: &Vec<String>, field: &str) -> (r: Result<(), ConfigError>)
    ensures
        error_text(r) == endpoints_error(text::views(list@), field@),
{
    let ghost checks = text::views(list@).map_values(|s: Seq<char>| endpoint_error(s, field@));
    let mut i: usize = 0;
    while i < list.len()
        invariant
            i <= list@.len(),
            checks == text::views(list@).map_values(|s: Seq<char>| endpoint_error(s, field@)),
            forall|k: int| 0 <= k < i ==> (#[trigger] checks[k]) is None,
        decreases list@.len() - i,
    {
        let r = validate_endpoint(list[i].as_str(), field);
        assert(checks[i as int] == endpoint_error(list@[i as int]@, field@));
        if r.is_err() {
            proof {
                lemma_first(checks, i as int);
            }
            return r;
        }
        i = i + 1;
    }
    proof {
        lemma_first(checks, i as int);
    }
    Ok(())
}

/// The rule that no item of a list is blank.
pub open spec fn blank_item_error(list: Seq<Seq<char>>, message: Seq<char>) -> Option<Seq<char>> {
    if exists|i: int| 0 <= i < list.len() && blank(#[trigger] list[i]) {
        Some(message)
    } else {
        None
    }
}

/// Checks that no item of a list is blank.
pub fn validate_no_blank(list: &Vec<String>, message: &str) -> (r: Result<(), ConfigError>)
    ensures
        error_text(r) == blank_item_error(text::views(list@), message@),
{
    let ghost items = text::views(list@);
    let mut i: usize = 0;
    while i < list.len()
        invariant
            i <= list@.len(),
            items == text::views(list@),
            forall|k: int| 0 <= k < i ==> !blank(#[trigger] items[k]),
        decreases list@.len() - i,
    {
        assert(items[i as int] == list@[i as int]@);
        if is_blank(list[i].as_str()) {
            assert(blank(items[i as int]));
            return broken(message);
        }
        i = i + 1;
    }
    Ok(())
}

/// The rule that every item of a list is an IP network.
pub open spec fn networks_error(list: Seq<Seq<char>>, prefix: Seq<char>) -> Option<Seq<char>> {
    first(
        list.map_values(
            |s: Seq<char>|
                if ip::is_network(s) {
                    None
                } else {
                    Some(prefix + s)
                },
        ),
    )
}

/// Checks that every item of a list is an IP network; the message is `prefix` and the item.
pub fn validate_networks(list: &Vec<String>, prefix: &str) -> (r: Result<(), ConfigError>)
    ensures
        error_text(r) == networks_error(text::views(list@), prefix@),
{
    let ghost check = |s: Seq<char>|
        if ip::is_network(s) {
            None
        } else {
            Some(prefix@ + s)
        };
    let ghost checks = text::views(list@).map_values(check);
    let mut i: usize = 0;
    while i < list.len()
        invariant
            i <= list@.len(),
            checks == text::views(list@).map_values(check),
            check == (|s: Seq<char>|
                if ip::is_network(s) {
                    None
                } else {
                    Some(prefix@ + s)
                }),
            forall|k: int| 0 <= k < i ==> (#[trigger] checks[k]) is None,
        decreases list@.len() - i,
    {
        assert(checks[i as int] == check(list@[i as int]@));
        if !ip::parses_as_network(list[i].as_str()) {
            proof {
                lemma_first(checks, i as int);
            }
            return broken(text::concat(prefix, list[i].as_str()).as_str());
        }
        i = i + 1;
    }
    proof {
        lemma_first(checks, i as int);
    }
    Ok(())
}

/// The rule on a log level.
pub open spec fn level_error(value: Seq<char>, field: Seq<char>) -> Option<Seq<char>> {
    let level = text::lower(text::trim(value));
    if level == "trace"@ || level == "debug"@ || level == "info"@ || level == "warn"@ || level
        == "error"@ || level == "off"@ {
        None
    } else {
        Some(field + " must be one of trace|debug|info|warn|error|off"@)
    }
}

/// Checks a log level.
pub fn validate_level(value: &str, field: &str) -> (r: Result<(), ConfigError>)
    ensures
        error_text(r) == level_error(value@, field@),
{
    let level = text::to_lower(text::trimmed(value).as_str());
    let l = level.as_str();
    if text::same(l, "trace") || text::same(l, "debug") || text::same(l, "info") || text::same(
        l,
        "warn",
    ) || text::same(l, "error") || text::same(l, "off") {
        Ok(())
    } else {
        broken(text::concat(field, " must be one of trace|debug|info|warn|error|off").as_str())
    }
}

pub open spec fn is_host_char(c: char) -> bool {
    ('a' <= c && c <= 'z') || ('A' <= c && c <= 'Z') || ('0' <= c && c <= '9') || c == '-'
}

pub open spec fn all_host_chars(s: Seq<char>) -> bool {
    forall|i: int| 0 <= i < s.len() ==> is_host_char(#[trigger] s[i])
}

/// A label of a host name: letters, digits and inner hyphens, one to 63 of them.
pub open spec fn is_host_label(s: Seq<char>) -> bool {
    1 <= s.len() <= 63 && s[0] != '-' && s.last() != '-' && all_host_chars(s)
}

pub open spec fn all_host_labels(labels: Seq<Seq<char>>) -> bool {
    forall|i: int| 0 <= i < labels.len() ==> is_host_label(#[trigger] labels[i])
}

/// A name without the dot at its end.
pub open spec fn without_last_dot(s: Seq<char>) -> Seq<char> {
    if s.len() > 0 && s.last() == '.' {
        s.drop_last()
    } else {
        s
    }
}

/// A host name: labels between dots, at most 253 characters, with or without a dot at the end.
pub open spec fn is_dns_name(s: Seq<char>) -> bool {
    1 <= without_last_dot(s).len() <= 253 && all_host_labels(text::split(without_last_dot(s), '.'))
}

fn valid_label(s: &[char]) -> (r: bool)
    ensures
        r == is_host_label(s@),
{
    if s.len() == 0 || s.len() > 63 || s[0] == '-' || s[s.len() - 1] == '-' {
        return false;
    }
    let mut i: usize = 0;
    while i < s.len()
        invariant
            i <= s@.len(),
            forall|j: int| 0 <= j < i ==> is_host_char(#[trigger] s@[j]),
        decreases s@.len() - i,
    {
        let c = s[i];
        if !(('a' <= c && c <= 'z') || ('A' <= c && c <= 'Z') || ('0' <= c && c <= '9') || c
            == '-') {
            assert(!is_host_char(s@[i as int]));
            return false;
        }
        i = i + 1;
    }
    true
}

/// Whether a text is a host name.
pub fn is_valid_dns_name(name: &str) -> (r: bool)
    ensures
        r == is_dns_name(name@),
{
    let mut chars = text::chars_of(name);
    if chars.len() > 0 && chars[chars.len() - 1] == '.' {
        chars.pop();
        assert(chars@ =~= name@.drop_last());
    }
    if chars.len() == 0 || chars.len() > 253 {
        return false;
    }
    let labels = text::split_chars(chars.as_slice(), '.');
    let ghost spec_labels = text::split(without_last_dot(name@), '.');
    assert(chars@ =~= without_last_dot(name@));
    let mut i: usize = 0;
    while i < labels.len()
        invariant
            i <= labels@.len(),
            text::char_views(labels@) == spec_labels,
            spec_labels == text::split(without_last_dot(name@), '.'),
            1 <= without_last_dot(name@).len() <= 253,
            forall|k: int| 0 <= k < i ==> is_host_label(#[trigger] spec_labels[k]),
        decreases labels@.len() - i,
    {
        assert(spec_labels[i as int] == labels@[i as int]@);
        if !valid_label(labels[i].as_slice()) {
            assert(!is_host_label(spec_labels[i as int]));
            return false;
        }
        i = i + 1;
    }
    true
}

} // verus!
