//! The settings of a server that nothing configures are valid.
use crate::config::laws;
use crate::config::types;
use crate::config::types::AppConfig;
use crate::config::validate;
use crate::decimal;
use crate::health;
use crate::ip;
use crate::text;
use crate::text_laws;
use vstd::prelude::*;

verus! {

proof fn lemma_socket_parts(o: Seq<u8>, port: u16)
    requires
        o.len() == 4,
    ensures
        text_laws::socket_text(o, port) == text::decimal(o[0] as nat) + seq!['.'] + text::decimal(
            o[1] as nat,
        ) + seq!['.'] + text::decimal(o[2] as nat) + seq!['.'] + text::decimal(o[3] as nat) + seq![
            ':',
        ] + text::decimal(port as nat),
{
    reveal_with_fuel(text::join_dots, 5);
    let p = ip::decimals(o);
    assert(p.len() == 4);
    let three = p.drop_last();
    let two = three.drop_last();
    let one = two.drop_last();
    assert(three.last() == p[2] && two.last() == p[1] && one[0] == p[0]);
    assert(text::join_dots(one) == p[0]);
    assert(text::join_dots(two) == p[0].push('.') + p[1]);
    assert(text::join_dots(three) == text::join_dots(two).push('.') + p[2]);
    assert(text::join_dots(p) == text::join_dots(three).push('.') + p[3]);
    assert(text_laws::socket_text(o, port) =~= p[0] + seq!['.'] + p[1] + seq!['.'] + p[2] + seq![
        '.',
    ] + p[3] + seq![':'] + text::decimal(port as nat));
}

proof fn lemma_one_digit(n: nat)
    requires
        n < 10,
    ensures
        text::decimal(n) == seq![('0' as u8 + n) as u8 as char],
{
}

proof fn lemma_two_digits(n: nat)
    requires
        10 <= n < 100,
    ensures
        text::decimal(n) == seq![
            ('0' as u8 + n / 10) as u8 as char,
            ('0' as u8 + n % 10) as u8 as char,
        ],
{
    lemma_one_digit(n / 10);
    assert(text::decimal(n) =~= seq![
        ('0' as u8 + n / 10) as u8 as char,
        ('0' as u8 + n % 10) as u8 as char,
    ]);
}

proof fn lemma_three_digits(n: nat)
    requires
        100 <= n < 1000,
    ensures
        text::decimal(n) == text::decimal(n / 10).push(('0' as u8 + n % 10) as u8 as char),
{
    lemma_two_digits(n / 10);
}

proof fn lemma_endpoint_of(s: Seq<char>, o: Seq<u8>, port: u16)
    requires
        o.len() == 4,
        port > 0,
        s == text_laws::socket_text(o, port),
    ensures
        laws::is_endpoint(s),
{
    text_laws::lemma_socket_round_trip(o, port);
}

proof fn lemma_any_address(port: u16, s: Seq<char>)
    requires
        port > 0,
        s == seq!['0', '.', '0', '.', '0', '.', '0', ':'] + text::decimal(port as nat),
    ensures
        laws::is_endpoint(s),
{
    let o = seq![0u8, 0u8, 0u8, 0u8];
    lemma_socket_parts(o, port);
    lemma_one_digit(0);
    assert(text_laws::socket_text(o, port) =~= s);
    lemma_endpoint_of(s, o, port);
}

proof fn lemma_listen_literals()
    ensures
        laws::is_endpoint("0.0.0.0:5300"@),
        laws::is_endpoint("0.0.0.0:8080"@),
        laws::is_endpoint("0.0.0.0:853"@),
        laws::is_endpoint("0.0.0.0:8053"@),
        laws::is_endpoint("127.0.0.1:19090"@),
{
    reveal_strlit("0.0.0.0:5300");
    reveal_strlit("0.0.0.0:8080");
    reveal_strlit("0.0.0.0:853");
    reveal_strlit("0.0.0.0:8053");
    reveal_strlit("127.0.0.1:19090");
    lemma_two_digits(53);
    lemma_three_digits(530);
    assert(text::decimal(5300) =~= seq!['5', '3', '0', '0']);
    assert("0.0.0.0:5300"@ =~= seq!['0', '.', '0', '.', '0', '.', '0', ':'] + text::decimal(5300));
    lemma_any_address(5300, "0.0.0.0:5300"@);
    lemma_two_digits(80);
    lemma_three_digits(808);
    assert(text::decimal(8080) =~= seq!['8', '0', '8', '0']);
    assert("0.0.0.0:8080"@ =~= seq!['0', '.', '0', '.', '0', '.', '0', ':'] + text::decimal(8080));
    lemma_any_address(8080, "0.0.0.0:8080"@);
    lemma_two_digits(85);
    lemma_three_digits(853);
    assert(text::decimal(853) =~= seq!['8', '5', '3']);
    assert("0.0.0.0:853"@ =~= seq!['0', '.', '0', '.', '0', '.', '0', ':'] + text::decimal(853));
    lemma_any_address(853, "0.0.0.0:853"@);
    lemma_three_digits(805);
    assert(text::decimal(8053) =~= seq!['8', '0', '5', '3']);
    assert("0.0.0.0:8053"@ =~= seq!['0', '.', '0', '.', '0', '.', '0', ':'] + text::decimal(8053));
    lemma_any_address(8053, "0.0.0.0:8053"@);
    let o = seq![127u8, 0u8, 0u8, 1u8];
    lemma_socket_parts(o, 19090);
    lemma_one_digit(0);
    lemma_one_digit(1);
    lemma_two_digits(12);
    lemma_three_digits(127);
    lemma_two_digits(19);
    lemma_three_digits(190);
    assert(text::decimal(1909) =~= seq!['1', '9', '0', '9']);
    assert(text::decimal(19090) =~= seq!['1', '9', '0', '9', '0']);
    assert(text_laws::socket_text(o, 19090) =~= "127.0.0.1:19090"@);
    lemma_endpoint_of("127.0.0.1:19090"@, o, 19090);
}

#[verifier::spinoff_prover]
proof fn lemma_root_literals()
    ensures
        laws::is_endpoint("198.41.0.4:53"@),
        laws::is_endpoint("199.9.14.201:53"@),
{
    lemma_two_digits(53);
    lemma_one_digit(0);
    lemma_one_digit(4);
    lemma_one_digit(9);
    lemma_two_digits(14);
    lemma_two_digits(41);
    lemma_two_digits(19);
    lemma_three_digits(198);
    lemma_three_digits(199);
    lemma_two_digits(20);
    lemma_three_digits(201);
    reveal_strlit("198.41.0.4:53");
    let a = seq![198u8, 41u8, 0u8, 4u8];
    lemma_socket_parts(a, 53);
    assert(text_laws::socket_text(a, 53) =~= "198.41.0.4:53"@);
    lemma_endpoint_of("198.41.0.4:53"@, a, 53);
    reveal_strlit("199.9.14.201:53");
    let b = seq![199u8, 9u8, 14u8, 201u8];
    lemma_socket_parts(b, 53);
    assert(text_laws::socket_text(b, 53) =~= "199.9.14.201:53"@);
    lemma_endpoint_of("199.9.14.201:53"@, b, 53);
}

#[verifier::spinoff_prover]
proof fn lemma_more_root_literals()
    ensures
        laws::is_endpoint("192.33.4.12:53"@),
        laws::is_endpoint("199.7.91.13:53"@),
{
    lemma_two_digits(53);
    lemma_one_digit(4);
    lemma_one_digit(7);
    lemma_two_digits(12);
    lemma_two_digits(13);
    lemma_two_digits(33);
    lemma_two_digits(91);
    lemma_two_digits(19);
    lemma_three_digits(192);
    lemma_three_digits(199);
    reveal_strlit("192.33.4.12:53");
    let a = seq![192u8, 33u8, 4u8, 12u8];
    lemma_socket_parts(a, 53);
    assert(text_laws::socket_text(a, 53) =~= "192.33.4.12:53"@);
    lemma_endpoint_of("192.33.4.12:53"@, a, 53);
    reveal_strlit("199.7.91.13:53");
    let b = seq![199u8, 7u8, 91u8, 13u8];
    lemma_socket_parts(b, 53);
    assert(text_laws::socket_text(b, 53) =~= "199.7.91.13:53"@);
    lemma_endpoint_of("199.7.91.13:53"@, b, 53);
}

#[verifier::spinoff_prover]
proof fn lemma_upstream_literals()
    ensures
        laws::is_endpoint("1.1.1.1:53"@),
        laws::is_endpoint("8.8.8.8:53"@),
{
    lemma_two_digits(53);
    lemma_one_digit(1);
    lemma_one_digit(8);
    reveal_strlit("1.1.1.1:53");
    let a = seq![1u8, 1u8, 1u8, 1u8];
    lemma_socket_parts(a, 53);
    assert(text_laws::socket_text(a, 53) =~= "1.1.1.1:53"@);
    lemma_endpoint_of("1.1.1.1:53"@, a, 53);
    reveal_strlit("8.8.8.8:53");
    let b = seq![8u8, 8u8, 8u8, 8u8];
    lemma_socket_parts(b, 53);
    assert(text_laws::socket_text(b, 53) =~= "8.8.8.8:53"@);
    lemma_endpoint_of("8.8.8.8:53"@, b, 53);
}

proof fn lemma_says(s: Seq<char>)
    requires
        s.len() > 0,
        !text::is_white(s[0]),
    ensures
        laws::says_something(s),
{
}

proof fn lemma_unit_literals()
    ensures
        decimal::unit_value("0.55"@) is Some,
        decimal::unit_value("0.15"@) is Some,
        decimal::is_below("0.15"@, "0.55"@),
{
    reveal_strlit("0.55");
    reveal_strlit("0.15");
    let high = seq!['5', '5'];
    let low = seq!['1', '5'];
    assert("0.55"@ =~= seq!['0'].push('.') + high);
    assert("0.15"@ =~= seq!['0'].push('.') + low);
    text_laws::lemma_split_two(seq!['0'], high, '.');
    text_laws::lemma_split_two(seq!['0'], low, '.');
    assert(text::all_digits(high));
    assert(text::all_digits(low));
}

proof fn lemma_default_endpoints(c: AppConfig)
    requires
        types::default_resolution(c),
        types::default_upstreams(c),
    ensures
        validate::servers_error(c) is None,
{
    lemma_root_literals();
    lemma_more_root_literals();
    lemma_upstream_literals();
    laws::lemma_servers(c);
    let w = seq!["forwarder"@, "iterative"@];
    assert(w[0] == "forwarder"@);
    reveal_strlit("forwarder");
    assert(text::lower("forwarder"@) =~= "forwarder"@);
    assert(c.upstreams@.len() == text::views(c.upstreams@).len());
    assert(text::views(c.upstreams@)[0] == "1.1.1.1:53"@);
    assert(text::views(c.upstreams@)[1] == "8.8.8.8:53"@);
    assert(c.root_servers@.len() == text::views(c.root_servers@).len());
    let r = text::views(c.root_servers@);
    assert(r[0] == "198.41.0.4:53"@ && r[1] == "199.9.14.201:53"@ && r[2] == "192.33.4.12:53"@
        && r[3] == "199.7.91.13:53"@);
}

proof fn lemma_default_logging(l: types::LoggingConfig)
    requires
        types::is_default_logging(l),
    ensures
        validate::logging_error(l) is None,
{
    laws::lemma_logging(l);
    reveal_strlit("logs");
    reveal_strlit("day");
    reveal_strlit("compact");
    reveal_strlit("info");
    lemma_says("logs"@);
    assert(text::lower("day"@) =~= "day"@);
    assert(text::lower("compact"@) =~= "compact"@);
    assert(text::lower("info"@) =~= "info"@);
    text_laws::lemma_trimmed("info"@);
    assert(laws::levels()[2] == "info"@);
    let w = seq!["compact"@, "json"@];
    assert(w[0] == "compact"@);
    assert(text::views(l.trace_query_domains@).len() == 0);
}

proof fn lemma_default_encryption(c: AppConfig)
    requires
        c.dot.listen@ == "0.0.0.0:853"@,
        c.dot.cert_file@ == "config/dot.crt"@,
        c.dot.key_file@ == "config/dot.key"@,
        c.doh.listen@ == "0.0.0.0:8053"@,
    ensures
        validate::dot_error(c.dot) is None,
        validate::doh_error(c.doh) is None,
{
    laws::lemma_encrypted_listeners(c.dot, c.doh);
    lemma_listen_literals();
    reveal_strlit("config/dot.crt");
    reveal_strlit("config/dot.key");
    lemma_says("config/dot.crt"@);
    lemma_says("config/dot.key"@);
}

proof fn lemma_default_lists(c: AppConfig)
    requires
        types::default_policy(c),
        types::default_caching(c),
        types::default_resolution(c),
    ensures
        validate::access_error(c) is None,
        validate::trust_error(c) is None,
        validate::static_records_error(
            types::record_views(c.static_records@),
            "static_records"@,
        ) is None,
        validate::sources_error(c.authoritative_sources@) is None,
        validate::views_error(c.views@) is None,
        validate::prewarm_zones_error(c.prewarm_delegation_zones@) is None,
{
    laws::lemma_access(c);
    laws::lemma_trust(c);
    assert(text::views(c.allow_clients@).len() == 0);
    assert(text::views(c.blocked_domains@).len() == 0);
    assert(text::views(c.freeze_cache_domains@).len() == 0);
    assert(text::views(c.dnssec.trust_anchor_files@).len() == 0);
    assert(types::record_views(c.static_records@).len() == 0);
}

/// The default settings are valid, and they are so with DNS over TLS and DNS over HTTPS on or
/// off, with the checks of addresses on or off, and with the cache of delegations on or off.
#[verifier::spinoff_prover]
pub proof fn lemma_default_settings_are_valid(
    c: AppConfig,
    dot: bool,
    doh: bool,
    checks: bool,
    delegations: bool,
)
    requires
        types::is_default_config(c),
    ensures
        validate::config_error(
            AppConfig {
                dot: types::DotConfig { enabled: dot, ..c.dot },
                doh: types::DohConfig { enabled: doh, ..c.doh },
                health_check: health::HealthCheckConfig { enabled: checks, ..c.health_check },
                enable_delegation_cache: delegations,
                ..c
            },
        ) is None,
{
    let d = AppConfig {
        dot: types::DotConfig { enabled: dot, ..c.dot },
        doh: types::DohConfig { enabled: doh, ..c.doh },
        health_check: health::HealthCheckConfig { enabled: checks, ..c.health_check },
        enable_delegation_cache: delegations,
        ..c
    };
    laws::lemma_every_group_counts(d);
    lemma_listen_literals();
    laws::lemma_listeners(d);
    lemma_default_endpoints(c);
    laws::lemma_servers(c);
    laws::lemma_servers(d);
    laws::lemma_health_settings(d.health_check);
    laws::lemma_limits(d);
    reveal_strlit("tcp");
    reveal_strlit("/");
    lemma_says("/"@);
    assert(text::lower("tcp"@) =~= "tcp"@);
    let w = seq!["tcp"@, "http"@, "https"@];
    assert(w[0] == "tcp"@);
    lemma_unit_literals();
    laws::lemma_adaptive(d);
    laws::lemma_no_top_level_zones(d);
    reveal_strlit("1");
    reveal_strlit("25");
    reveal_strlit("3");
    lemma_default_logging(c.logging);
    lemma_default_encryption(d);
    laws::lemma_hops(d);
    lemma_default_lists(c);
    laws::lemma_access(c);
    laws::lemma_access(d);
    laws::lemma_trust(c);
    laws::lemma_trust(d);
}

} // verus!
