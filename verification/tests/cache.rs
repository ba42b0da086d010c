//! The response cache.
use cognidns::cache::dump::{CacheDump, CacheDumpEntry, CacheResponseVisualization};
use cognidns::cache::hex::{decode_hex, encode_hex};
use cognidns::cache::response::{bounded_shard_capacity, cache_shard_count, ResponseCache};
use cognidns::cache::store::CacheKey;

const NOW: u64 = 1_000_000;

fn key(qname: &str) -> CacheKey {
    CacheKey {
        qname: qname.to_string(),
        qtype: 1,
        dnssec_ok: false,
    }
}

#[test]
fn capacity_evicts_oldest_entry() {
    let mut cache = ResponseCache::new(1);
    cache.insert(
        CacheKey {
            qname: "a.example".into(),
            qtype: 1,
            dnssec_ok: false,
        },
        vec![0, 1, 2, 3],
        60_000,
        NOW,
    );
    cache.insert(
        CacheKey {
            qname: "b.example".into(),
            qtype: 1,
            dnssec_ok: false,
        },
        vec![4, 5, 6, 7],
        60_000,
        NOW,
    );

    assert!(cache
        .get(
            &CacheKey {
                qname: "a.example".into(),
                qtype: 1,
                dnssec_ok: false,
            },
            false,
            NOW
        )
        .is_none());
    assert!(cache
        .get(
            &CacheKey {
                qname: "b.example".into(),
                qtype: 1,
                dnssec_ok: false,
            },
            false,
            NOW
        )
        .is_some());
}

#[test]
fn lowering_capacity_trims_existing_entries() {
    let mut cache = ResponseCache::new(3);
    cache.insert(
        CacheKey {
            qname: "a.example".into(),
            qtype: 1,
            dnssec_ok: false,
        },
        vec![0, 1],
        60_000,
        NOW,
    );
    cache.insert(
        CacheKey {
            qname: "b.example".into(),
            qtype: 1,
            dnssec_ok: false,
        },
        vec![2, 3],
        60_000,
        NOW,
    );
    cache.insert(
        CacheKey {
            qname: "c.example".into(),
            qtype: 1,
            dnssec_ok: false,
        },
        vec![4, 5],
        60_000,
        NOW,
    );

    cache.set_capacity(1, NOW);

    let mut survivors = 0;
    for name in ["a.example", "b.example", "c.example"] {
        if cache
            .get(
                &CacheKey {
                    qname: name.into(),
                    qtype: 1,
                    dnssec_ok: false,
                },
                false,
                NOW
            )
            .is_some()
        {
            survivors += 1;
        }
    }
    // With capacity=1 and 3 shards, at most 1 shard gets allocation.
    // Depending on key distribution, 0 or 1 entries survive.
    assert!(survivors <= 1, "at most 1 entry should survive, got {survivors}");
}

#[test]
fn import_dump_ignores_visualization_field() {
    let mut cache = ResponseCache::new(8);
    let dump = CacheDump {
        exported_at_unix_secs: 0,
        entries: vec![CacheDumpEntry {
            qname: "v.example".into(),
            qtype: 1,
            rcode: 0,
            remaining_ttl_secs: 60,
            original_ttl_secs: 60,
            frozen: false,
            response_hex: "12345678".into(),
            response_visualization: Some(CacheResponseVisualization {
                id: 1,
                qname: Some("v.example".into()),
                qtype: Some(1),
                rcode: 0,
                ancount: 0,
                nscount: 0,
                arcount: 0,
                answer_ips: vec![],
                cname_chain: vec![],
            }),
        }],
    };

    let result = cache.import_dump(&dump, NOW);
    assert_eq!(result.imported, 1);
    assert_eq!(result.skipped, 0);
}

#[test]
fn export_dump_includes_response_visualization() {
    let mut cache = ResponseCache::new(4);
    // Minimal DNS response header: id=0x1234, flags=0x8180, all counts=0.
    let response = vec![
        0x12, 0x34, 0x81, 0x80, 0x00, 0x00, 0x00, 0x00, 0x00, 0x00, 0x00, 0x00,
    ];
    cache.insert(
        CacheKey {
            qname: "x.example".into(),
            qtype: 1,
            dnssec_ok: false,
        },
        response,
        30_000,
        NOW,
    );

    let dump = cache.export_dump(|_| false, NOW, 0);
    assert_eq!(dump.entries.len(), 1);
    let viz = dump.entries[0]
        .response_visualization
        .as_ref()
        .expect("visualization must exist");
    assert_eq!(viz.id, 0x1234);
    assert_eq!(viz.rcode, 0);
}

#[test]
fn entry_is_served_until_it_expires() {
    let mut cache = ResponseCache::new(4);
    cache.insert(key("a.example"), vec![1, 2, 3], 5_000, NOW);
    assert_eq!(cache.get(&key("a.example"), false, NOW + 4_999), Some(vec![1, 2, 3]));
    assert_eq!(cache.remaining_ttl(&key("a.example"), false, NOW + 4_000), Some(1_000));
    assert_eq!(cache.get(&key("a.example"), false, NOW + 5_000), None);
}

#[test]
fn served_answer_has_its_ttl_lowered() {
    let mut cache = ResponseCache::new(4);
    let mut packet = vec![0, 7, 0x81, 0x80, 0, 0, 0, 1, 0, 0, 0, 0];
    packet.extend_from_slice(&[0, 0, 1, 0, 1, 0, 0, 0, 60, 0, 4, 192, 0, 2, 1]);
    cache.insert(key("a.example"), packet.clone(), 60_000, NOW);
    let served = cache.get(&key("a.example"), false, NOW + 25_000).expect("served");
    assert_eq!(&served[17..21], &[0, 0, 0, 35]);
    let frozen = cache.get(&key("a.example"), true, NOW + 25_000).expect("frozen");
    assert_eq!(frozen, packet);
}

#[test]
fn clearing_a_domain_takes_what_lies_below_it() {
    let mut cache = ResponseCache::new(0);
    cache.insert(key("www.example.com"), vec![1], 60_000, NOW);
    cache.insert(key("example.com"), vec![2], 60_000, NOW);
    cache.insert(key("notexample.com"), vec![3], 60_000, NOW);
    assert_eq!(cache.clear_domain("Example.COM."), 2);
    assert!(cache.get(&key("www.example.com"), false, NOW).is_none());
    assert!(cache.get(&key("notexample.com"), false, NOW).is_some());
    assert_eq!(cache.clear_all(), 1);
}

#[test]
fn freezing_domains() {
    let mut cache = ResponseCache::new(4);
    assert_eq!(cache.set_freeze_domain("Example.com.", true), 1);
    assert!(cache.is_frozen_for_qname("www.example.com"));
    assert!(!cache.is_frozen_for_qname("www.example.org"));
    assert_eq!(cache.set_freeze_domain("example.com", false), 0);
    cache.set_freeze_all(true);
    assert!(cache.is_frozen_for_qname("www.example.org"));
}

#[test]
fn dump_is_read_back() {
    let mut cache = ResponseCache::new(8);
    cache.insert(key("a.example"), vec![0x12, 0x34, 0xab], 60_000, NOW);
    let dump = cache.export_dump(|_| false, NOW, 77);
    assert_eq!(dump.exported_at_unix_secs, 77);
    assert_eq!(dump.entries[0].response_hex, "1234ab");
    let mut other = ResponseCache::new(8);
    let result = other.import_dump(&dump, NOW);
    assert_eq!((result.imported, result.skipped), (1, 0));
    assert_eq!(other.get(&key("a.example"), false, NOW), Some(vec![0x12, 0x34, 0xab]));
}

#[test]
fn frozen_names_are_dumped_after_their_time() {
    let mut cache = ResponseCache::new(0);
    cache.insert(key("a.example"), vec![1], 5_000, NOW);
    cache.insert(key("b.example"), vec![2], 5_000, NOW);
    cache.insert(key("c.example"), vec![3], 90_000, NOW);
    let dump = cache.export_dump(|name| name.starts_with('a'), NOW + 10_000, 3);
    let mut lines: Vec<(&str, u64, bool)> = dump
        .entries
        .iter()
        .map(|e| (e.qname.as_str(), e.remaining_ttl_secs, e.frozen))
        .collect();
    lines.sort();
    assert_eq!(lines, vec![("a.example", 5, true), ("c.example", 80, false)]);
}

#[test]
fn taken_over_lines_are_served() {
    let line = |qname: &str, qtype: u16, ttl: u64, digits: &str, rcode: u16| CacheDumpEntry {
        qname: qname.into(),
        qtype,
        rcode,
        remaining_ttl_secs: ttl,
        original_ttl_secs: 7,
        frozen: rcode == 3,
        response_hex: digits.into(),
        response_visualization: None,
    };
    let mut cache = ResponseCache::new(0);
    cache.insert(key("old.example"), vec![9], 5_000, NOW);
    let dump = CacheDump {
        exported_at_unix_secs: 0,
        entries: vec![
            line("a.example", 1, 60, "12aB", 0),
            line("a.example", 28, 1, "", 3),
            line("b.example", 1, 0, "12", 0),
            line("c.example", 1, 60, "123", 0),
            line("d.example", 1, 60, "1g", 0),
            line("e.example", 1, 60, "FFff00", 5),
        ],
    };
    let result = cache.import_dump(&dump, NOW);
    assert_eq!((result.imported, result.skipped), (3, 3));
    assert_eq!(cache.get(&key("a.example"), true, NOW + 90_000), Some(vec![0x12, 0xab]));
    assert_eq!(cache.get(&key("e.example"), true, NOW), Some(vec![255, 255, 0]));
    let wide = CacheKey { qname: "a.example".into(), qtype: 28, dnssec_ok: false };
    assert_eq!(cache.get(&wide, false, NOW), Some(vec![]));
    for name in ["b.example", "c.example", "d.example"] {
        assert_eq!(cache.get(&key(name), true, NOW), None);
    }
    assert_eq!(cache.get(&key("old.example"), true, NOW), Some(vec![9]));
}

#[test]
fn hex_round_trip_and_refusal() {
    assert_eq!(encode_hex(&[0, 255, 16]), "00ff10");
    assert_eq!(decode_hex("00FF10"), Some(vec![0, 255, 16]));
    assert_eq!(decode_hex("0"), None);
    assert_eq!(decode_hex("zz"), None);
}

#[test]
fn shares_of_the_capacity_add_up() {
    let count = cache_shard_count(10, Some(4));
    let mut total = 0;
    for i in 0..count {
        total += bounded_shard_capacity(10, i, count).unwrap_or(0);
    }
    assert_eq!(total, 10);
}
