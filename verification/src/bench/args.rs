//! The command line of the benchmark, and the queries it sends.
use crate::codec::wire;
use crate::config::types;
use crate::text;
use vstd::prelude::*;
use vstd::utf8::*;

verus! {

#[derive(Debug, Clone, Copy, PartialEq, Eq, Structural)]
pub enum TransportProtocol {
    Udp,
    Tcp,
}

#[derive(Debug, Clone, Copy, PartialEq, Eq, Structural)]
pub enum QNameMode {
    Fixed,
    Unique,
}

/// What the benchmark is to do.
#[derive(Debug)]
pub struct BenchConfig {
    pub server: String,
    pub qname: String,
    pub qtype: u16,
    pub protocol: TransportProtocol,
    pub qname_mode: QNameMode,
    pub concurrency: usize,
    pub duration_sec: u64,
    pub warmup_sec: u64,
    pub timeout_ms: u64,
    pub admin_addr: Option<String>,
    pub out_json: Option<String>,
}

pub ghost struct BenchConfigV {
    pub server: Seq<char>,
    pub qname: Seq<char>,
    pub qtype: u16,
    pub protocol: TransportProtocol,
    pub qname_mode: QNameMode,
    pub concurrency: nat,
    pub duration_sec: nat,
    pub warmup_sec: nat,
    pub timeout_ms: nat,
    pub admin_addr: Option<Seq<char>>,
    pub out_json: Option<Seq<char>>,
}

impl View for BenchConfig {
    type V = BenchConfigV;

    open spec fn view(&self) -> BenchConfigV {
        BenchConfigV {
            server: self.server@,
            qname: self.qname@,
            qtype: self.qtype,
            protocol: self.protocol,
            qname_mode: self.qname_mode,
            concurrency: self.concurrency as nat,
            duration_sec: self.duration_sec as nat,
            warmup_sec: self.warmup_sec as nat,
            timeout_ms: self.timeout_ms as nat,
            admin_addr: types::optional_view(self.admin_addr),
            out_json: types::optional_view(self.out_json),
        }
    }
}

/// What the benchmark does without options.
pub open spec fn usual() -> BenchConfigV {
    BenchConfigV {
        server: "127.0.0.1:5301"@,
        qname: "bench.example"@,
        qtype: 1,
        protocol: TransportProtocol::Udp,
        qname_mode: QNameMode::Fixed,
        concurrency: 32,
        duration_sec: 15,
        warmup_sec: 3,
        timeout_ms: 1000,
        admin_addr: None,
        out_json: None,
    }
}

pub open spec fn is_option(a: Seq<char>) -> bool {
    a == "--server"@ || a == "--qname"@ || a == "--qtype"@ || a == "--protocol"@ || a
        == "--qname-mode"@ || a == "--concurrency"@ || a == "--duration-sec"@ || a
        == "--warmup-sec"@ || a == "--timeout-ms"@ || a == "--admin-addr"@ || a == "--out-json"@
}

/// A configuration with one option set to a value.
pub open spec fn with_option(c: BenchConfigV, a: Seq<char>, v: Seq<char>) -> Result<
    BenchConfigV,
    Seq<char>,
> {
    if a == "--server"@ {
        Ok(BenchConfigV { server: v, ..c })
    } else if a == "--qname"@ {
        Ok(BenchConfigV { qname: v, ..c })
    } else if a == "--qtype"@ {
        Ok(
            BenchConfigV {
                qtype: if text::lower(v) == text::lower("AAAA"@) {
                    28
                } else {
                    1
                },
                ..c
            },
        )
    } else if a == "--protocol"@ {
        if v == "udp"@ {
            Ok(BenchConfigV { protocol: TransportProtocol::Udp, ..c })
        } else if v == "tcp"@ {
            Ok(BenchConfigV { protocol: TransportProtocol::Tcp, ..c })
        } else {
            Err("unsupported --protocol: "@ + v)
        }
    } else if a == "--qname-mode"@ {
        if v == "fixed"@ {
            Ok(BenchConfigV { qname_mode: QNameMode::Fixed, ..c })
        } else if v == "unique"@ {
            Ok(BenchConfigV { qname_mode: QNameMode::Unique, ..c })
        } else {
            Err("unsupported --qname-mode: "@ + v)
        }
    } else if a == "--concurrency"@ {
        match text::uint_value(v, usize::MAX as nat) {
            Some(n) => Ok(BenchConfigV { concurrency: n, ..c }),
            None => Err("invalid --concurrency"@),
        }
    } else if a == "--duration-sec"@ {
        match text::uint_value(v, u64::MAX as nat) {
            Some(n) => Ok(BenchConfigV { duration_sec: n, ..c }),
            None => Err("invalid --duration-sec"@),
        }
    } else if a == "--warmup-sec"@ {
        match text::uint_value(v, u64::MAX as nat) {
            Some(n) => Ok(BenchConfigV { warmup_sec: n, ..c }),
            None => Err("invalid --warmup-sec"@),
        }
    } else if a == "--timeout-ms"@ {
        match text::uint_value(v, u64::MAX as nat) {
            Some(n) => Ok(BenchConfigV { timeout_ms: n, ..c }),
            None => Err("invalid --timeout-ms"@),
        }
    } else if a == "--admin-addr"@ {
        Ok(BenchConfigV { admin_addr: Some(v), ..c })
    } else {
        Ok(BenchConfigV { out_json: Some(v), ..c })
    }
}

/// A configuration with the options of a command line, from the first to the last.
pub open spec fn with_options(c: BenchConfigV, args: Seq<Seq<char>>) -> Result<
    BenchConfigV,
    Seq<char>,
>
    decreases args.len(),
{
    if args.len() == 0 {
        Ok(c)
    } else if !is_option(args[0]) {
        Err("unsupported argument: "@ + args[0])
    } else if args.len() == 1 {
        Err("missing value for "@ + args[0])
    } else {
        match with_option(c, args[0], args[1]) {
            Ok(next) => with_options(next, args.skip(2)),
            Err(e) => Err(e),
        }
    }
}

pub open spec fn config_result(r: Result<BenchConfig, String>) -> Result<BenchConfigV, Seq<char>> {
    match r {
        Ok(c) => Ok(c@),
        Err(s) => Err(s@),
    }
}

fn known(a: &str) -> (r: bool)
    ensures
        r == is_option(a@),
{
    text::same(a, "--server") || text::same(a, "--qname") || text::same(a, "--qtype")
        || text::same(a, "--protocol") || text::same(a, "--qname-mode") || text::same(
        a,
        "--concurrency",
    ) || text::same(a, "--duration-sec") || text::same(a, "--warmup-sec") || text::same(
        a,
        "--timeout-ms",
    ) || text::same(a, "--admin-addr") || text::same(a, "--out-json")
}

fn number(v: &str, max: u64) -> (r: Option<u64>)
    ensures
        text::uint_value(v@, max as nat) == (match r {
            Some(n) => Some(n as nat),
            None => None,
        }),
        r matches Some(n) ==> n <= max,
{
    text::parse_uint(text::chars_of(v).as_slice(), max)
}

fn set_option(c: BenchConfig, a: &str, v: &str) -> (r: Result<BenchConfig, String>)
    requires
        is_option(a@),
    ensures
        config_result(r) == with_option(c@, a@, v@),
{
    if text::same(a, "--server") {
        Ok(BenchConfig { server: v.to_owned(), ..c })
    } else if text::same(a, "--qname") {
        Ok(BenchConfig { qname: v.to_owned(), ..c })
    } else if text::same(a, "--qtype") {
        let qtype: u16 = if text::same_fold(v, "AAAA") {
            28
        } else {
            1
        };
        Ok(BenchConfig { qtype, ..c })
    } else if text::same(a, "--protocol") {
        if text::same(v, "udp") {
            Ok(BenchConfig { protocol: TransportProtocol::Udp, ..c })
        } else if text::same(v, "tcp") {
            Ok(BenchConfig { protocol: TransportProtocol::Tcp, ..c })
        } else {
            Err(text::concat("unsupported --protocol: ", v))
        }
    } else if text::same(a, "--qname-mode") {
        if text::same(v, "fixed") {
            Ok(BenchConfig { qname_mode: QNameMode::Fixed, ..c })
        } else if text::same(v, "unique") {
            Ok(BenchConfig { qname_mode: QNameMode::Unique, ..c })
        } else {
            Err(text::concat("unsupported --qname-mode: ", v))
        }
    } else if text::same(a, "--concurrency") {
        match number(v, usize::MAX as u64) {
            Some(n) => Ok(BenchConfig { concurrency: n as usize, ..c }),
            None => Err("invalid --concurrency".to_owned()),
        }
    } else if text::same(a, "--duration-sec") {
        match number(v, 0xffff_ffff_ffff_ffff) {
            Some(n) => Ok(BenchConfig { duration_sec: n, ..c }),
            None => Err("invalid --duration-sec".to_owned()),
        }
    } else if text::same(a, "--warmup-sec") {
        match number(v, 0xffff_ffff_ffff_ffff) {
            Some(n) => Ok(BenchConfig { warmup_sec: n, ..c }),
            None => Err("invalid --warmup-sec".to_owned()),
        }
    } else if text::same(a, "--timeout-ms") {
        match number(v, 0xffff_ffff_ffff_ffff) {
            Some(n) => Ok(BenchConfig { timeout_ms: n, ..c }),
            None => Err("invalid --timeout-ms".to_owned()),
        }
    } else if text::same(a, "--admin-addr") {
        Ok(BenchConfig { admin_addr: Some(v.to_owned()), ..c })
    } else {
        Ok(BenchConfig { out_json: Some(v.to_owned()), ..c })
    }
}

/// Reads the command line of the benchmark.
pub fn parse_args(args: &Vec<String>) -> (r: Result<BenchConfig, String>)
    ensures
        config_result(r) == with_options(usual(), text::views(args@)),
{
    let ghost all = text::views(args@);
    let mut config = BenchConfig {
        server: "127.0.0.1:5301".to_owned(),
        qname: "bench.example".to_owned(),
        qtype: 1,
        protocol: TransportProtocol::Udp,
        qname_mode: QNameMode::Fixed,
        concurrency: 32,
        duration_sec: 15,
        warmup_sec: 3,
        timeout_ms: 1000,
        admin_addr: None,
        out_json: None,
    };
    let n: usize = args.len();
    let mut i: usize = 0;
    assert(all.skip(0) =~= all);
    while i < n
        invariant
            i <= n,
            n == args@.len(),
            all == text::views(args@),
            with_options(usual(), all) == with_options(config@, all.skip(i as int)),
        decreases n - i,
    {
        let ghost rest = all.skip(i as int);
        assert(rest[0] == args@[i as int]@);
        let a = args[i].as_str();
        if !known(a) {
            return Err(text::concat("unsupported argument: ", a));
        }
        if n - i == 1 {
            return Err(text::concat("missing value for ", a));
        }
        assert(rest[1] == args@[i + 1]@);
        match set_option(config, a, args[i + 1].as_str()) {
            Ok(next) => {
                config = next;
            },
            Err(e) => return Err(e),
        }
        assert(rest.skip(2) =~= all.skip(i + 2));
        i = i + 2;
    }
    Ok(config)
}

/// The identifier of the query of a worker: the last 16 bits of its number.
pub fn query_id(sequence: u64) -> (r: u16)
    ensures
        r == sequence % 65536,
{
    (sequence % 65536) as u16
}

/// The name that a worker asks for.
pub open spec fn asked_name(
    mode: QNameMode,
    worker: nat,
    sequence: nat,
    qname: Seq<char>,
) -> Seq<char> {
    match mode {
        QNameMode::Fixed => qname,
        QNameMode::Unique => "w"@ + text::decimal(worker) + "-s"@ + text::decimal(sequence) + "."@
            + qname,
    }
}

/// The name that a worker asks for.
pub fn effective_qname(mode: QNameMode, worker: u64, sequence: u64, qname: &str) -> (r: String)
    ensures
        r@ == asked_name(mode, worker as nat, sequence as nat, qname@),
{
    match mode {
        QNameMode::Fixed => qname.to_owned(),
        QNameMode::Unique => {
            let mut s = text::concat("w", text::decimal_of(worker).as_str());
            s.append("-s");
            s.append(text::decimal_of(sequence).as_str());
            s.append(".");
            s.append(qname);
            s
        },
    }
}

/// The bytes of labels, empty ones left out; the first that is too long is an error.
pub open spec fn label_bytes(labels: Seq<Seq<char>>) -> Result<Seq<u8>, Seq<char>>
    decreases labels.len(),
{
    if labels.len() == 0 {
        Ok(Seq::empty())
    } else {
        let bytes = encode_utf8(labels.last());
        match label_bytes(labels.drop_last()) {
            Err(e) => Err(e),
            Ok(before) => if bytes.len() == 0 {
                Ok(before)
            } else if bytes.len() > 63 {
                Err("invalid qname label too long: "@ + labels.last())
            } else {
                Ok(before.push(bytes.len() as u8) + bytes)
            },
        }
    }
}

/// A query for a name and a type, recursion desired.
pub open spec fn query_bytes(id: u16, name: Seq<char>, qtype: u16) -> Result<Seq<u8>, Seq<char>> {
    match label_bytes(text::split(name, '.')) {
        Err(e) => Err(e),
        Ok(labels) => Ok(
            wire::bytes16(id) + wire::bytes16(0x0100) + wire::bytes16(1) + wire::bytes16(0)
                + wire::bytes16(0) + wire::bytes16(0) + labels + seq![0u8] + wire::bytes16(qtype)
                + wire::bytes16(1),
        ),
    }
}

proof fn lemma_label_error(labels: Seq<Seq<char>>, i: int)
    requires
        0 <= i <= labels.len(),
        label_bytes(labels.take(i)) is Err,
    ensures
        label_bytes(labels) == label_bytes(labels.take(i)),
    decreases labels.len() - i,
{
    if i < labels.len() {
        assert(labels.take(i + 1).drop_last() =~= labels.take(i));
        lemma_label_error(labels, i + 1);
    } else {
        assert(labels.take(i) =~= labels);
    }
}

/// Builds a query.
pub fn build_query(id: u16, name: &str, qtype: u16) -> (r: Result<Vec<u8>, String>)
    ensures
        (match r {
            Ok(p) => Ok(p@),
            Err(s) => Err(s@),
        }) == query_bytes(id, name@, qtype),
{
    let mut packet: Vec<u8> = Vec::new();
    wire::push_u16(&mut packet, id);
    wire::push_u16(&mut packet, 0x0100);
    wire::push_u16(&mut packet, 1);
    wire::push_u16(&mut packet, 0);
    wire::push_u16(&mut packet, 0);
    wire::push_u16(&mut packet, 0);
    let ghost head = packet@;
    assert(head =~= wire::bytes16(id) + wire::bytes16(0x0100) + wire::bytes16(1) + wire::bytes16(0)
        + wire::bytes16(0) + wire::bytes16(0));
    let labels = text::split_chars(text::chars_of(name).as_slice(), '.');
    let ghost all = text::char_views(labels@);
    let mut i: usize = 0;
    assert(all.take(0).len() == 0);
    assert(head + Seq::<u8>::empty() =~= head);
    while i < labels.len()
        invariant
            i <= labels@.len(),
            all == text::char_views(labels@),
            all == text::split(name@, '.'),
            label_bytes(all.take(i as int)) matches Ok(b) && packet@ == head + b,
        decreases labels@.len() - i,
    {
        let ghost before = packet@;
        let ghost done = label_bytes(all.take(i as int))->Ok_0;
        assert(all.take(i + 1).drop_last() =~= all.take(i as int));
        assert(all.take(i + 1).last() == labels@[i as int]@);
        let label = text::string_of(labels[i].as_slice());
        let bytes = label.as_str().as_bytes();
        assert(bytes@ == encode_utf8(labels@[i as int]@));
        if bytes.len() > 63 {
            proof {
                lemma_label_error(all, i + 1);
            }
            return Err(text::concat("invalid qname label too long: ", label.as_str()));
        }
        if bytes.len() > 0 {
            packet.push(bytes.len() as u8);
            wire::push_bytes(&mut packet, bytes);
            assert(packet@ =~= head + (done.push(bytes@.len() as u8) + bytes@));
        }
        i = i + 1;
    }
    assert(all.take(i as int) =~= all);
    packet.push(0);
    wire::push_u16(&mut packet, qtype);
    wire::push_u16(&mut packet, 1);
    assert(packet@ =~= head + label_bytes(all)->Ok_0 + seq![0u8] + wire::bytes16(qtype)
        + wire::bytes16(1));
    Ok(packet)
}

/// How a request of the benchmark went.
#[derive(Debug, Clone, Copy, PartialEq, Eq, Structural)]
pub enum Outcome {
    Answered,
    Failed,
    TimedOut,
}

/// The requests that were measured.
#[derive(Debug, Clone, Copy, PartialEq, Eq, Structural)]
pub struct Tally {
    pub total_requests: u64,
    pub successes: u64,
    pub timeouts: u64,
    pub errors: u64,
}

pub open spec fn next(n: u64) -> u64 {
    if n == u64::MAX {
        0
    } else {
        (n + 1) as u64
    }
}

/// A tally with one more request; a request that is not measured does not count.
pub open spec fn tallied(t: Tally, outcome: Outcome, measured: bool) -> Tally {
    if !measured {
        t
    } else {
        let t = Tally { total_requests: next(t.total_requests), ..t };
        match outcome {
            Outcome::Answered => Tally { successes: next(t.successes), ..t },
            Outcome::TimedOut => Tally { timeouts: next(t.timeouts), ..t },
            Outcome::Failed => Tally { errors: next(t.errors), ..t },
        }
    }
}

/// Counts a request of the benchmark.
pub fn record_benchmark_outcome(t: &mut Tally, outcome: Outcome, measured: bool)
    ensures
        *final(t) == tallied(*old(t), outcome, measured),
{
    if measured {
        t.total_requests = t.total_requests.wrapping_add(1);
        match outcome {
            Outcome::Answered => {
                t.successes = t.successes.wrapping_add(1);
            },
            Outcome::TimedOut => {
                t.timeouts = t.timeouts.wrapping_add(1);
            },
            Outcome::Failed => {
                t.errors = t.errors.wrapping_add(1);
            },
        }
    }
}

/// Every measured request is a success, a timeout or an error, and counts once.
pub proof fn lemma_tally_adds_up(t: Tally, outcome: Outcome)
    requires
        t.total_requests == t.successes + t.timeouts + t.errors,
        t.total_requests < u64::MAX,
    ensures
        ({
            let n = tallied(t, outcome, true);
            n.total_requests == n.successes + n.timeouts + n.errors && n.total_requests
                == t.total_requests + 1
        }),
{
}

} // verus!
