//! The command line of the control program, and what it shows of the answers.
use crate::cache::dump;
use crate::config::types;
use crate::control::ControlCommand;
use crate::json_doc;
use crate::json_doc::{get, get_text, JsonValue};
use crate::text;
use vstd::prelude::*;

verus! {

/// What a command line asks for.
pub enum CtlAction {
    /// A command that is sent as it is.
    Send(ControlCommand),
    /// The entries of a file that are to be imported into the cache.
    ImportFrom(String),
}

pub ghost enum ActionV {
    Start,
    Stop,
    StopAll,
    Reload,
    Stats,
    Health,
    Ready,
    Version,
    CacheFreezeAll(bool),
    CacheFreezeDomain(Seq<char>, bool),
    CacheClearAll,
    CacheClearDomain(Seq<char>),
    CacheExport,
    CacheImport(u64, Seq<dump::DumpEntryV>),
    TopQueries(nat, nat),
    TopClients(nat, nat),
    ImportFrom(Seq<char>),
}

pub open spec fn action_view(a: CtlAction) -> ActionV {
    match a {
        CtlAction::ImportFrom(s) => ActionV::ImportFrom(s@),
        CtlAction::Send(c) => match c {
            ControlCommand::Start => ActionV::Start,
            ControlCommand::Stop => ActionV::Stop,
            ControlCommand::Reload => ActionV::Reload,
            ControlCommand::Stats => ActionV::Stats,
            ControlCommand::Health => ActionV::Health,
            ControlCommand::Ready => ActionV::Ready,
            ControlCommand::Version => ActionV::Version,
            ControlCommand::CacheFreezeAll { enabled } => ActionV::CacheFreezeAll(enabled),
            ControlCommand::CacheFreezeDomain { domain, enabled } => ActionV::CacheFreezeDomain(
                domain@,
                enabled,
            ),
            ControlCommand::CacheClearAll => ActionV::CacheClearAll,
            ControlCommand::CacheClearDomain { domain } => ActionV::CacheClearDomain(domain@),
            ControlCommand::CacheExport => ActionV::CacheExport,
            ControlCommand::TopQueries { n, window_secs } => ActionV::TopQueries(
                n as nat,
                window_secs as nat,
            ),
            ControlCommand::TopClients { n, window_secs } => ActionV::TopClients(
                n as nat,
                window_secs as nat,
            ),
            ControlCommand::StopAll => ActionV::StopAll,
            ControlCommand::CacheImport { dump } => ActionV::CacheImport(
                dump.exported_at_unix_secs,
                dump::dump_views(dump.entries@),
            ),
        },
    }
}

/// Why a command line is refused, in words.
#[derive(Debug, Clone)]
pub struct CliError {
    pub message: String,
}

pub open spec fn action_result(r: Result<CtlAction, CliError>) -> Result<ActionV, Seq<char>> {
    match r {
        Ok(a) => Ok(action_view(a)),
        Err(e) => Err(e.message@),
    }
}

/// The argument that follows the first occurrence of an option that has one behind it.
pub open spec fn option_at(args: Seq<Seq<char>>, name: Seq<char>) -> Option<Seq<char>>
    decreases args.len(),
{
    if args.len() < 2 {
        None
    } else if args[0] == name {
        Some(args[1])
    } else {
        option_at(args.skip(1), name)
    }
}

/// A number among the options; `usual` where there is none that can be read.
pub open spec fn number_option(
    args: Seq<Seq<char>>,
    name: Seq<char>,
    max: nat,
    usual: nat,
) -> nat {
    match option_at(args, name) {
        Some(s) => match text::uint_value(s, max) {
            Some(n) => n,
            None => usual,
        },
        None => usual,
    }
}

/// The command that asks for a ranking.
pub open spec fn top_action(args: Seq<Seq<char>>, prefix: Seq<char>) -> Result<
    ActionV,
    Seq<char>,
> {
    let n = number_option(args, "--top"@, usize::MAX as nat, 10);
    let window = number_option(args, "--window"@, u64::MAX as nat, 300);
    if args.len() < 2 {
        Err("usage: "@ + prefix + " top <queries|clients> [--top N] [--window SECS]"@)
    } else if args[1] == "queries"@ {
        Ok(ActionV::TopQueries(n, window))
    } else if args[1] == "clients"@ {
        Ok(ActionV::TopClients(n, window))
    } else {
        Err("unknown top subcommand: "@ + args[1])
    }
}

pub open spec fn on_off(s: Seq<char>) -> Result<bool, Seq<char>> {
    if s == "on"@ {
        Ok(true)
    } else if s == "off"@ {
        Ok(false)
    } else {
        Err("expected on/off, got: "@ + s)
    }
}

pub open spec fn freeze_action(args: Seq<Seq<char>>, prefix: Seq<char>) -> Result<
    ActionV,
    Seq<char>,
> {
    if args.len() < 4 {
        Err("usage: "@ + prefix + " cache freeze all <on|off> | domain <name> <on|off>"@)
    } else if args[2] == "all"@ {
        match on_off(args[3]) {
            Ok(b) => Ok(ActionV::CacheFreezeAll(b)),
            Err(e) => Err(e),
        }
    } else if args[2] == "domain"@ {
        if args.len() < 5 {
            Err("usage: "@ + prefix + " cache freeze domain <name> <on|off>"@)
        } else {
            match on_off(args[4]) {
                Ok(b) => Ok(ActionV::CacheFreezeDomain(args[3], b)),
                Err(e) => Err(e),
            }
        }
    } else {
        Err("unknown cache freeze target: "@ + args[2])
    }
}

pub open spec fn clear_action(args: Seq<Seq<char>>, prefix: Seq<char>) -> Result<
    ActionV,
    Seq<char>,
> {
    if args.len() < 3 || args[2] == "all"@ {
        Ok(ActionV::CacheClearAll)
    } else if args[2] == "domain"@ {
        if args.len() < 4 {
            Err("usage: "@ + prefix + " cache clear domain <name>"@)
        } else {
            Ok(ActionV::CacheClearDomain(args[3]))
        }
    } else {
        Ok(ActionV::CacheClearDomain(args[2]))
    }
}

/// The command on the cache that a command line gives.
pub open spec fn cache_action(args: Seq<Seq<char>>, prefix: Seq<char>) -> Result<
    ActionV,
    Seq<char>,
> {
    if args.len() < 2 {
        Err("usage: "@ + prefix + " cache <freeze|clear|export|import> ..."@)
    } else if args[1] == "freeze"@ {
        freeze_action(args, prefix)
    } else if args[1] == "clear"@ {
        clear_action(args, prefix)
    } else if args[1] == "export"@ {
        Ok(ActionV::CacheExport)
    } else if args[1] == "import"@ {
        Ok(
            ActionV::ImportFrom(
                match option_at(args, "--in"@) {
                    Some(s) => s,
                    None => "cache_dump.json"@,
                },
            ),
        )
    } else {
        Err("unknown cache subcommand: "@ + args[1])
    }
}

/// What a command line asks for.
pub open spec fn ctl_action(args: Seq<Seq<char>>, prefix: Seq<char>) -> Result<
    ActionV,
    Seq<char>,
> {
    if args.len() == 0 {
        Err(
            "usage: "@ + prefix
                + " <start|stop|reload|stats|health|ready|version|top ...|cache ...> [--config path] [--server host:port] [--token value]"@,
        )
    } else if args[0] == "start"@ {
        Ok(ActionV::Start)
    } else if args[0] == "stop"@ {
        Ok(ActionV::Stop)
    } else if args[0] == "reload"@ {
        Ok(ActionV::Reload)
    } else if args[0] == "stats"@ {
        Ok(ActionV::Stats)
    } else if args[0] == "health"@ {
        Ok(ActionV::Health)
    } else if args[0] == "ready"@ {
        Ok(ActionV::Ready)
    } else if args[0] == "version"@ {
        Ok(ActionV::Version)
    } else if args[0] == "cache"@ {
        cache_action(args, prefix)
    } else if args[0] == "top"@ {
        top_action(args, prefix)
    } else {
        Err("unknown ctl subcommand: "@ + args[0])
    }
}

fn refused(message: String) -> (r: Result<CtlAction, CliError>)
    ensures
        action_result(r) == Err::<ActionV, Seq<char>>(message@),
{
    Err(CliError { message })
}

fn usage(prefix: &str, rest: &str) -> (r: Result<CtlAction, CliError>)
    ensures
        action_result(r) == Err::<ActionV, Seq<char>>("usage: "@ + prefix@ + rest@),
{
    let mut s = text::concat("usage: ", prefix);
    s.append(rest);
    refused(s)
}

/// The argument that follows an option.
pub fn option_value(args: &Vec<String>, name: &str) -> (r: Option<String>)
    ensures
        types::optional_view(r) == option_at(text::views(args@), name@),
{
    let ghost all = text::views(args@);
    let n: usize = args.len();
    let mut i: usize = 0;
    assert(all.skip(0) =~= all);
    while i < n && n - i >= 2
        invariant
            i <= n,
            n == args@.len(),
            all == text::views(args@),
            option_at(all, name@) == option_at(all.skip(i as int), name@),
        decreases n - i,
    {
        let ghost rest = all.skip(i as int);
        assert(rest[0] == args@[i as int]@ && rest[1] == args@[i + 1]@);
        if text::same(args[i].as_str(), name) {
            return Some(args[i + 1].clone());
        }
        assert(rest.skip(1) =~= all.skip(i + 1));
        i = i + 1;
    }
    None
}

fn read_number_option(args: &Vec<String>, name: &str, max: u64, usual: u64) -> (r: u64)
    requires
        usual <= max,
    ensures
        r == number_option(text::views(args@), name@, max as nat, usual as nat),
        r <= max,
{
    match option_value(args, name) {
        Some(s) => match text::parse_uint(text::chars_of(s.as_str()).as_slice(), max) {
            Some(n) => n,
            None => usual,
        },
        None => usual,
    }
}

/// Reads the command that asks for a ranking.
pub fn parse_top_command(args: &Vec<String>, command_prefix: &str) -> (r: Result<
    CtlAction,
    CliError,
>)
    ensures
        action_result(r) == top_action(text::views(args@), command_prefix@),
{
    if args.len() < 2 {
        return usage(
            command_prefix,
            " top <queries|clients> [--top N] [--window SECS]",
        );
    }
    assert(text::views(args@)[1] == args@[1]@);
    let n = read_number_option(args, "--top", usize::MAX as u64, 10) as usize;
    let window_secs = read_number_option(args, "--window", 0xffff_ffff_ffff_ffff, 300);
    if text::same(args[1].as_str(), "queries") {
        Ok(CtlAction::Send(ControlCommand::TopQueries { n, window_secs }))
    } else if text::same(args[1].as_str(), "clients") {
        Ok(CtlAction::Send(ControlCommand::TopClients { n, window_secs }))
    } else {
        refused(text::concat("unknown top subcommand: ", args[1].as_str()))
    }
}

fn parse_on_off(value: &str) -> (r: Result<bool, CliError>)
    ensures
        on_off(value@) == (match r {
            Ok(b) => Ok(b),
            Err(e) => Err(e.message@),
        }),
{
    if text::same(value, "on") {
        Ok(true)
    } else if text::same(value, "off") {
        Ok(false)
    } else {
        Err(CliError { message: text::concat("expected on/off, got: ", value) })
    }
}

fn parse_freeze_command(args: &Vec<String>, prefix: &str) -> (r: Result<CtlAction, CliError>)
    ensures
        action_result(r) == freeze_action(text::views(args@), prefix@),
{
    if args.len() < 4 {
        return usage(prefix, " cache freeze all <on|off> | domain <name> <on|off>");
    }
    assert(text::views(args@)[2] == args@[2]@ && text::views(args@)[3] == args@[3]@);
    if text::same(args[2].as_str(), "all") {
        match parse_on_off(args[3].as_str()) {
            Ok(enabled) => Ok(CtlAction::Send(ControlCommand::CacheFreezeAll { enabled })),
            Err(e) => Err(e),
        }
    } else if text::same(args[2].as_str(), "domain") {
        if args.len() < 5 {
            return usage(prefix, " cache freeze domain <name> <on|off>");
        }
        assert(text::views(args@)[4] == args@[4]@);
        match parse_on_off(args[4].as_str()) {
            Ok(enabled) => Ok(
                CtlAction::Send(
                    ControlCommand::CacheFreezeDomain { domain: args[3].clone(), enabled },
                ),
            ),
            Err(e) => Err(e),
        }
    } else {
        refused(text::concat("unknown cache freeze target: ", args[2].as_str()))
    }
}

fn parse_clear_command(args: &Vec<String>, prefix: &str) -> (r: Result<CtlAction, CliError>)
    ensures
        action_result(r) == clear_action(text::views(args@), prefix@),
{
    if args.len() < 3 {
        return Ok(CtlAction::Send(ControlCommand::CacheClearAll));
    }
    assert(text::views(args@)[2] == args@[2]@);
    if text::same(args[2].as_str(), "all") {
        Ok(CtlAction::Send(ControlCommand::CacheClearAll))
    } else if text::same(args[2].as_str(), "domain") {
        if args.len() < 4 {
            return usage(prefix, " cache clear domain <name>");
        }
        assert(text::views(args@)[3] == args@[3]@);
        Ok(CtlAction::Send(ControlCommand::CacheClearDomain { domain: args[3].clone() }))
    } else {
        Ok(CtlAction::Send(ControlCommand::CacheClearDomain { domain: args[2].clone() }))
    }
}

/// Reads a command on the cache.
pub fn parse_cache_command(args: &Vec<String>, command_prefix: &str) -> (r: Result<
    CtlAction,
    CliError,
>)
    ensures
        action_result(r) == cache_action(text::views(args@), command_prefix@),
{
    if args.len() < 2 {
        return usage(command_prefix, " cache <freeze|clear|export|import> ...");
    }
    assert(text::views(args@)[1] == args@[1]@);
    if text::same(args[1].as_str(), "freeze") {
        parse_freeze_command(args, command_prefix)
    } else if text::same(args[1].as_str(), "clear") {
        parse_clear_command(args, command_prefix)
    } else if text::same(args[1].as_str(), "export") {
        Ok(CtlAction::Send(ControlCommand::CacheExport))
    } else if text::same(args[1].as_str(), "import") {
        match option_value(args, "--in") {
            Some(path) => Ok(CtlAction::ImportFrom(path)),
            None => Ok(CtlAction::ImportFrom("cache_dump.json".to_owned())),
        }
    } else {
        refused(text::concat("unknown cache subcommand: ", args[1].as_str()))
    }
}

/// Reads a command line.
pub fn parse_control_command(args: &Vec<String>, command_prefix: &str) -> (r: Result<
    CtlAction,
    CliError,
>)
    ensures
        action_result(r) == ctl_action(text::views(args@), command_prefix@),
{
    if args.len() == 0 {
        return usage(
            command_prefix,
            " <start|stop|reload|stats|health|ready|version|top ...|cache ...> [--config path] [--server host:port] [--token value]",
        );
    }
    assert(text::views(args@)[0] == args@[0]@);
    let word = args[0].as_str();
    if text::same(word, "start") {
        Ok(CtlAction::Send(ControlCommand::Start))
    } else if text::same(word, "stop") {
        Ok(CtlAction::Send(ControlCommand::Stop))
    } else if text::same(word, "reload") {
        Ok(CtlAction::Send(ControlCommand::Reload))
    } else if text::same(word, "stats") {
        Ok(CtlAction::Send(ControlCommand::Stats))
    } else if text::same(word, "health") {
        Ok(CtlAction::Send(ControlCommand::Health))
    } else if text::same(word, "ready") {
        Ok(CtlAction::Send(ControlCommand::Ready))
    } else if text::same(word, "version") {
        Ok(CtlAction::Send(ControlCommand::Version))
    } else if text::same(word, "cache") {
        parse_cache_command(args, command_prefix)
    } else if text::same(word, "top") {
        parse_top_command(args, command_prefix)
    } else {
        refused(text::concat("unknown ctl subcommand: ", word))
    }
}

/// What the control program says of an answer that is an error; nothing where it is none.
pub open spec fn failure_text(
    status: Seq<char>,
    code: Seq<char>,
    message: Seq<char>,
    server: Seq<char>,
    config: Seq<char>,
) -> Option<Seq<char>> {
    if text::lower(status) != text::lower("error"@) {
        None
    } else if code == "unauthorized"@ {
        Some(
            "control command unauthorized: server="@ + server + " config="@ + config + " message="@
                + message
                + ". The running agent and ctl must use the same control_token. If the agent was started with another config file, rerun ctl with --config <same-config> or pass --token <same-token> explicitly."@,
        )
    } else {
        Some(
            "control command failed: server="@ + server + " code="@ + code + " message="@ + message,
        )
    }
}

/// What the control program says of an answer that is an error.
pub fn describe_failure(status: &str, code: &str, message: &str, server: &str, config: &str) -> (r:
    Option<String>)
    ensures
        types::optional_view(r) == failure_text(status@, code@, message@, server@, config@),
{
    if !text::same_fold(status, "error") {
        return None;
    }
    if text::same(code, "unauthorized") {
        let mut s = text::concat("control command unauthorized: server=", server);
        s.append(" config=");
        s.append(config);
        s.append(" message=");
        s.append(message);
        s.append(
            ". The running agent and ctl must use the same control_token. If the agent was started with another config file, rerun ctl with --config <same-config> or pass --token <same-token> explicitly.",
        );
        return Some(s);
    }
    let mut s = text::concat("control command failed: server=", server);
    s.append(" code=");
    s.append(code);
    s.append(" message=");
    s.append(message);
    Some(s)
}

/// A line of a ranking of domains or clients. The share of successes is there where the answer
/// gives it; it is held by the text of its number.
pub struct TopRow {
    pub name: String,
    pub count: u64,
    pub success_count: u64,
    pub success_rate: Option<String>,
}

pub ghost struct TopRowV {
    pub name: Seq<char>,
    pub count: u64,
    pub success_count: u64,
    pub success_rate: Option<Seq<char>>,
}

/// What is shown of a ranking.
pub enum TopView {
    NoData,
    Empty,
    Disabled,
    Rows(u64, Vec<TopRow>),
}

pub ghost enum TopViewV {
    NoData,
    Empty,
    Disabled,
    Rows(u64, Seq<TopRowV>),
}

pub open spec fn row_views(rows: Seq<TopRow>) -> Seq<TopRowV> {
    rows.map_values(
        |r: TopRow|
            TopRowV {
                name: r.name@,
                count: r.count,
                success_count: r.success_count,
                success_rate: types::optional_view(r.success_rate),
            },
    )
}

pub open spec fn top_view(v: TopView) -> TopViewV {
    match v {
        TopView::NoData => TopViewV::NoData,
        TopView::Empty => TopViewV::Empty,
        TopView::Disabled => TopViewV::Disabled,
        TopView::Rows(w, rows) => TopViewV::Rows(w, row_views(rows@)),
    }
}

/// The entries of an object; none for any other value.
pub open spec fn fields(v: json_doc::JsonV) -> json_doc::ObjectV {
    match v {
        json_doc::JsonV::Object(o) => o,
        _ => Seq::empty(),
    }
}

/// The number that a key has, as the text of a number.
pub open spec fn number_text(o: json_doc::ObjectV, key: Seq<char>) -> Option<Seq<char>> {
    match json_doc::lookup(o, key) {
        Some(json_doc::JsonV::Float(s)) => Some(s),
        Some(json_doc::JsonV::Unsigned(n)) => Some(text::decimal(n as nat)),
        Some(json_doc::JsonV::Negative(n)) => Some(
            if n < 0 {
                "-"@ + text::decimal((-n) as nat)
            } else {
                text::decimal(n as nat)
            },
        ),
        _ => None,
    }
}

pub open spec fn count_at(o: json_doc::ObjectV, key: Seq<char>) -> u64 {
    match json_doc::lookup(o, key) {
        Some(json_doc::JsonV::Unsigned(n)) => n,
        _ => 0,
    }
}

pub open spec fn top_row(v: json_doc::JsonV, name_key: Seq<char>) -> TopRowV {
    let o = fields(v);
    TopRowV {
        name: match json_doc::text_at(o, name_key) {
            Some(s) => s,
            None => "-"@,
        },
        count: count_at(o, "count"@),
        success_count: count_at(o, "success_count"@),
        success_rate: number_text(o, "success_rate"@),
    }
}

/// What is shown of the data of an answer to a question for a ranking: of domains where
/// `is_queries`, otherwise of clients.
pub open spec fn top_of(data: Option<json_doc::JsonV>, is_queries: bool) -> TopViewV {
    match data {
        None => TopViewV::NoData,
        Some(v) => {
            let o = fields(v);
            match json_doc::lookup(o, "entries"@) {
                Some(json_doc::JsonV::Array(entries)) => if json_doc::lookup(o, "enabled"@) == Some(
                    json_doc::JsonV::Bool(false),
                ) {
                    TopViewV::Disabled
                } else {
                    TopViewV::Rows(
                        count_at(o, "window_secs"@),
                        entries.map_values(
                            |e: json_doc::JsonV|
                                top_row(
                                    e,
                                    if is_queries {
                                        "domain"@
                                    } else {
                                        "client"@
                                    },
                                ),
                        ),
                    )
                },
                _ => TopViewV::Empty,
            }
        },
    }
}

fn read_count(o: &Vec<(String, JsonValue)>, key: &str) -> (r: u64)
    ensures
        r == count_at(json_doc::object_view(o@), key@),
{
    match get(o, key) {
        Some(JsonValue::Unsigned(n)) => *n,
        _ => 0,
    }
}

fn read_number_text(o: &Vec<(String, JsonValue)>, key: &str) -> (r: Option<String>)
    ensures
        types::optional_view(r) == number_text(json_doc::object_view(o@), key@),
{
    match get(o, key) {
        Some(JsonValue::Float(s)) => Some(s.clone()),
        Some(JsonValue::Unsigned(n)) => Some(text::decimal_of(*n)),
        Some(JsonValue::Negative(n)) => {
            let n: i64 = *n;
            if n < 0 {
                let m: u64 = (-(n as i128)) as u64;
                Some(text::concat("-", text::decimal_of(m).as_str()))
            } else {
                Some(text::decimal_of(n as u64))
            }
        },
        _ => None,
    }
}

fn read_row(v: &JsonValue, name_key: &str) -> (r: TopRow)
    ensures
        row_views(seq![r])[0] == top_row(v@, name_key@),
{
    let none: Vec<(String, JsonValue)> = Vec::new();
    let o = match v {
        JsonValue::Object(o) => {
            proof {
                json_doc::lemma_object_view(*o);
            }
            o
        },
        _ => {
            assert(json_doc::object_view(none@) =~= Seq::empty());
            &none
        },
    };
    assert(json_doc::object_view(o@) == fields(v@));
    let name = match get_text(o, name_key) {
        Some(s) => s,
        None => "-".to_owned(),
    };
    TopRow {
        name,
        count: read_count(o, "count"),
        success_count: read_count(o, "success_count"),
        success_rate: read_number_text(o, "success_rate"),
    }
}

/// What is shown of the data of an answer to a question for a ranking.
pub fn read_top_response(data: Option<&JsonValue>, is_queries: bool) -> (r: TopView)
    ensures
        top_view(r) == top_of(
            (match data {
                Some(v) => Some(v@),
                None => None,
            }),
            is_queries,
        ),
{
    let v = match data {
        None => return TopView::NoData,
        Some(v) => v,
    };
    let o = match v {
        JsonValue::Object(o) => {
            proof {
                json_doc::lemma_object_view(*o);
            }
            o
        },
        _ => return TopView::Empty,
    };
    let name_key = if is_queries {
        "domain"
    } else {
        "client"
    };
    match get(o, "entries") {
        Some(JsonValue::Array(entries)) => {
            proof {
                json_doc::lemma_array_view(*entries);
            }
            if let Some(JsonValue::Bool(enabled)) = get(o, "enabled") {
                if !*enabled {
                    return TopView::Disabled;
                }
            }
            let ghost all = json_doc::array_view(entries@);
            let ghost shown = all.map_values(|e: json_doc::JsonV| top_row(e, name_key@));
            let mut rows: Vec<TopRow> = Vec::new();
            let mut i: usize = 0;
            assert(row_views(rows@) =~= shown.take(0));
            while i < entries.len()
                invariant
                    i <= entries@.len(),
                    all == json_doc::array_view(entries@),
                    shown == all.map_values(|e: json_doc::JsonV| top_row(e, name_key@)),
                    row_views(rows@) == shown.take(i as int),
                decreases entries@.len() - i,
            {
                let ghost before = row_views(rows@);
                assert(shown[i as int] == top_row(entries@[i as int]@, name_key@));
                let row = read_row(&entries[i], name_key);
                rows.push(row);
                assert(row_views(rows@) =~= before.push(row_views(seq![row])[0]));
                assert(before.push(shown[i as int]) =~= shown.take(i + 1));
                i = i + 1;
            }
            assert(shown.take(i as int) =~= shown);
            TopView::Rows(read_count(o, "window_secs"), rows)
        },
        _ => TopView::Empty,
    }
}

/// Where a command is sent, with which token, and where an export is written.
#[derive(Debug)]
pub struct CtlTarget {
    pub server: String,
    pub token: Option<String>,
    pub output: String,
}

pub ghost struct CtlTargetV {
    pub server: Seq<char>,
    pub token: Option<Seq<char>>,
    pub output: Seq<char>,
}

impl View for CtlTarget {
    type V = CtlTargetV;

    open spec fn view(&self) -> CtlTargetV {
        CtlTargetV {
            server: self.server@,
            token: types::optional_view(self.token),
            output: self.output@,
        }
    }
}

pub open spec fn or_usual(value: Option<Seq<char>>, usual: Seq<char>) -> Seq<char> {
    match value {
        Some(v) => v,
        None => usual,
    }
}

/// An option of the command line goes before the settings.
pub open spec fn target_of(
    args: Seq<Seq<char>>,
    server: Seq<char>,
    token: Option<Seq<char>>,
) -> CtlTargetV {
    CtlTargetV {
        server: or_usual(option_at(args, "--server"@), server),
        token: match option_at(args, "--token"@) {
            Some(t) => Some(t),
            None => token,
        },
        output: or_usual(option_at(args, "--out"@), "cache_dump.json"@),
    }
}

fn value_or(value: Option<String>, usual: String) -> (r: String)
    ensures
        r@ == or_usual(types::optional_view(value), usual@),
{
    match value {
        Some(v) => v,
        None => usual,
    }
}

/// Where a command is sent, with which token, and where an export is written.
pub fn find_target(args: &Vec<String>, server: String, token: Option<String>) -> (r: CtlTarget)
    ensures
        r@ == target_of(text::views(args@), server@, types::optional_view(token)),
{
    CtlTarget {
        server: value_or(option_value(args, "--server"), server),
        token: match option_value(args, "--token") {
            Some(t) => Some(t),
            None => token,
        },
        output: value_or(option_value(args, "--out"), "cache_dump.json".to_owned()),
    }
}

/// The file of the settings of the control program.
pub fn settings_file(args: &Vec<String>) -> (r: String)
    ensures
        r@ == or_usual(
            option_at(text::views(args@), "--config"@),
            "config/cognidns-ctl.toml"@,
        ),
{
    value_or(option_value(args, "--config"), "config/cognidns-ctl.toml".to_owned())
}

} // verus!
