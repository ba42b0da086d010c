//! What holds of the control program: how its command line and its settings are read, and what it
//! shows of an answer.
use crate::config::files;
use crate::config::misplaced;
use crate::config::types;
use crate::ctl_cli;
use crate::ctl_cli::ActionV;
use crate::ctl_config;
use crate::json_doc;
use crate::json_doc::JsonV;
use crate::text;
use crate::text_laws;
use crate::toml_doc;
use crate::toml_doc::TableV;
use crate::toml_doc::TomlV;
use vstd::prelude::*;

verus! {

/// An option has the argument behind its first occurrence; an option at the very end has none.
pub proof fn lemma_option(args: Seq<Seq<char>>, name: Seq<char>, i: int)
    requires
        0 <= i < args.len(),
        args[i] == name,
        forall|k: int| 0 <= k < i ==> #[trigger] args[k] != name,
    ensures
        ctl_cli::option_at(args, name) == (if i + 1 < args.len() {
            Some(args[i + 1])
        } else {
            None
        }),
    decreases i,
{
    if args.len() >= 2 && i > 0 {
        let rest = args.skip(1);
        assert(rest[i - 1] == args[i]);
        assert forall|k: int| 0 <= k < i - 1 implies #[trigger] rest[k] != name by {
            assert(rest[k] == args[k + 1]);
        }
        lemma_option(rest, name, i - 1);
        assert(args[0] != name);
    }
}

/// An option that does not occur has no argument.
pub proof fn lemma_no_option(args: Seq<Seq<char>>, name: Seq<char>)
    requires
        forall|k: int| 0 <= k < args.len() ==> #[trigger] args[k] != name,
    ensures
        ctl_cli::option_at(args, name) is None,
    decreases args.len(),
{
    if args.len() >= 2 {
        let rest = args.skip(1);
        assert forall|k: int| 0 <= k < rest.len() implies #[trigger] rest[k] != name by {
            assert(rest[k] == args[k + 1]);
        }
        lemma_no_option(rest, name);
        assert(args[0] != name);
    }
}

/// The words of the first place differ.
proof fn lemma_words()
    ensures
        "start"@ != "stop"@ && "start"@ != "reload"@ && "start"@ != "stats"@ && "start"@ != "health"@
            && "start"@ != "ready"@ && "start"@ != "version"@ && "start"@ != "cache"@ && "start"@
            != "top"@,
        "stop"@ != "reload"@ && "stop"@ != "stats"@ && "stop"@ != "health"@ && "stop"@ != "ready"@
            && "stop"@ != "version"@ && "stop"@ != "cache"@ && "stop"@ != "top"@,
        "reload"@ != "stats"@ && "reload"@ != "health"@ && "reload"@ != "ready"@ && "reload"@
            != "version"@ && "reload"@ != "cache"@ && "reload"@ != "top"@,
        "stats"@ != "health"@ && "stats"@ != "ready"@ && "stats"@ != "version"@ && "stats"@
            != "cache"@ && "stats"@ != "top"@,
        "health"@ != "ready"@ && "health"@ != "version"@ && "health"@ != "cache"@ && "health"@
            != "top"@,
        "ready"@ != "version"@ && "ready"@ != "cache"@ && "ready"@ != "top"@,
        "version"@ != "cache"@ && "version"@ != "top"@,
        "cache"@ != "top"@,
{
    reveal_strlit("start");
    reveal_strlit("stop");
    reveal_strlit("reload");
    reveal_strlit("stats");
    reveal_strlit("health");
    reveal_strlit("ready");
    reveal_strlit("version");
    reveal_strlit("cache");
    reveal_strlit("top");
    assert("start"@.len() == 5 && "stop"@.len() == 4 && "reload"@.len() == 6 && "stats"@.len() == 5
        && "health"@.len() == 6 && "ready"@.len() == 5 && "version"@.len() == 7 && "cache"@.len()
        == 5 && "top"@.len() == 3);
    assert("start"@[0] == 's' && "stats"@[0] == 's' && "ready"@[0] == 'r' && "cache"@[0] == 'c');
    assert("start"@[3] == 'r' && "stats"@[3] == 't' && "reload"@[0] == 'r' && "health"@[0] == 'h');
}

/// Every plain command is given by the word that names it, and by no other.
pub proof fn lemma_plain_commands(args: Seq<Seq<char>>, prefix: Seq<char>)
    requires
        args.len() > 0,
    ensures
        ({
            let r = ctl_cli::ctl_action(args, prefix);
            &&& args[0] == "start"@ ==> r == Ok::<ActionV, Seq<char>>(ActionV::Start)
            &&& args[0] == "stop"@ ==> r == Ok::<ActionV, Seq<char>>(ActionV::Stop)
            &&& args[0] == "reload"@ ==> r == Ok::<ActionV, Seq<char>>(ActionV::Reload)
            &&& args[0] == "stats"@ ==> r == Ok::<ActionV, Seq<char>>(ActionV::Stats)
            &&& args[0] == "health"@ ==> r == Ok::<ActionV, Seq<char>>(ActionV::Health)
            &&& args[0] == "ready"@ ==> r == Ok::<ActionV, Seq<char>>(ActionV::Ready)
            &&& args[0] == "version"@ ==> r == Ok::<ActionV, Seq<char>>(ActionV::Version)
            &&& r is Ok && r->Ok_0 is Start ==> args[0] == "start"@
            &&& r is Ok && r->Ok_0 is Stop ==> args[0] == "stop"@
            &&& r is Ok && r->Ok_0 is Reload ==> args[0] == "reload"@
            &&& r is Ok && (r->Ok_0 is TopQueries || r->Ok_0 is TopClients) ==> args[0] == "top"@
            &&& r is Ok && (r->Ok_0 is CacheClearAll || r->Ok_0 is CacheFreezeAll
                || r->Ok_0 is CacheExport || r->Ok_0 is CacheClearDomain || r->Ok_0
                is CacheFreezeDomain || r->Ok_0 is ImportFrom) ==> args[0] == "cache"@
            &&& r is Ok ==> !(r->Ok_0 is StopAll) && !(r->Ok_0 is CacheImport)
        }),
        ctl_cli::ctl_action(Seq::empty(), prefix) is Err,
{
    lemma_words();
}

/// The words of the second place differ.
proof fn lemma_cache_words()
    ensures
        "freeze"@ != "clear"@ && "freeze"@ != "export"@ && "freeze"@ != "import"@,
        "clear"@ != "export"@ && "clear"@ != "import"@,
        "export"@ != "import"@,
        "all"@ != "domain"@,
        "on"@ != "off"@,
        "queries"@ != "clients"@,
{
    reveal_strlit("freeze");
    reveal_strlit("clear");
    reveal_strlit("export");
    reveal_strlit("import");
    reveal_strlit("all");
    reveal_strlit("domain");
    reveal_strlit("on");
    reveal_strlit("off");
    reveal_strlit("queries");
    reveal_strlit("clients");
    assert("freeze"@.len() == 6 && "clear"@.len() == 5 && "export"@.len() == 6 && "import"@.len()
        == 6 && "all"@.len() == 3 && "domain"@.len() == 6 && "on"@.len() == 2 && "off"@.len() == 3);
    assert("freeze"@[0] == 'f' && "export"@[0] == 'e' && "import"@[0] == 'i');
    assert("queries"@[0] == 'q' && "clients"@[0] == 'c');
}

/// The times to live of the whole cache or of a domain are kept with `on` and no longer with `off`.
pub proof fn lemma_freeze_commands(args: Seq<Seq<char>>, prefix: Seq<char>)
    requires
        args.len() >= 5,
        args[0] == "cache"@,
        args[1] == "freeze"@,
    ensures
        ({
            let r = ctl_cli::ctl_action(args, prefix);
            &&& args[2] == "domain"@ && args[4] == "on"@ ==> r == Ok::<ActionV, Seq<char>>(
                ActionV::CacheFreezeDomain(args[3], true),
            )
            &&& args[2] == "domain"@ && args[4] == "off"@ ==> r == Ok::<ActionV, Seq<char>>(
                ActionV::CacheFreezeDomain(args[3], false),
            )
            &&& args[2] == "all"@ && args[3] == "on"@ ==> r == Ok::<ActionV, Seq<char>>(
                ActionV::CacheFreezeAll(true),
            )
            &&& args[2] == "all"@ && args[3] == "off"@ ==> r == Ok::<ActionV, Seq<char>>(
                ActionV::CacheFreezeAll(false),
            )
            &&& args[2] == "domain"@ && args[4] != "on"@ && args[4] != "off"@ ==> r is Err
            &&& args[2] == "all"@ && args[3] != "on"@ && args[3] != "off"@ ==> r is Err
            &&& args[2] != "all"@ && args[2] != "domain"@ ==> r is Err
        }),
{
    lemma_words();
    lemma_cache_words();
}

/// The cache is cleared as a whole where nothing or `all` follows, and for the domain that is named
/// otherwise, with or without the word `domain` before it.
pub proof fn lemma_clear_commands(args: Seq<Seq<char>>, prefix: Seq<char>)
    requires
        args.len() >= 2,
        args[0] == "cache"@,
        args[1] == "clear"@,
    ensures
        ({
            let r = ctl_cli::ctl_action(args, prefix);
            &&& args.len() == 2 || args[2] == "all"@ ==> r == Ok::<ActionV, Seq<char>>(
                ActionV::CacheClearAll,
            )
            &&& args.len() >= 4 && args[2] == "domain"@ ==> r == Ok::<ActionV, Seq<char>>(
                ActionV::CacheClearDomain(args[3]),
            )
            &&& args.len() == 3 && args[2] == "domain"@ ==> r is Err
            &&& args.len() >= 3 && args[2] != "all"@ && args[2] != "domain"@ ==> r == Ok::<
                ActionV,
                Seq<char>,
            >(ActionV::CacheClearDomain(args[2]))
        }),
{
    lemma_words();
    lemma_cache_words();
}

/// An export takes no file; an import takes the one that is named.
pub proof fn lemma_dump_commands(args: Seq<Seq<char>>, prefix: Seq<char>, i: int)
    requires
        2 <= i < args.len() - 1,
        args[0] == "cache"@,
        args[i] == "--in"@,
        forall|k: int| 0 <= k < i ==> #[trigger] args[k] != "--in"@,
    ensures
        args[1] == "export"@ ==> ctl_cli::ctl_action(args, prefix) == Ok::<ActionV, Seq<char>>(
            ActionV::CacheExport,
        ),
        args[1] == "import"@ ==> ctl_cli::ctl_action(args, prefix) == Ok::<ActionV, Seq<char>>(
            ActionV::ImportFrom(args[i + 1]),
        ),
{
    lemma_words();
    lemma_cache_words();
    lemma_option(args, "--in"@, i);
}

/// A ranking has as many lines as are asked for, over as many seconds, and ten lines over five
/// minutes where nothing is asked for.
pub proof fn lemma_top_commands(
    args: Seq<Seq<char>>,
    prefix: Seq<char>,
    i: int,
    j: int,
    n: nat,
    secs: nat,
)
    requires
        2 <= i < args.len() - 1,
        2 <= j < args.len() - 1,
        args[0] == "top"@,
        args[i] == "--top"@,
        args[j] == "--window"@,
        forall|k: int| 0 <= k < i ==> #[trigger] args[k] != "--top"@,
        forall|k: int| 0 <= k < j ==> #[trigger] args[k] != "--window"@,
        args[i + 1] == text::decimal(n),
        args[j + 1] == text::decimal(secs),
        n <= usize::MAX,
        secs <= u64::MAX,
    ensures
        args[1] == "queries"@ ==> ctl_cli::ctl_action(args, prefix) == Ok::<ActionV, Seq<char>>(
            ActionV::TopQueries(n, secs),
        ),
        args[1] == "clients"@ ==> ctl_cli::ctl_action(args, prefix) == Ok::<ActionV, Seq<char>>(
            ActionV::TopClients(n, secs),
        ),
        args[1] != "queries"@ && args[1] != "clients"@ ==> ctl_cli::ctl_action(args, prefix) is Err,
{
    lemma_words();
    lemma_cache_words();
    lemma_option(args, "--top"@, i);
    lemma_option(args, "--window"@, j);
    text_laws::lemma_number_round_trip(n, usize::MAX as nat);
    text_laws::lemma_number_round_trip(secs, u64::MAX as nat);
}

/// A ranking without options has ten lines and covers five minutes.
pub proof fn lemma_usual_top(what: Seq<char>, prefix: Seq<char>)
    ensures
        what == "queries"@ ==> ctl_cli::ctl_action(seq!["top"@, what], prefix) == Ok::<
            ActionV,
            Seq<char>,
        >(ActionV::TopQueries(10, 300)),
        what == "clients"@ ==> ctl_cli::ctl_action(seq!["top"@, what], prefix) == Ok::<
            ActionV,
            Seq<char>,
        >(ActionV::TopClients(10, 300)),
{
    lemma_words();
    lemma_cache_words();
    reveal_strlit("top");
    reveal_strlit("queries");
    reveal_strlit("clients");
    reveal_strlit("--top");
    reveal_strlit("--window");
    assert("top"@.len() == 3 && "queries"@.len() == 7 && "clients"@.len() == 7 && "--top"@.len()
        == 5 && "--window"@.len() == 8);
    if what == "queries"@ || what == "clients"@ {
        lemma_no_option(seq!["top"@, what], "--top"@);
        lemma_no_option(seq!["top"@, what], "--window"@);
    }
}

/// What the command line names goes before the settings; what it does not name is taken from them.
pub proof fn lemma_target(
    args: Seq<Seq<char>>,
    server: Seq<char>,
    token: Option<Seq<char>>,
    i: int,
)
    requires
        0 <= i < args.len() - 1,
    ensures
        ({
            let t = ctl_cli::target_of(args, server, token);
            &&& args[i] == "--server"@ && (forall|k: int|
                0 <= k < i ==> #[trigger] args[k] != "--server"@) ==> t.server == args[i + 1]
            &&& args[i] == "--token"@ && (forall|k: int|
                0 <= k < i ==> #[trigger] args[k] != "--token"@) ==> t.token == Some(args[i + 1])
            &&& args[i] == "--out"@ && (forall|k: int|
                0 <= k < i ==> #[trigger] args[k] != "--out"@) ==> t.output == args[i + 1]
            &&& (forall|k: int| 0 <= k < args.len() ==> #[trigger] args[k] != "--server"@)
                ==> t.server == server
            &&& (forall|k: int| 0 <= k < args.len() ==> #[trigger] args[k] != "--token"@)
                ==> t.token == token
        }),
{
    if args[i] == "--server"@ && (forall|k: int| 0 <= k < i ==> #[trigger] args[k] != "--server"@) {
        lemma_option(args, "--server"@, i);
    }
    if args[i] == "--token"@ && (forall|k: int| 0 <= k < i ==> #[trigger] args[k] != "--token"@) {
        lemma_option(args, "--token"@, i);
    }
    if args[i] == "--out"@ && (forall|k: int| 0 <= k < i ==> #[trigger] args[k] != "--out"@) {
        lemma_option(args, "--out"@, i);
    }
    if forall|k: int| 0 <= k < args.len() ==> #[trigger] args[k] != "--server"@ {
        lemma_no_option(args, "--server"@);
    }
    if forall|k: int| 0 <= k < args.len() ==> #[trigger] args[k] != "--token"@ {
        lemma_no_option(args, "--token"@);
    }
}

/// An answer counts as a failure exactly where its status is `error`, in letters of any case.
pub proof fn lemma_failures(
    status: Seq<char>,
    code: Seq<char>,
    message: Seq<char>,
    server: Seq<char>,
    config: Seq<char>,
)
    ensures
        ctl_cli::failure_text(status, code, message, server, config) is Some <==> text::lower(status)
            == text::lower("error"@),
{
}

/// A list of lines is shown line by line, each with the name, the counts and the share that it has;
/// what the server does not count is shown as switched off.
pub proof fn lemma_top_rows(
    data: JsonV,
    entries: Seq<JsonV>,
    is_queries: bool,
    i: int,
    name: Seq<char>,
    count: u64,
    successes: u64,
)
    requires
        data is Object,
        json_doc::lookup(data->Object_0, "entries"@) == Some(JsonV::Array(entries)),
        0 <= i < entries.len(),
    ensures
        ({
            let shown = ctl_cli::top_of(Some(data), is_queries);
            let off = json_doc::lookup(data->Object_0, "enabled"@) == Some(JsonV::Bool(false));
            &&& off <==> shown is Disabled
            &&& !off ==> {
                &&& shown is Rows
                &&& shown->Rows_1.len() == entries.len()
                &&& entries[i] is Object ==> {
                    let o = entries[i]->Object_0;
                    let row = shown->Rows_1[i];
                    let key = if is_queries {
                        "domain"@
                    } else {
                        "client"@
                    };
                    &&& json_doc::lookup(o, key) == Some(JsonV::Str(name)) ==> row.name == name
                    &&& json_doc::lookup(o, "count"@) == Some(JsonV::Unsigned(count)) ==> row.count
                        == count
                    &&& json_doc::lookup(o, "success_count"@) == Some(JsonV::Unsigned(successes))
                        ==> row.success_count == successes
                    &&& json_doc::lookup(o, "success_rate"@) is None ==> row.success_rate is None
                }
            }
        }),
        ctl_cli::top_of(None, is_queries) is NoData,
{
}

/// The server and the token of the settings stand under their own names or under those of the
/// server's own configuration; the own names go first.
pub proof fn lemma_ctl_settings(t: TableV, a: Seq<char>, b: Seq<char>)
    ensures
        ({
            let c = ctl_config::ctl_config_of(t);
            &&& toml_doc::lookup(t, "server"@) == Some(TomlV::Str(a)) ==> c.server == a
            &&& toml_doc::lookup(t, "server"@) is None && toml_doc::lookup(t, "control_listen"@)
                == Some(TomlV::Str(b)) ==> c.server == b
            &&& toml_doc::lookup(t, "server"@) is None && toml_doc::lookup(t, "control_listen"@)
                is None ==> c.server == "127.0.0.1:19090"@
            &&& toml_doc::lookup(t, "token"@) == Some(TomlV::Str(a)) ==> c.token == Some(a)
            &&& toml_doc::lookup(t, "token"@) is None && toml_doc::lookup(t, "control_token"@)
                == Some(TomlV::Str(b)) ==> c.token == Some(b)
            &&& toml_doc::lookup(t, "token"@) is None && toml_doc::lookup(t, "control_token"@)
                is None ==> c.token is None
            &&& toml_doc::lookup(t, "output"@) == Some(TomlV::Str(a)) ==> c.output == a
            &&& toml_doc::lookup(t, "output"@) is None ==> c.output == "json"@
            &&& toml_doc::lookup(t, "timeout_ms"@) is None ==> c.timeout_ms == 5000
        }),
{
}

/// A time of the settings is taken as it is written; one below zero cannot be read.
pub proof fn lemma_ctl_timeout(t: TableV, n: i64)
    requires
        toml_doc::lookup(t, "timeout_ms"@) == Some(TomlV::Int(n)),
    ensures
        n >= 0 ==> ctl_config::ctl_config_of(t).timeout_ms == n,
        n < 0 ==> !ctl_config::readable(t),
{
}

/// The settings are good exactly where they name a server, a time other than zero and one of the
/// two forms of output.
pub proof fn lemma_ctl_rules(c: ctl_config::CtlConfigV)
    ensures
        ctl_config::ctl_config_error(c) is None <==> text::trim(c.server).len() > 0 && c.timeout_ms
            > 0 && (c.output == "json"@ || c.output == "table"@),
{
}

/// The settings that the control program has without a file are good.
pub proof fn lemma_usual_ctl_settings()
    ensures
        ctl_config::ctl_config_error(ctl_config::ctl_config_of(Seq::empty())) is None,
        ctl_config::readable(Seq::empty()),
{
    reveal_strlit("127.0.0.1:19090");
    let s = "127.0.0.1:19090"@;
    assert(s[0] == '1');
    text_laws::lemma_white('1');
    text_laws::lemma_blank(s);
}

/// What a document has at its top is found there, whatever stands below.
pub proof fn lemma_found_at_the_top(t: TableV, key: Seq<char>, value: TomlV)
    requires
        toml_doc::lookup(t, key) == Some(value),
    ensures
        toml_doc::find_nested(TomlV::Table(t), key) == Some(value),
{
}

/// What a table below the top has is found where nothing before it has the key.
pub proof fn lemma_found_below(t: TableV, key: Seq<char>, i: int, j: int)
    requires
        0 <= j <= i < t.len(),
        toml_doc::lookup(t, key) is None,
        forall|k: int| j <= k < i ==> toml_doc::find_nested(#[trigger] t[k].1, key) is None,
        toml_doc::find_nested(t[i].1, key) is Some,
    ensures
        toml_doc::find_in_entries(t, key, j) == toml_doc::find_nested(t[i].1, key),
        j == 0 ==> toml_doc::find_nested(TomlV::Table(t), key) == toml_doc::find_nested(t[i].1, key),
    decreases i - j,
{
    if j < i {
        assert(toml_doc::find_nested(t[j].1, key) is None);
        lemma_found_below(t, key, i, j + 1);
    }
}

/// A setting that the top level lacks and a document has below it is taken over; one that the top
/// level has is left alone.
pub proof fn lemma_lost_settings_come_back(
    root: TableV,
    keys: Seq<Seq<char>>,
    key: Seq<char>,
    value: TomlV,
)
    requires
        keys.contains(key),
        toml_doc::lookup(root, key) is None,
        toml_doc::find_nested(TomlV::Table(root), key) == Some(value),
    ensures
        misplaced::misplaced(TomlV::Table(root), keys).contains(
            misplaced::MisplacedV { key, value },
        ),
    decreases keys.len(),
{
    let document = TomlV::Table(root);
    let f = |k: Seq<char>| misplaced::misplaced_field(document, k);
    reveal(Seq::filter_map);
    let field = misplaced::MisplacedV { key, value };
    let rest = keys.drop_last();
    let all = misplaced::misplaced(document, keys);
    if keys.last() == key {
        assert(f(key) == Some(field));
        assert(all.last() == field);
    } else {
        let i = choose|i: int| 0 <= i < keys.len() && keys[i] == key;
        assert(rest[i] == key);
        lemma_lost_settings_come_back(root, rest, key, value);
        let before = misplaced::misplaced(document, rest);
        let j = choose|j: int| 0 <= j < before.len() && before[j] == field;
        assert(all[j] == field);
    }
}

/// Nothing but a table has settings to take over.
pub proof fn lemma_nothing_lost(document: TomlV, key: Seq<char>)
    ensures
        !(document is Table) ==> misplaced::misplaced_field(document, key) is None,
        document is Table && toml_doc::lookup(document->Table_0, key) is Some
            ==> misplaced::misplaced_field(document, key) is None,
{
}

/// A zone is read from a file under its own name, or under that of the file where it has none;
/// files of static records and of blocked domains hold no zone.
pub proof fn lemma_zone_files(stem: Seq<char>, z: types::AuthoritativeZoneV)
    ensures
        text::lower(stem) == text::lower("static_records"@) || text::lower(stem) == text::lower(
            "blocked_domains"@,
        ) ==> files::zone_of_file(stem, Some(z)) is None,
        files::zone_of_file(stem, None) is None,
        ({
            let own = text::lower(stem) != text::lower("static_records"@) && text::lower(stem)
                != text::lower("blocked_domains"@);
            let r = files::zone_of_file(stem, Some(z));
            &&& own && text::trim(z.name).len() > 0 ==> r == Some(z)
            &&& own && text::trim(z.name).len() == 0 && text::trim(stem).len() > 0 ==> r is Some
                && r->0.name == stem
            &&& r is Some ==> r->0.records == z.records && r->0.soa == z.soa && r->0.default_ttl
                == z.default_ttl
            &&& text::trim(z.name).len() == 0 && text::trim(stem).len() == 0 ==> r is None
        }),
{
}

/// The path of a data file: an absolute one is taken as it is, one that is there goes before the
/// shortened one, and the shortened one is taken only where it is there.
pub proof fn lemma_data_path(
    target: Seq<char>,
    direct: Seq<char>,
    shortened: Seq<char>,
    direct_exists: bool,
    shortened_exists: bool,
)
    ensures
        files::data_path(target, true, direct, direct_exists, Some(shortened), shortened_exists)
            == target,
        direct_exists ==> files::data_path(
            target,
            false,
            direct,
            direct_exists,
            Some(shortened),
            shortened_exists,
        ) == direct,
        !direct_exists && shortened_exists ==> files::data_path(
            target,
            false,
            direct,
            direct_exists,
            Some(shortened),
            shortened_exists,
        ) == shortened,
        !direct_exists && !shortened_exists ==> files::data_path(
            target,
            false,
            direct,
            direct_exists,
            Some(shortened),
            shortened_exists,
        ) == direct,
        files::data_path(target, false, direct, direct_exists, None, shortened_exists) == direct,
{
}

/// A file of settings is taken exactly where it is a table whose known settings have the right
/// kinds and keep the rules, and it then gives those settings.
pub proof fn lemma_ctl_files(t: TableV, path: Seq<char>, other: TomlV)
    ensures
        ({
            let r = ctl_config::ctl_config_of_document(Some(TomlV::Table(t)), path);
            let c = ctl_config::ctl_config_of(t);
            &&& r is Ok <==> ctl_config::readable(t) && text::trim(c.server).len() > 0
                && c.timeout_ms > 0 && (c.output == "json"@ || c.output == "table"@)
            &&& r is Ok ==> r->Ok_0 == c
            &&& ctl_config::ctl_config_of_document(None, path) is Err
            &&& !(other is Table) ==> ctl_config::ctl_config_of_document(Some(other), path) is Err
        }),
        toml_doc::lookup(t, "server"@) is Some && !(toml_doc::lookup(t, "server"@)->0 is Str)
            ==> !ctl_config::readable(t),
        toml_doc::lookup(t, "token"@) is Some && !(toml_doc::lookup(t, "token"@)->0 is Str)
            ==> !ctl_config::readable(t),
        toml_doc::lookup(t, "output"@) is Some && !(toml_doc::lookup(t, "output"@)->0 is Str)
            ==> !ctl_config::readable(t),
        toml_doc::lookup(t, "timeout_ms"@) is Some && !(toml_doc::lookup(t, "timeout_ms"@)->0 is Int)
            ==> !ctl_config::readable(t),
{
}

/// The zones of a directory are those of its files, in their order; files that hold none are
/// passed over.
pub proof fn lemma_zones_of_directory(list: Seq<files::ZoneFile>, f: files::ZoneFile)
    ensures
        files::zones_of_files(Seq::empty()).len() == 0,
        files::zones_of_files(list.push(f)) == (match files::zone_of_file(
            f.stem@,
            files::zone_option_view(f.zone),
        ) {
            Some(z) => files::zones_of_files(list).push(z),
            None => files::zones_of_files(list),
        }),
{
    reveal(Seq::filter_map);
    assert(list.push(f).drop_last() =~= list);
}

/// Every setting of a listener, of the resolver, of the caches, of the upstreams and of the data is
/// among those that are looked for below the top level.
pub proof fn lemma_recovered_settings()
    ensures
        ({
            let keys = misplaced::recovered_keys();
            &&& keys.contains("udp_listen"@) && keys.contains("tcp_listen"@)
            &&& keys.contains("admin_listen"@) && keys.contains("control_listen"@)
            &&& keys.contains("control_token"@) && keys.contains("resolve_mode"@)
            &&& keys.contains("response_cache_capacity"@) && keys.contains("cache_ttl_secs"@)
            &&& keys.contains("enable_delegation_cache"@) && keys.contains("strict_bailiwick"@)
            &&& keys.contains("upstreams"@) && keys.contains("upstream_timeout_ms"@)
            &&& keys.contains("allow_clients"@) && keys.contains("blocked_domains"@)
            &&& keys.contains("views"@) && keys.contains("static_records"@)
            &&& keys.contains("authoritative_zones"@) && keys.contains("health_check"@)
            &&& keys.len() == 68
        }),
{
    let a = misplaced::listen_keys();
    let b = misplaced::cache_keys();
    let c = misplaced::delegation_keys();
    let d = misplaced::upstream_keys();
    let e = misplaced::data_keys();
    let f = misplaced::resolver_keys();
    let keys = misplaced::recovered_keys();
    assert(a.len() == 15 && b.len() == 9 && c.len() == 12 && d.len() == 14 && e.len() == 10
        && f.len() == 8);
    assert(keys == a + b + c + d + e + f);
    assert(keys[0] == "udp_listen"@ && keys[1] == "tcp_listen"@ && keys[2] == "admin_listen"@
        && keys[3] == "control_listen"@ && keys[4] == "control_token"@ && keys[5]
        == "resolve_mode"@);
    assert(keys[16] == "response_cache_capacity"@ && keys[21] == "cache_ttl_secs"@);
    assert(keys[27] == "enable_delegation_cache"@ && keys[28] == "strict_bailiwick"@);
    assert(keys[36] == "upstreams"@ && keys[37] == "upstream_timeout_ms"@);
    assert(keys[50] == "allow_clients"@ && keys[51] == "blocked_domains"@ && keys[53] == "views"@
        && keys[57] == "static_records"@ && keys[58] == "health_check"@);
    assert(keys[67] == "authoritative_zones"@);
}

/// A share of successes is shown as the number that it is, below zero with a minus sign; what is no
/// number is not shown.
pub proof fn lemma_shares_as_numbers(
    o: json_doc::ObjectV,
    key: Seq<char>,
    s: Seq<char>,
    n: u64,
    m: i64,
)
    ensures
        json_doc::lookup(o, key) == Some(JsonV::Float(s)) ==> ctl_cli::number_text(o, key) == Some(s),
        json_doc::lookup(o, key) == Some(JsonV::Unsigned(n)) ==> ctl_cli::number_text(o, key)
            == Some(text::decimal(n as nat)),
        json_doc::lookup(o, key) == Some(JsonV::Negative(m)) && m < 0 ==> ctl_cli::number_text(
            o,
            key,
        ) == Some(seq!['-'] + text::decimal((-m) as nat)),
        json_doc::lookup(o, key) == Some(JsonV::Str(s)) ==> ctl_cli::number_text(o, key) is None,
        json_doc::lookup(o, key) is None ==> ctl_cli::number_text(o, key) is None
            && ctl_cli::count_at(o, key) == 0,
{
    reveal_strlit("-");
    assert("-"@ =~= seq!['-']);
}

} // verus!
