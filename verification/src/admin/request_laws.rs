//! What holds of the requests of the administration interface: who may send them, the steps they
//! take, and what their failures are answered.
use crate::admin::paths;
use crate::admin::plans;
use crate::admin::plans::Action;
use crate::admin::plans::Failure;
use crate::admin::plans::Step;
use crate::admin::requests;
use crate::admin::requests::ReloadFailure;
use crate::admin::zones;
use crate::text;
use vstd::prelude::*;

verus! {

/// What stands behind a prefix is what was put there.
pub proof fn lemma_prefix_round_trip(prefix: Seq<char>, rest: Seq<char>, s: Seq<char>)
    ensures
        requests::after_prefix(prefix + rest, prefix) == Some(rest),
        requests::after_prefix(s, prefix) == Some(rest) ==> s == prefix + rest,
{
    assert((prefix + rest).take(prefix.len() as int) =~= prefix);
    assert((prefix + rest).skip(prefix.len() as int) =~= rest);
    if requests::after_prefix(s, prefix) == Some(rest) {
        assert(s =~= s.take(prefix.len() as int) + s.skip(prefix.len() as int));
    }
}

/// Where a token is set, a request is let in with that very token in its own header or as a bearer
/// token, and with nothing else.
pub proof fn lemma_token_lets_in(
    header: Option<Seq<char>>,
    authorization: Option<Seq<char>>,
    token: Seq<char>,
)
    requires
        token.len() > 0,
    ensures
        requests::is_authorized(header, authorization, Some(token)) <==> header == Some(token)
            || authorization == Some("Bearer "@ + token),
        !requests::is_authorized(None, None, Some(token)),
{
    lemma_prefix_round_trip("Bearer "@, token, "Bearer "@ + token);
    if let Some(a) = authorization {
        lemma_prefix_round_trip("Bearer "@, token, a);
    }
}

/// Where no token is set, or an empty one, every request is let in.
pub proof fn lemma_without_token_all_may(
    header: Option<Seq<char>>,
    authorization: Option<Seq<char>>,
)
    ensures
        requests::is_authorized(header, authorization, None),
        requests::is_authorized(header, authorization, Some(Seq::empty())),
{
}

/// A text is found wherever it stands, and it does not stand in a shorter one.
pub proof fn lemma_found_text(before: Seq<char>, part: Seq<char>, after: Seq<char>, s: Seq<char>)
    ensures
        requests::contains_text(before + part + after, part),
        s.len() < part.len() ==> !requests::contains_text(s, part),
{
    let whole = before + part + after;
    let i = before.len() as int;
    assert(whole.subrange(i, i + part.len()) =~= part);
}

/// A name of a log file has no separator and no two dots in a row, and every other name that is
/// not empty is one.
pub proof fn lemma_log_names(before: Seq<char>, after: Seq<char>, s: Seq<char>)
    ensures
        !requests::is_log_file_name(before + seq!['/'] + after),
        !requests::is_log_file_name(before + seq!['\\'] + after),
        !requests::is_log_file_name(before + seq!['.', '.'] + after),
        !requests::is_log_file_name(Seq::empty()),
        s.len() > 0 && !s.contains('/') && !s.contains('\\') && (forall|i: int|
            0 <= i < s.len() - 1 ==> !(#[trigger] s[i] == '.' && s[i + 1] == '.'))
            ==> requests::is_log_file_name(s),
{
    reveal_strlit("..");
    assert(".."@ =~= seq!['.', '.']);
    assert((before + seq!['/'] + after)[before.len() as int] == '/');
    assert((before + seq!['\\'] + after)[before.len() as int] == '\\');
    lemma_found_text(before, ".."@, after, s);
    if requests::contains_text(s, ".."@) {
        let i = choose|i: int|
            0 <= i <= s.len() - 2 && #[trigger] s.subrange(i, i + 2) == ".."@;
        assert(s.subrange(i, i + 2)[0] == s[i]);
        assert(s.subrange(i, i + 2)[1] == s[i + 1]);
    }
}

/// Of two log files the one that is listed first was not modified before the other; one without a
/// time stands behind all that have one; those of one time stand in the order of their names.
pub proof fn lemma_newest_first(files: Seq<requests::LogFileV>, i: int, j: int)
    requires
        0 <= i < j < files.len(),
    ensures
        ({
            let a = requests::listed(files)[i];
            let b = requests::listed(files)[j];
            &&& b.modified is Some ==> a.modified is Some && a.modified->0 >= b.modified->0
            &&& a.modified == b.modified ==> !text::lt(b.name, a.name)
        }),
        requests::listed(files).len() == files.len(),
        files.to_multiset() == requests::listed(files).to_multiset(),
{
    requests::lemma_listed(files);
    let l = requests::listed(files);
    broadcast use vstd::seq_lib::group_to_multiset_ensures;

    assert(l.len() == l.to_multiset().len());
    assert(files.len() == files.to_multiset().len());
    assert(!requests::listed_before(l[j], l[i]));
}

/// A number that is asked for is taken as it is where it lies between 1 and the most, and the
/// nearest of the two otherwise; where nothing is asked for, the usual one is taken.
pub proof fn lemma_bounded(n: u64, usual: u64, most: u64)
    requires
        1 <= usual <= most,
    ensures
        1 <= requests::bounded(Some(n), usual, most) <= most,
        1 <= n <= most ==> requests::bounded(Some(n), usual, most) == n,
        n > most ==> requests::bounded(Some(n), usual, most) == most,
        n == 0 ==> requests::bounded(Some(n), usual, most) == 1,
        requests::bounded(None, usual, most) == usual,
{
}

/// A message of a failed reload tells of the file that cannot be read before anything else, then
/// of one that cannot be parsed, then of settings that are refused; the case of its letters does
/// not count.
pub proof fn lemma_reload_failures(message: Seq<char>, other: Seq<char>)
    ensures
        ({
            let m = text::lower(message);
            let kind = requests::reload_failure(message);
            &&& kind is ReadError <==> requests::contains_text(m, "failed to read config file"@)
            &&& kind is ParseError ==> requests::contains_text(m, "failed to parse config file"@)
            &&& kind is InvalidConfig ==> requests::contains_text(m, "invalid config"@)
            &&& kind is BuildError ==> requests::contains_text(m, "policy"@)
                || requests::contains_text(m, "resolver"@)
            &&& kind is Other ==> !requests::contains_text(m, "failed to parse config file"@)
                && !requests::contains_text(m, "invalid config"@)
                && !requests::contains_text(m, "policy"@)
                && !requests::contains_text(m, "resolver"@)
            &&& requests::contains_text(m, "failed to parse config file"@) ==> kind is ReadError
                || kind is ParseError
            &&& requests::contains_text(m, "invalid config"@) ==> !(kind is BuildError)
        }),
        text::lower(message) == text::lower(other) ==> requests::reload_failure(message)
            == requests::reload_failure(other),
{
}

/// The kinds of failed reloads have names of their own.
pub proof fn lemma_reload_labels(a: ReloadFailure, b: ReloadFailure)
    ensures
        a.label() == b.label() ==> a == b,
{
    reveal_strlit("read_error");
    reveal_strlit("parse_error");
    reveal_strlit("invalid_config");
    reveal_strlit("build_error");
    reveal_strlit("other");
    assert("parse_error"@[0] == 'p' && "build_error"@[0] == 'b');
    assert("read_error"@.len() == 10 && "parse_error"@.len() == 11 && "invalid_config"@.len() == 14
        && "build_error"@.len() == 11 && "other"@.len() == 5);
}

/// What is not there is answered with 404, what the server fails to read with 500, a stranger with
/// 401, and everything else with 400.
pub proof fn lemma_statuses(f: Failure)
    ensures
        f.status_code() == 401 <==> f is Unauthorized,
        f.status_code() == 404 <==> f is ViewNotFound || f is ZoneNotFound
            || f is LogsDirectoryNotFound || f is LogFileNotFound,
        f.status_code() == 500 <==> f is FailedToLoadConfig || f is FailedToReadConfig
            || f is FailedToReadZonesFile || f is FailedToReadLogsDirectory
            || f is FailedToReadLogsMetadata || f is FailedToResolveLogsDirectory,
        f.status_code() == 400 || f.status_code() == 401 || f.status_code() == 404
            || f.status_code() == 500,
{
}

/// A step that makes a change take effect.
pub open spec fn takes_effect(a: Action) -> bool {
    a is ApplyConfig || a is ApplyZonesFile || a is DeleteZoneFile || a is Reload
}

/// A step that only looks.
pub open spec fn looks(a: Action) -> bool {
    a is LoadConfig || a is ReadConfig || a is ReadZonesFile || a is EditConfig
        || a is EditZonesFile || a is FindInConfig || a is FindInZonesFile || a is SearchDirectory
}

/// A step that writes files.
pub open spec fn writes(a: Action) -> bool {
    a is CreateDirectory || a is WriteSupportFiles || a is WriteStaticRecords
        || a is WriteBlockedDomains || a is WriteZone
}

pub open spec fn has_before(plan: Seq<Step>, i: int, a: Action) -> bool {
    exists|j: int| 0 <= j < i && #[trigger] plan[j].action == a
}

/// The answer that fits a step that fails.
pub open spec fn fits(s: Step) -> bool {
    let status = s.failure.status_code();
    let a = s.action;
    if a is LoadConfig || a is ReadConfig || a is ReadZonesFile {
        status == 500
    } else if a is FindInConfig || a is FindInZonesFile || a is FindFile {
        status == 404
    } else if takes_effect(a) {
        s.failure is InvalidConfig
    } else {
        status == 400
    }
}

/// Whether the steps of a change stand in an order that leaves things as they are where one fails:
/// what is looked at comes first, then files are written, and the last step, and only it, makes
/// the change take effect.
pub open spec fn orderly(plan: Seq<Step>) -> bool {
    &&& plan.len() > 0
    &&& forall|i: int|
        0 <= i < plan.len() ==> (takes_effect((#[trigger] plan[i]).action) <==> i == plan.len() - 1)
    &&& forall|i: int, j: int|
        0 <= i < plan.len() && 0 <= j < plan.len() && looks((#[trigger] plan[i]).action) && writes(
            (#[trigger] plan[j]).action,
        ) ==> i < j
    &&& forall|i: int| 0 <= i < plan.len() ==> fits(#[trigger] plan[i])
    &&& forall|i: int|
        0 <= i < plan.len() && (#[trigger] plan[i]).action is EditConfig ==> has_before(
            plan,
            i,
            Action::ReadConfig,
        )
    &&& forall|i: int|
        0 <= i < plan.len() && (#[trigger] plan[i]).action is FindInConfig ==> has_before(
            plan,
            i,
            Action::EditConfig,
        )
    &&& forall|i: int|
        0 <= i < plan.len() && (#[trigger] plan[i]).action is EditZonesFile ==> has_before(
            plan,
            i,
            Action::ReadZonesFile,
        )
    &&& forall|i: int|
        0 <= i < plan.len() && (#[trigger] plan[i]).action is ApplyConfig ==> has_before(
            plan,
            i,
            Action::EditConfig,
        )
    &&& forall|i: int|
        0 <= i < plan.len() && (#[trigger] plan[i]).action is ApplyZonesFile ==> has_before(
            plan,
            i,
            Action::EditZonesFile,
        )
}

/// Whether a request has a step that fails in the given way.
pub open spec fn may_fail(plan: Seq<Step>, f: Failure) -> bool {
    exists|i: int| 0 <= i < plan.len() && (#[trigger] plan[i]).failure == f
}

pub open spec fn has_step(plan: Seq<Step>, a: Action) -> bool {
    exists|i: int| 0 <= i < plan.len() && (#[trigger] plan[i]).action == a
}

/// The steps of the changes to the configuration are in order; a view that is to be deleted must
/// be there, one that is written need not be.
pub proof fn lemma_view_plans()
    ensures
        orderly(plans::config_sections_plan_steps()),
        orderly(plans::view_upsert_plan_steps()),
        orderly(plans::view_delete_plan_steps()),
        orderly(plans::view_zone_upsert_plan_steps()),
        orderly(plans::zone_upsert_plan_steps()),
        may_fail(plans::view_delete_plan_steps(), Failure::ViewNotFound),
        may_fail(plans::view_zone_upsert_plan_steps(), Failure::ViewNotFound),
        !may_fail(plans::view_upsert_plan_steps(), Failure::ViewNotFound),
        has_step(plans::view_zone_upsert_plan_steps(), Action::WriteZone),
        has_step(plans::config_sections_plan_steps(), Action::WriteStaticRecords),
        has_step(plans::config_sections_plan_steps(), Action::WriteBlockedDomains),
{
    let a = plans::config_sections_plan_steps();
    assert(a[0].action is ReadConfig && a[1].action is EditConfig && a[3].action
        is WriteStaticRecords && a[4].action is WriteBlockedDomains);
    let b = plans::view_upsert_plan_steps();
    assert(b[0].action is ReadConfig && b[1].action is EditConfig);
    let c = plans::view_delete_plan_steps();
    assert(c[0].action is ReadConfig && c[1].action is EditConfig && c[2].failure is ViewNotFound);
    let d = plans::view_zone_upsert_plan_steps();
    assert(d[0].action is ReadConfig && d[1].action is EditConfig && d[2].failure is ViewNotFound
        && d[6].action is WriteZone);
    let e = plans::zone_upsert_plan_steps();
    assert(e[0].action is ReadConfig && e[1].action is EditConfig);
}

/// The steps of a change to a zone are in order wherever the zone is kept, and one that is not
/// there is answered so; a zone of a view that is not there is refused at once.
pub proof fn lemma_zone_plans(target: Option<zones::ZoneTargetV>, in_directory: bool)
    ensures
        orderly(plans::zone_delete_steps(in_directory)),
        orderly(plans::zone_soa_steps(in_directory)),
        may_fail(plans::zone_delete_steps(in_directory), Failure::ZoneNotFound),
        may_fail(plans::zone_soa_steps(in_directory), Failure::ZoneNotFound),
        has_step(plans::zone_delete_steps(in_directory), Action::DeleteZoneFile) <==> in_directory,
        has_step(plans::zone_soa_steps(in_directory), Action::EditZoneFile) <==> in_directory,
        target is None ==> plans::view_zone_delete_steps(target) == Err::<Seq<Step>, Failure>(
            Failure::ViewNotFound,
        ) && plans::view_zone_soa_steps(target) == Err::<Seq<Step>, Failure>(Failure::ViewNotFound),
        target is Some ==> {
            &&& plans::view_zone_delete_steps(target) is Ok
            &&& plans::view_zone_soa_steps(target) is Ok
            &&& orderly(plans::view_zone_delete_steps(target)->Ok_0)
            &&& orderly(plans::view_zone_soa_steps(target)->Ok_0)
            &&& may_fail(plans::view_zone_delete_steps(target)->Ok_0, Failure::ZoneNotFound)
            &&& may_fail(plans::view_zone_soa_steps(target)->Ok_0, Failure::ZoneNotFound)
            &&& has_step(plans::view_zone_delete_steps(target)->Ok_0, Action::EditConfig)
                <==> target->0 is Inline
            &&& has_step(plans::view_zone_delete_steps(target)->Ok_0, Action::EditZonesFile)
                <==> target->0 is File
            &&& has_step(plans::view_zone_delete_steps(target)->Ok_0, Action::DeleteZoneFile)
                <==> target->0 is Directory
            &&& has_step(plans::view_zone_soa_steps(target)->Ok_0, Action::EditConfig)
                <==> target->0 is Inline
            &&& has_step(plans::view_zone_soa_steps(target)->Ok_0, Action::EditZonesFile)
                <==> target->0 is File
            &&& has_step(plans::view_zone_soa_steps(target)->Ok_0, Action::EditZoneFile)
                <==> target->0 is Directory
        },
{
    lemma_zone_plan(plans::zone_delete_steps(in_directory));
    lemma_zone_plan(plans::zone_soa_steps(in_directory));
    if target is Some {
        lemma_zone_plan(plans::view_zone_delete_steps(target)->Ok_0);
        lemma_zone_plan(plans::view_zone_soa_steps(target)->Ok_0);
    }
}

/// Names the steps of a short plan.
proof fn lemma_zone_plan(p: Seq<Step>)
    requires
        p.len() == 3 || p.len() == 4,
        p.len() == 3 ==> p[1].failure is ZoneNotFound,
        p.len() == 4 ==> p[2].failure is ZoneNotFound,
    ensures
        may_fail(p, Failure::ZoneNotFound),
        has_step(p, p[0].action),
        has_step(p, p[1].action),
        has_step(p, p[p.len() - 1].action),
        has_before(p, 1, p[0].action),
        has_before(p, 2, p[1].action),
        has_before(p, 3, p[1].action),
{
    assert(p[0].action == p[0].action && p[1].action == p[1].action);
    assert(p[p.len() - 1].action == p[p.len() - 1].action);
}

/// A request with data of a view writes what it brings and nothing else; one that brings nothing
/// is refused.
pub proof fn lemma_view_data_plan(zone: bool, records: bool, blocked: bool)
    ensures
        plans::view_data_steps(zone, records, blocked) is Ok <==> zone || records || blocked,
        zone || records || blocked ==> {
            let p = plans::view_data_steps(zone, records, blocked)->Ok_0;
            &&& orderly(p)
            &&& may_fail(p, Failure::ViewNotFound)
            &&& has_step(p, Action::WriteZone) <==> zone
            &&& has_step(p, Action::WriteStaticRecords) <==> records
            &&& has_step(p, Action::WriteBlockedDomains) <==> blocked
        },
        !zone && !records && !blocked ==> plans::view_data_steps(zone, records, blocked) == Err::<
            Seq<Step>,
            Failure,
        >(Failure::NoViewDataProvided),
{
    if zone || records || blocked {
        let p = plans::view_data_steps(zone, records, blocked)->Ok_0;
        let r: int = if records {
            1
        } else {
            0
        };
        let b: int = if blocked {
            1
        } else {
            0
        };
        let z: int = if zone {
            1
        } else {
            0
        };
        assert(p.len() == 7 + r + b + z);
        assert(p[0].action is LoadConfig && p[1].action is ReadConfig && p[2].action is EditConfig
            && p[3].action is FindInConfig && p[3].failure is ViewNotFound && p[4].action
            is CreateDirectory && p[5].action is WriteSupportFiles);
        if records {
            assert(p[6].action is WriteStaticRecords);
        }
        if blocked {
            assert(p[6 + r].action is WriteBlockedDomains);
        }
        if zone {
            assert(p[6 + r + b].action is WriteZone);
        }
        assert(p[6 + r + b + z].action is ApplyConfig);
    }
}

/// A log file is sent only after its name was checked first of all and its place was found to be
/// in the log directory.
pub proof fn lemma_log_download()
    ensures
        ({
            let p = plans::log_download_plan_steps();
            &&& p[0].action is CheckFileName
            &&& p.last().action is OpenLogFile
            &&& has_before(p, p.len() - 1, Action::CheckInside)
            &&& has_before(p, p.len() - 1, Action::ResolveLogFile)
            &&& forall|i: int|
                0 <= i < p.len() ==> ((#[trigger] p[i]).failure.status_code() == 400 <==> p[i].action
                    is CheckFileName || p[i].action is CheckInside)
            &&& forall|i: int|
                0 <= i < p.len() ==> ((#[trigger] p[i]).failure.status_code() == 404 <==> p[i].action
                    is FindLogDirectory || p[i].action is ResolveLogFile || p[i].action
                    is OpenLogFile)
        }),
{
    let p = plans::log_download_plan_steps();
    assert(p[5].action is CheckInside && p[4].action is ResolveLogFile);
}

/// A request goes on while its steps go well, stops at the first that does not, and ends when all
/// are done; what it says at the end is what the steps say together.
pub proof fn lemma_steps_and_outcome(plan: Seq<Step>, results: Seq<bool>, done: int)
    requires
        0 <= done <= plan.len(),
        results.len() == plan.len(),
        forall|k: int| 0 <= k < done - 1 ==> #[trigger] results[k],
    ensures
        done > 0 && !results[done - 1] ==> plans::next_step(plan, done, false) == plans::Next::Fail(
            plans::outcome(plan, results)->0,
        ),
        done < plan.len() ==> plans::next_step(plan, done, true) == plans::Next::Do(
            plan[done].action,
        ),
        done == plan.len() && (done > 0 ==> results[done - 1]) ==> plans::next_step(plan, done, true)
            is Succeed && plans::outcome(plan, results) is None,
{
    if done > 0 && !results[done - 1] {
        plans::lemma_outcome(plan, results, done - 1);
    }
    if done == plan.len() && (done > 0 ==> results[done - 1]) {
        assert forall|k: int| 0 <= k < done implies #[trigger] results[k] by {
            if k == done - 1 {
            }
        }
        plans::lemma_outcome(plan, results, done);
    }
}

/// Files that were written are taken back exactly where the configuration is not taken.
pub proof fn lemma_taken_back(a: Action)
    ensures
        plans::takes_back(a) <==> a is ApplyConfig,
        plans::takes_back(a) ==> takes_effect(a),
{
}

/// The directory of a view has the name of the view, but for white space round it and for the
/// characters that a file system may refuse: each of them becomes one underscore.
pub proof fn lemma_directory_of_view(view: Seq<char>, i: int)
    requires
        text::trim(view).len() > 0,
        0 <= i < text::trim(view).len(),
    ensures
        ({
            let name = text::trim(view);
            let c = name[i];
            let d = paths::directory_name(view)[i];
            &&& paths::directory_name(view).len() == name.len()
            &&& d == c || d == '_'
            &&& d != '/' && d != '\\' && d != ':' && d != '*' && d != '?' && d != '"' && d != '<'
                && d != '>' && d != '|'
            &&& (d as u32) >= 0x20 && (d as u32) != 0x7f
            &&& 'a' <= c <= 'z' || 'A' <= c <= 'Z' || '0' <= c <= '9' || c == '-' || c == '.' || c
                == ' ' || (c as u32) > 0x9f ==> d == c
        }),
{
}

/// A view whose name is blank has the directory of the default view.
pub proof fn lemma_directory_of_blank_view(view: Seq<char>)
    requires
        text::trim(view).len() == 0,
    ensures
        paths::directory_name(view) == "default"@,
{
}

} // verus!
