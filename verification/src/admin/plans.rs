//! What a request does step by step, and what it is answered where a step fails.
//!
//! The steps themselves read and write files; which of them a request takes, in which order, and
//! which answer ends it early, is decided here.
use crate::admin::zones;
use crate::admin::zones::ZoneTarget;
use crate::text;
use vstd::prelude::*;

verus! {

/// Why a request fails.
#[derive(Debug, Clone, Copy, PartialEq, Eq, Structural)]
pub enum Failure {
    Unauthorized,
    NoViewDataProvided,
    ZoneNameRequired,
    InvalidJsonPayload,
    FailedToLoadConfig,
    FailedToReadConfig,
    FailedToReadZonesFile,
    ViewNotFound,
    ZoneNotFound,
    FailedToUpdateSections,
    FailedToWriteDefaultDataFiles,
    FailedToWriteDefaultStaticRecords,
    FailedToWriteDefaultBlockedDomains,
    FailedToUpsertView,
    FailedToDeleteView,
    FailedToUpdateViewPaths,
    FailedToWriteViewFiles,
    FailedToWriteViewStaticRecords,
    FailedToWriteViewBlockedDomains,
    FailedToWriteViewZone,
    FailedToUpdateViewZones,
    FailedToUpdateZonesFile,
    FailedToUpdateZonesDir,
    FailedToUpdateZones,
    FailedToUpdateZoneSoa,
    InvalidConfig,
    FailedToReadLogsDirectory,
    FailedToReadLogsMetadata,
    InvalidLogFile,
    LogsDirectoryNotFound,
    FailedToResolveLogsDirectory,
    LogFileNotFound,
}

impl Failure {
    pub open spec fn code(self) -> Seq<char> {
        match self {
            Failure::Unauthorized => "unauthorized"@,
            Failure::NoViewDataProvided => "no_view_data_provided"@,
            Failure::ZoneNameRequired => "zone_name_required"@,
            Failure::InvalidJsonPayload => "invalid_json_payload"@,
            Failure::FailedToLoadConfig => "failed_to_load_config"@,
            Failure::FailedToReadConfig => "failed_to_read_config"@,
            Failure::FailedToReadZonesFile => "failed_to_read_authoritative_zones_file"@,
            Failure::ViewNotFound => "view_not_found"@,
            Failure::ZoneNotFound => "zone_not_found"@,
            Failure::FailedToUpdateSections => "failed_to_update_config_sections"@,
            Failure::FailedToWriteDefaultDataFiles => "failed_to_write_default_view_data_files"@,
            Failure::FailedToWriteDefaultStaticRecords => "failed_to_write_default_static_records_file"@,
            Failure::FailedToWriteDefaultBlockedDomains => "failed_to_write_default_blocked_domains_file"@,
            Failure::FailedToUpsertView => "failed_to_upsert_view"@,
            Failure::FailedToDeleteView => "failed_to_delete_view"@,
            Failure::FailedToUpdateViewPaths => "failed_to_update_view_data_paths"@,
            Failure::FailedToWriteViewFiles => "failed_to_write_view_data_files"@,
            Failure::FailedToWriteViewStaticRecords => "failed_to_write_view_static_records_file"@,
            Failure::FailedToWriteViewBlockedDomains => "failed_to_write_view_blocked_domains_file"@,
            Failure::FailedToWriteViewZone => "failed_to_write_view_authoritative_zone_file"@,
            Failure::FailedToUpdateViewZones => "failed_to_update_view_authoritative_zones"@,
            Failure::FailedToUpdateZonesFile => "failed_to_update_authoritative_zones_file"@,
            Failure::FailedToUpdateZonesDir => "failed_to_update_authoritative_zones_dir"@,
            Failure::FailedToUpdateZones => "failed_to_update_authoritative_zones"@,
            Failure::FailedToUpdateZoneSoa => "failed_to_update_zone_soa"@,
            Failure::InvalidConfig => "invalid_or_unreloadable_config"@,
            Failure::FailedToReadLogsDirectory => "failed_to_read_logs_directory"@,
            Failure::FailedToReadLogsMetadata => "failed_to_read_logs_metadata"@,
            Failure::InvalidLogFile => "invalid_log_file"@,
            Failure::LogsDirectoryNotFound => "logs_directory_not_found"@,
            Failure::FailedToResolveLogsDirectory => "failed_to_resolve_logs_directory"@,
            Failure::LogFileNotFound => "log_file_not_found"@,
        }
    }

    pub open spec fn status_code(self) -> u16 {
        match self {
            Failure::Unauthorized => 401,
            Failure::NoViewDataProvided => 400,
            Failure::ZoneNameRequired => 400,
            Failure::InvalidJsonPayload => 400,
            Failure::FailedToLoadConfig => 500,
            Failure::FailedToReadConfig => 500,
            Failure::FailedToReadZonesFile => 500,
            Failure::ViewNotFound => 404,
            Failure::ZoneNotFound => 404,
            Failure::FailedToUpdateSections => 400,
            Failure::FailedToWriteDefaultDataFiles => 400,
            Failure::FailedToWriteDefaultStaticRecords => 400,
            Failure::FailedToWriteDefaultBlockedDomains => 400,
            Failure::FailedToUpsertView => 400,
            Failure::FailedToDeleteView => 400,
            Failure::FailedToUpdateViewPaths => 400,
            Failure::FailedToWriteViewFiles => 400,
            Failure::FailedToWriteViewStaticRecords => 400,
            Failure::FailedToWriteViewBlockedDomains => 400,
            Failure::FailedToWriteViewZone => 400,
            Failure::FailedToUpdateViewZones => 400,
            Failure::FailedToUpdateZonesFile => 400,
            Failure::FailedToUpdateZonesDir => 400,
            Failure::FailedToUpdateZones => 400,
            Failure::FailedToUpdateZoneSoa => 400,
            Failure::InvalidConfig => 400,
            Failure::FailedToReadLogsDirectory => 500,
            Failure::FailedToReadLogsMetadata => 500,
            Failure::InvalidLogFile => 400,
            Failure::LogsDirectoryNotFound => 404,
            Failure::FailedToResolveLogsDirectory => 500,
            Failure::LogFileNotFound => 404,
        }
    }

    /// The message of the answer.
    pub fn message(self) -> (r: &'static str)
        ensures
            r@ == self.code(),
    {
        match self {
            Failure::Unauthorized => "unauthorized",
            Failure::NoViewDataProvided => "no_view_data_provided",
            Failure::ZoneNameRequired => "zone_name_required",
            Failure::InvalidJsonPayload => "invalid_json_payload",
            Failure::FailedToLoadConfig => "failed_to_load_config",
            Failure::FailedToReadConfig => "failed_to_read_config",
            Failure::FailedToReadZonesFile => "failed_to_read_authoritative_zones_file",
            Failure::ViewNotFound => "view_not_found",
            Failure::ZoneNotFound => "zone_not_found",
            Failure::FailedToUpdateSections => "failed_to_update_config_sections",
            Failure::FailedToWriteDefaultDataFiles => "failed_to_write_default_view_data_files",
            Failure::FailedToWriteDefaultStaticRecords => "failed_to_write_default_static_records_file",
            Failure::FailedToWriteDefaultBlockedDomains => "failed_to_write_default_blocked_domains_file",
            Failure::FailedToUpsertView => "failed_to_upsert_view",
            Failure::FailedToDeleteView => "failed_to_delete_view",
            Failure::FailedToUpdateViewPaths => "failed_to_update_view_data_paths",
            Failure::FailedToWriteViewFiles => "failed_to_write_view_data_files",
            Failure::FailedToWriteViewStaticRecords => "failed_to_write_view_static_records_file",
            Failure::FailedToWriteViewBlockedDomains => "failed_to_write_view_blocked_domains_file",
            Failure::FailedToWriteViewZone => "failed_to_write_view_authoritative_zone_file",
            Failure::FailedToUpdateViewZones => "failed_to_update_view_authoritative_zones",
            Failure::FailedToUpdateZonesFile => "failed_to_update_authoritative_zones_file",
            Failure::FailedToUpdateZonesDir => "failed_to_update_authoritative_zones_dir",
            Failure::FailedToUpdateZones => "failed_to_update_authoritative_zones",
            Failure::FailedToUpdateZoneSoa => "failed_to_update_zone_soa",
            Failure::InvalidConfig => "invalid_or_unreloadable_config",
            Failure::FailedToReadLogsDirectory => "failed_to_read_logs_directory",
            Failure::FailedToReadLogsMetadata => "failed_to_read_logs_metadata",
            Failure::InvalidLogFile => "invalid_log_file",
            Failure::LogsDirectoryNotFound => "logs_directory_not_found",
            Failure::FailedToResolveLogsDirectory => "failed_to_resolve_logs_directory",
            Failure::LogFileNotFound => "log_file_not_found",
        }
    }

    /// The HTTP status of the answer.
    pub fn status(self) -> (r: u16)
        ensures
            r == self.status_code(),
    {
        match self {
            Failure::Unauthorized => 401,
            Failure::NoViewDataProvided => 400,
            Failure::ZoneNameRequired => 400,
            Failure::InvalidJsonPayload => 400,
            Failure::FailedToLoadConfig => 500,
            Failure::FailedToReadConfig => 500,
            Failure::FailedToReadZonesFile => 500,
            Failure::ViewNotFound => 404,
            Failure::ZoneNotFound => 404,
            Failure::FailedToUpdateSections => 400,
            Failure::FailedToWriteDefaultDataFiles => 400,
            Failure::FailedToWriteDefaultStaticRecords => 400,
            Failure::FailedToWriteDefaultBlockedDomains => 400,
            Failure::FailedToUpsertView => 400,
            Failure::FailedToDeleteView => 400,
            Failure::FailedToUpdateViewPaths => 400,
            Failure::FailedToWriteViewFiles => 400,
            Failure::FailedToWriteViewStaticRecords => 400,
            Failure::FailedToWriteViewBlockedDomains => 400,
            Failure::FailedToWriteViewZone => 400,
            Failure::FailedToUpdateViewZones => 400,
            Failure::FailedToUpdateZonesFile => 400,
            Failure::FailedToUpdateZonesDir => 400,
            Failure::FailedToUpdateZones => 400,
            Failure::FailedToUpdateZoneSoa => 400,
            Failure::InvalidConfig => 400,
            Failure::FailedToReadLogsDirectory => 500,
            Failure::FailedToReadLogsMetadata => 500,
            Failure::InvalidLogFile => 400,
            Failure::LogsDirectoryNotFound => 404,
            Failure::FailedToResolveLogsDirectory => 500,
            Failure::LogFileNotFound => 404,
        }
    }
}

/// A step of a request.
#[derive(Debug, Clone, Copy, PartialEq, Eq, Structural)]
pub enum Action {
    /// Read the body of the request as JSON.
    ParseBody,
    /// Load the settings.
    LoadConfig,
    /// Find out where the zones of the view are kept.
    ResolveTarget,
    /// Read the configuration file.
    ReadConfig,
    /// Read the file of zones.
    ReadZonesFile,
    /// Work out the new configuration file.
    EditConfig,
    /// The change must have met something in the configuration.
    FindInConfig,
    /// Work out the new file of zones.
    EditZonesFile,
    /// The change must have met something in the file of zones.
    FindInZonesFile,
    /// Search the directory for the file of the zone.
    SearchDirectory,
    /// There must be such a file.
    FindFile,
    /// Write the changed zone into its file.
    EditZoneFile,
    /// Create the directory of the view.
    CreateDirectory,
    /// Choose the file of the zone.
    PickZoneFile,
    /// Create the data files that are missing.
    WriteSupportFiles,
    /// Write the file of static records.
    WriteStaticRecords,
    /// Write the file of blocked domains.
    WriteBlockedDomains,
    /// Write the file of the zone.
    WriteZone,
    /// Check the new configuration file, store it and reload.
    ApplyConfig,
    /// Store the new file of zones and reload.
    ApplyZonesFile,
    /// Delete the file of the zone and reload.
    DeleteZoneFile,
    /// Reload.
    Reload,
    /// The name must be one of a log file.
    CheckFileName,
    /// There must be a log directory.
    FindLogDirectory,
    /// Resolve the path of the log directory.
    ResolveLogDirectory,
    /// Resolve the path of the log file.
    ResolveLogFile,
    /// The log file must lie in the log directory.
    CheckInside,
    /// Open the log file.
    OpenLogFile,
}

/// A step and the answer that ends the request where it fails.
#[derive(Debug, Clone, Copy, PartialEq, Eq, Structural)]
pub struct Step {
    pub action: Action,
    pub failure: Failure,
}

/// What comes next in a request.
#[derive(Debug, Clone, Copy, PartialEq, Eq, Structural)]
pub enum Next {
    Do(Action),
    Fail(Failure),
    Succeed,
}

/// What comes next after `done` steps, the last of which went well or not.
pub open spec fn next_step(plan: Seq<Step>, done: int, ok: bool) -> Next {
    if done > 0 && !ok {
        Next::Fail(plan[done - 1].failure)
    } else if done < plan.len() {
        Next::Do(plan[done].action)
    } else {
        Next::Succeed
    }
}

/// What comes next after `done` steps, the last of which went well or not.
pub fn advance(plan: &Vec<Step>, done: usize, ok: bool) -> (r: Next)
    requires
        done <= plan@.len(),
    ensures
        r == next_step(plan@, done as int, ok),
{
    if done > 0 && !ok {
        Next::Fail(plan[done - 1].failure)
    } else if done < plan.len() {
        Next::Do(plan[done].action)
    } else {
        Next::Succeed
    }
}

/// The answer to a request whose steps went as `results` says, step by step.
pub open spec fn outcome(plan: Seq<Step>, results: Seq<bool>) -> Option<Failure>
    decreases plan.len(),
{
    if plan.len() == 0 || results.len() == 0 {
        None
    } else if !results[0] {
        Some(plan[0].failure)
    } else {
        outcome(plan.skip(1), results.skip(1))
    }
}

/// A request fails with the answer of the first step that does not go well, and only so.
pub proof fn lemma_outcome(plan: Seq<Step>, results: Seq<bool>, i: int)
    requires
        0 <= i <= plan.len(),
        results.len() == plan.len(),
        forall|k: int| 0 <= k < i ==> #[trigger] results[k],
        i < plan.len() ==> !results[i],
    ensures
        outcome(plan, results) == (if i < plan.len() {
            Some(plan[i].failure)
        } else {
            None
        }),
    decreases plan.len(),
{
    if plan.len() > 0 && i > 0 {
        assert(results[0]);
        assert forall|k: int| 0 <= k < i - 1 implies #[trigger] results.skip(1)[k] by {
            assert(results.skip(1)[k] == results[k + 1]);
        }
        lemma_outcome(plan.skip(1), results.skip(1), i - 1);
    }
}

/// Whether the files that a request wrote are taken back where this step fails.
pub open spec fn takes_back(action: Action) -> bool {
    action == Action::ApplyConfig
}

/// Whether the files that a request wrote are taken back where this step fails.
pub fn rolls_back(action: Action) -> (r: bool)
    ensures
        r == takes_back(action),
{
    match action {
        Action::ApplyConfig => true,
        _ => false,
    }
}

pub open spec fn step(action: Action, failure: Failure) -> Step {
    Step { action, failure }
}

fn push_step(plan: &mut Vec<Step>, action: Action, failure: Failure)
    ensures
        final(plan)@ == old(plan)@.push(step(action, failure)),
{
    plan.push(Step { action, failure });
}

pub open spec fn config_sections_plan_steps() -> Seq<Step> {
    seq![
        step(Action::ReadConfig, Failure::FailedToReadConfig),
        step(Action::EditConfig, Failure::FailedToUpdateSections),
        step(Action::CreateDirectory, Failure::FailedToWriteDefaultDataFiles),
        step(Action::WriteStaticRecords, Failure::FailedToWriteDefaultStaticRecords),
        step(Action::WriteBlockedDomains, Failure::FailedToWriteDefaultBlockedDomains),
        step(Action::ApplyConfig, Failure::InvalidConfig),
    ]
}

/// Takes new sections of the settings.
pub fn config_sections_plan() -> (r: Vec<Step>)
    ensures
        r@ == config_sections_plan_steps(),
{
    let mut plan: Vec<Step> = Vec::new();
    push_step(&mut plan, Action::ReadConfig, Failure::FailedToReadConfig);
    push_step(&mut plan, Action::EditConfig, Failure::FailedToUpdateSections);
    push_step(&mut plan, Action::CreateDirectory, Failure::FailedToWriteDefaultDataFiles);
    push_step(&mut plan, Action::WriteStaticRecords, Failure::FailedToWriteDefaultStaticRecords);
    push_step(&mut plan, Action::WriteBlockedDomains, Failure::FailedToWriteDefaultBlockedDomains);
    push_step(&mut plan, Action::ApplyConfig, Failure::InvalidConfig);
    assert(plan@ =~= config_sections_plan_steps());
    plan
}

pub open spec fn view_upsert_plan_steps() -> Seq<Step> {
    seq![
        step(Action::ReadConfig, Failure::FailedToReadConfig),
        step(Action::EditConfig, Failure::FailedToUpsertView),
        step(Action::ApplyConfig, Failure::InvalidConfig),
    ]
}

/// Adds or changes a view.
pub fn view_upsert_plan() -> (r: Vec<Step>)
    ensures
        r@ == view_upsert_plan_steps(),
{
    let mut plan: Vec<Step> = Vec::new();
    push_step(&mut plan, Action::ReadConfig, Failure::FailedToReadConfig);
    push_step(&mut plan, Action::EditConfig, Failure::FailedToUpsertView);
    push_step(&mut plan, Action::ApplyConfig, Failure::InvalidConfig);
    assert(plan@ =~= view_upsert_plan_steps());
    plan
}

pub open spec fn view_delete_plan_steps() -> Seq<Step> {
    seq![
        step(Action::ReadConfig, Failure::FailedToReadConfig),
        step(Action::EditConfig, Failure::FailedToDeleteView),
        step(Action::FindInConfig, Failure::ViewNotFound),
        step(Action::ApplyConfig, Failure::InvalidConfig),
    ]
}

/// Deletes a view.
pub fn view_delete_plan() -> (r: Vec<Step>)
    ensures
        r@ == view_delete_plan_steps(),
{
    let mut plan: Vec<Step> = Vec::new();
    push_step(&mut plan, Action::ReadConfig, Failure::FailedToReadConfig);
    push_step(&mut plan, Action::EditConfig, Failure::FailedToDeleteView);
    push_step(&mut plan, Action::FindInConfig, Failure::ViewNotFound);
    push_step(&mut plan, Action::ApplyConfig, Failure::InvalidConfig);
    assert(plan@ =~= view_delete_plan_steps());
    plan
}

pub open spec fn view_zone_upsert_plan_steps() -> Seq<Step> {
    seq![
        step(Action::ReadConfig, Failure::FailedToReadConfig),
        step(Action::EditConfig, Failure::FailedToUpdateViewZones),
        step(Action::FindInConfig, Failure::ViewNotFound),
        step(Action::CreateDirectory, Failure::FailedToUpdateZonesDir),
        step(Action::PickZoneFile, Failure::FailedToUpdateZonesDir),
        step(Action::WriteSupportFiles, Failure::FailedToUpdateZonesDir),
        step(Action::WriteZone, Failure::FailedToUpdateZonesDir),
        step(Action::ApplyConfig, Failure::InvalidConfig),
    ]
}

/// Writes a zone of a view.
pub fn view_zone_upsert_plan() -> (r: Vec<Step>)
    ensures
        r@ == view_zone_upsert_plan_steps(),
{
    let mut plan: Vec<Step> = Vec::new();
    push_step(&mut plan, Action::ReadConfig, Failure::FailedToReadConfig);
    push_step(&mut plan, Action::EditConfig, Failure::FailedToUpdateViewZones);
    push_step(&mut plan, Action::FindInConfig, Failure::ViewNotFound);
    push_step(&mut plan, Action::CreateDirectory, Failure::FailedToUpdateZonesDir);
    push_step(&mut plan, Action::PickZoneFile, Failure::FailedToUpdateZonesDir);
    push_step(&mut plan, Action::WriteSupportFiles, Failure::FailedToUpdateZonesDir);
    push_step(&mut plan, Action::WriteZone, Failure::FailedToUpdateZonesDir);
    push_step(&mut plan, Action::ApplyConfig, Failure::InvalidConfig);
    assert(plan@ =~= view_zone_upsert_plan_steps());
    plan
}

pub open spec fn zone_upsert_plan_steps() -> Seq<Step> {
    seq![
        step(Action::ReadConfig, Failure::FailedToReadConfig),
        step(Action::EditConfig, Failure::FailedToUpdateZones),
        step(Action::ApplyConfig, Failure::InvalidConfig),
    ]
}

/// Writes a zone of the top level.
pub fn zone_upsert_plan() -> (r: Vec<Step>)
    ensures
        r@ == zone_upsert_plan_steps(),
{
    let mut plan: Vec<Step> = Vec::new();
    push_step(&mut plan, Action::ReadConfig, Failure::FailedToReadConfig);
    push_step(&mut plan, Action::EditConfig, Failure::FailedToUpdateZones);
    push_step(&mut plan, Action::ApplyConfig, Failure::InvalidConfig);
    assert(plan@ =~= zone_upsert_plan_steps());
    plan
}

pub open spec fn log_download_plan_steps() -> Seq<Step> {
    seq![
        step(Action::CheckFileName, Failure::InvalidLogFile),
        step(Action::LoadConfig, Failure::FailedToLoadConfig),
        step(Action::FindLogDirectory, Failure::LogsDirectoryNotFound),
        step(Action::ResolveLogDirectory, Failure::FailedToResolveLogsDirectory),
        step(Action::ResolveLogFile, Failure::LogFileNotFound),
        step(Action::CheckInside, Failure::InvalidLogFile),
        step(Action::OpenLogFile, Failure::LogFileNotFound),
    ]
}

/// Sends a log file.
pub fn log_download_plan() -> (r: Vec<Step>)
    ensures
        r@ == log_download_plan_steps(),
{
    let mut plan: Vec<Step> = Vec::new();
    push_step(&mut plan, Action::CheckFileName, Failure::InvalidLogFile);
    push_step(&mut plan, Action::LoadConfig, Failure::FailedToLoadConfig);
    push_step(&mut plan, Action::FindLogDirectory, Failure::LogsDirectoryNotFound);
    push_step(&mut plan, Action::ResolveLogDirectory, Failure::FailedToResolveLogsDirectory);
    push_step(&mut plan, Action::ResolveLogFile, Failure::LogFileNotFound);
    push_step(&mut plan, Action::CheckInside, Failure::InvalidLogFile);
    push_step(&mut plan, Action::OpenLogFile, Failure::LogFileNotFound);
    assert(plan@ =~= log_download_plan_steps());
    plan
}

/// A step that is taken only where there is something to write.
pub open spec fn optional_step(wanted: bool, action: Action, failure: Failure) -> Seq<Step> {
    if wanted {
        seq![step(action, failure)]
    } else {
        Seq::empty()
    }
}

pub open spec fn view_data_head() -> Seq<Step> {
    seq![
        step(Action::LoadConfig, Failure::FailedToLoadConfig),
        step(Action::ReadConfig, Failure::FailedToReadConfig),
        step(Action::EditConfig, Failure::FailedToUpdateViewPaths),
        step(Action::FindInConfig, Failure::ViewNotFound),
        step(Action::CreateDirectory, Failure::FailedToWriteViewFiles),
        step(Action::WriteSupportFiles, Failure::FailedToWriteViewFiles),
    ]
}

/// The steps of a request that writes data of a view; one that brings none is refused.
pub open spec fn view_data_steps(
    authoritative: bool,
    static_records: bool,
    blocked: bool,
) -> Result<Seq<Step>, Failure> {
    if !authoritative && !static_records && !blocked {
        Err(Failure::NoViewDataProvided)
    } else {
        Ok(
            view_data_head() + optional_step(
                static_records,
                Action::WriteStaticRecords,
                Failure::FailedToWriteViewStaticRecords,
            ) + optional_step(
                blocked,
                Action::WriteBlockedDomains,
                Failure::FailedToWriteViewBlockedDomains,
            ) + optional_step(authoritative, Action::WriteZone, Failure::FailedToWriteViewZone)
                + seq![step(Action::ApplyConfig, Failure::InvalidConfig)],
        )
    }
}

/// Writes data of a view.
pub fn view_data_plan(authoritative: bool, static_records: bool, blocked: bool) -> (r: Result<
    Vec<Step>,
    Failure,
>)
    ensures
        match view_data_steps(authoritative, static_records, blocked) {
            Ok(steps) => r is Ok && r->Ok_0@ == steps,
            Err(e) => r is Err && r->Err_0 == e,
        },
{
    if !authoritative && !static_records && !blocked {
        return Err(Failure::NoViewDataProvided);
    }
    let mut plan: Vec<Step> = Vec::new();
    push_step(&mut plan, Action::LoadConfig, Failure::FailedToLoadConfig);
    push_step(&mut plan, Action::ReadConfig, Failure::FailedToReadConfig);
    push_step(&mut plan, Action::EditConfig, Failure::FailedToUpdateViewPaths);
    push_step(&mut plan, Action::FindInConfig, Failure::ViewNotFound);
    push_step(&mut plan, Action::CreateDirectory, Failure::FailedToWriteViewFiles);
    push_step(&mut plan, Action::WriteSupportFiles, Failure::FailedToWriteViewFiles);
    if static_records {
        push_step(
            &mut plan,
            Action::WriteStaticRecords,
            Failure::FailedToWriteViewStaticRecords,
        );
    }
    if blocked {
        push_step(
            &mut plan,
            Action::WriteBlockedDomains,
            Failure::FailedToWriteViewBlockedDomains,
        );
    }
    if authoritative {
        push_step(&mut plan, Action::WriteZone, Failure::FailedToWriteViewZone);
    }
    push_step(&mut plan, Action::ApplyConfig, Failure::InvalidConfig);
    assert(plan@ =~= view_data_steps(authoritative, static_records, blocked)->Ok_0);
    Ok(plan)
}

/// The steps once it is known where the zones of the view are kept.
pub open spec fn view_zone_delete_steps(target: Option<zones::ZoneTargetV>) -> Result<Seq<Step>, Failure> {
    match target {
        None => Err(Failure::ViewNotFound),
        Some(zones::ZoneTargetV::Inline) => Ok(
            seq![
                step(Action::ReadConfig, Failure::FailedToReadConfig),
                step(Action::EditConfig, Failure::FailedToUpdateViewZones),
                step(Action::FindInConfig, Failure::ZoneNotFound),
                step(Action::ApplyConfig, Failure::InvalidConfig),
            ],
        ),
        Some(zones::ZoneTargetV::File(_)) => Ok(
            seq![
                step(Action::ReadZonesFile, Failure::FailedToReadZonesFile),
                step(Action::EditZonesFile, Failure::FailedToUpdateZonesFile),
                step(Action::FindInZonesFile, Failure::ZoneNotFound),
                step(Action::ApplyZonesFile, Failure::InvalidConfig),
            ],
        ),
        Some(zones::ZoneTargetV::Directory(_)) => Ok(
            seq![
                step(Action::SearchDirectory, Failure::FailedToUpdateZonesDir),
                step(Action::FindFile, Failure::ZoneNotFound),
                step(Action::DeleteZoneFile, Failure::InvalidConfig),
            ],
        ),
    }
}

/// Deletes a zone of a view, wherever its zones are kept.
pub fn view_zone_delete_plan(target: &Option<ZoneTarget>) -> (r: Result<Vec<Step>, Failure>)
    ensures
        match view_zone_delete_steps(
            match target {
                Some(t) => Some(zones::target_view(*t)),
                None => None,
            },
        ) {
            Ok(steps) => r is Ok && r->Ok_0@ == steps,
            Err(e) => r is Err && r->Err_0 == e,
        },
{
    let mut plan: Vec<Step> = Vec::new();
    match target {
        None => return Err(Failure::ViewNotFound),
        Some(ZoneTarget::Inline) => {
            push_step(&mut plan, Action::ReadConfig, Failure::FailedToReadConfig);
            push_step(&mut plan, Action::EditConfig, Failure::FailedToUpdateViewZones);
            push_step(&mut plan, Action::FindInConfig, Failure::ZoneNotFound);
            push_step(&mut plan, Action::ApplyConfig, Failure::InvalidConfig);
            assert(plan@ =~= seq![
                step(Action::ReadConfig, Failure::FailedToReadConfig),
                step(Action::EditConfig, Failure::FailedToUpdateViewZones),
                step(Action::FindInConfig, Failure::ZoneNotFound),
                step(Action::ApplyConfig, Failure::InvalidConfig),
            ]);
        },
        Some(ZoneTarget::File(_)) => {
            push_step(&mut plan, Action::ReadZonesFile, Failure::FailedToReadZonesFile);
            push_step(&mut plan, Action::EditZonesFile, Failure::FailedToUpdateZonesFile);
            push_step(&mut plan, Action::FindInZonesFile, Failure::ZoneNotFound);
            push_step(&mut plan, Action::ApplyZonesFile, Failure::InvalidConfig);
            assert(plan@ =~= seq![
                step(Action::ReadZonesFile, Failure::FailedToReadZonesFile),
                step(Action::EditZonesFile, Failure::FailedToUpdateZonesFile),
                step(Action::FindInZonesFile, Failure::ZoneNotFound),
                step(Action::ApplyZonesFile, Failure::InvalidConfig),
            ]);
        },
        Some(ZoneTarget::Directory(_)) => {
            push_step(&mut plan, Action::SearchDirectory, Failure::FailedToUpdateZonesDir);
            push_step(&mut plan, Action::FindFile, Failure::ZoneNotFound);
            push_step(&mut plan, Action::DeleteZoneFile, Failure::InvalidConfig);
            assert(plan@ =~= seq![
                step(Action::SearchDirectory, Failure::FailedToUpdateZonesDir),
                step(Action::FindFile, Failure::ZoneNotFound),
                step(Action::DeleteZoneFile, Failure::InvalidConfig),
            ]);
        },
    }
    Ok(plan)
}

/// The steps once it is known where the zones of the view are kept.
pub open spec fn view_zone_soa_steps(target: Option<zones::ZoneTargetV>) -> Result<Seq<Step>, Failure> {
    match target {
        None => Err(Failure::ViewNotFound),
        Some(zones::ZoneTargetV::Inline) => Ok(
            seq![
                step(Action::ReadConfig, Failure::FailedToReadConfig),
                step(Action::EditConfig, Failure::FailedToUpdateViewZones),
                step(Action::FindInConfig, Failure::ZoneNotFound),
                step(Action::ApplyConfig, Failure::InvalidConfig),
            ],
        ),
        Some(zones::ZoneTargetV::File(_)) => Ok(
            seq![
                step(Action::ReadZonesFile, Failure::FailedToReadZonesFile),
                step(Action::EditZonesFile, Failure::FailedToUpdateZonesFile),
                step(Action::FindInZonesFile, Failure::ZoneNotFound),
                step(Action::ApplyZonesFile, Failure::InvalidConfig),
            ],
        ),
        Some(zones::ZoneTargetV::Directory(_)) => Ok(
            seq![
                step(Action::EditZoneFile, Failure::FailedToUpdateZonesDir),
                step(Action::FindFile, Failure::ZoneNotFound),
                step(Action::Reload, Failure::InvalidConfig),
            ],
        ),
    }
}

/// Changes the start-of-authority data of a zone of a view, wherever its zones are kept.
pub fn view_zone_soa_plan(target: &Option<ZoneTarget>) -> (r: Result<Vec<Step>, Failure>)
    ensures
        match view_zone_soa_steps(
            match target {
                Some(t) => Some(zones::target_view(*t)),
                None => None,
            },
        ) {
            Ok(steps) => r is Ok && r->Ok_0@ == steps,
            Err(e) => r is Err && r->Err_0 == e,
        },
{
    let mut plan: Vec<Step> = Vec::new();
    match target {
        None => return Err(Failure::ViewNotFound),
        Some(ZoneTarget::Inline) => {
            push_step(&mut plan, Action::ReadConfig, Failure::FailedToReadConfig);
            push_step(&mut plan, Action::EditConfig, Failure::FailedToUpdateViewZones);
            push_step(&mut plan, Action::FindInConfig, Failure::ZoneNotFound);
            push_step(&mut plan, Action::ApplyConfig, Failure::InvalidConfig);
            assert(plan@ =~= seq![
                step(Action::ReadConfig, Failure::FailedToReadConfig),
                step(Action::EditConfig, Failure::FailedToUpdateViewZones),
                step(Action::FindInConfig, Failure::ZoneNotFound),
                step(Action::ApplyConfig, Failure::InvalidConfig),
            ]);
        },
        Some(ZoneTarget::File(_)) => {
            push_step(&mut plan, Action::ReadZonesFile, Failure::FailedToReadZonesFile);
            push_step(&mut plan, Action::EditZonesFile, Failure::FailedToUpdateZonesFile);
            push_step(&mut plan, Action::FindInZonesFile, Failure::ZoneNotFound);
            push_step(&mut plan, Action::ApplyZonesFile, Failure::InvalidConfig);
            assert(plan@ =~= seq![
                step(Action::ReadZonesFile, Failure::FailedToReadZonesFile),
                step(Action::EditZonesFile, Failure::FailedToUpdateZonesFile),
                step(Action::FindInZonesFile, Failure::ZoneNotFound),
                step(Action::ApplyZonesFile, Failure::InvalidConfig),
            ]);
        },
        Some(ZoneTarget::Directory(_)) => {
            push_step(&mut plan, Action::EditZoneFile, Failure::FailedToUpdateZonesDir);
            push_step(&mut plan, Action::FindFile, Failure::ZoneNotFound);
            push_step(&mut plan, Action::Reload, Failure::InvalidConfig);
            assert(plan@ =~= seq![
                step(Action::EditZoneFile, Failure::FailedToUpdateZonesDir),
                step(Action::FindFile, Failure::ZoneNotFound),
                step(Action::Reload, Failure::InvalidConfig),
            ]);
        },
    }
    Ok(plan)
}

/// The steps for a zone of the top level: in its directory where there is one, otherwise in the
/// configuration itself.
pub open spec fn zone_delete_steps(in_directory: bool) -> Seq<Step> {
    if in_directory {
        seq![
            step(Action::SearchDirectory, Failure::FailedToUpdateZonesDir),
            step(Action::FindFile, Failure::ZoneNotFound),
            step(Action::DeleteZoneFile, Failure::InvalidConfig),
        ]
    } else {
        seq![
            step(Action::ReadConfig, Failure::FailedToReadConfig),
            step(Action::EditConfig, Failure::FailedToUpdateZones),
            step(Action::FindInConfig, Failure::ZoneNotFound),
            step(Action::ApplyConfig, Failure::InvalidConfig),
        ]
    }
}

/// Deletes a zone of the top level.
pub fn zone_delete_plan(in_directory: bool) -> (r: Vec<Step>)
    ensures
        r@ == zone_delete_steps(in_directory),
{
    let mut plan: Vec<Step> = Vec::new();
    if in_directory {
        push_step(&mut plan, Action::SearchDirectory, Failure::FailedToUpdateZonesDir);
        push_step(&mut plan, Action::FindFile, Failure::ZoneNotFound);
        push_step(&mut plan, Action::DeleteZoneFile, Failure::InvalidConfig);
    } else {
        push_step(&mut plan, Action::ReadConfig, Failure::FailedToReadConfig);
        push_step(&mut plan, Action::EditConfig, Failure::FailedToUpdateZones);
        push_step(&mut plan, Action::FindInConfig, Failure::ZoneNotFound);
        push_step(&mut plan, Action::ApplyConfig, Failure::InvalidConfig);
    }
    assert(plan@ =~= zone_delete_steps(in_directory));
    plan
}

/// The steps for a zone of the top level: in its directory where there is one, otherwise in the
/// configuration itself.
pub open spec fn zone_soa_steps(in_directory: bool) -> Seq<Step> {
    if in_directory {
        seq![
            step(Action::EditZoneFile, Failure::FailedToUpdateZonesDir),
            step(Action::FindFile, Failure::ZoneNotFound),
            step(Action::Reload, Failure::InvalidConfig),
        ]
    } else {
        seq![
            step(Action::ReadConfig, Failure::FailedToReadConfig),
            step(Action::EditConfig, Failure::FailedToUpdateZoneSoa),
            step(Action::FindInConfig, Failure::ZoneNotFound),
            step(Action::ApplyConfig, Failure::InvalidConfig),
        ]
    }
}

/// Changes the start-of-authority data of a zone of the top level.
pub fn zone_soa_plan(in_directory: bool) -> (r: Vec<Step>)
    ensures
        r@ == zone_soa_steps(in_directory),
{
    let mut plan: Vec<Step> = Vec::new();
    if in_directory {
        push_step(&mut plan, Action::EditZoneFile, Failure::FailedToUpdateZonesDir);
        push_step(&mut plan, Action::FindFile, Failure::ZoneNotFound);
        push_step(&mut plan, Action::Reload, Failure::InvalidConfig);
    } else {
        push_step(&mut plan, Action::ReadConfig, Failure::FailedToReadConfig);
        push_step(&mut plan, Action::EditConfig, Failure::FailedToUpdateZoneSoa);
        push_step(&mut plan, Action::FindInConfig, Failure::ZoneNotFound);
        push_step(&mut plan, Action::ApplyConfig, Failure::InvalidConfig);
    }
    assert(plan@ =~= zone_soa_steps(in_directory));
    plan
}

/// What a request changed.
#[derive(Debug, Clone, Copy, PartialEq, Eq, Structural)]
pub enum Change {
    ViewUpserted,
    ViewDeleted,
    ViewDataUpdated,
    ViewZoneUpserted,
    ViewZoneDeleted,
    ViewZoneSoaUpdated,
    ZoneUpserted,
    ZoneDeleted,
    ZoneSoaUpdated,
    SectionsUpdated,
    ConfigReplaced,
}

/// The answer to a request that went well: what changed, and where.
pub open spec fn change_text(change: Change, view: Seq<char>, zone: Seq<char>) -> Seq<char> {
    match change {
        Change::ViewUpserted => "view upserted: "@ + view,
        Change::ViewDeleted => "view deleted: "@ + view,
        Change::ViewDataUpdated => "view data updated: "@ + view,
        Change::ViewZoneUpserted => "view authoritative zone upserted: "@ + view + "/"@ + zone,
        Change::ViewZoneDeleted => "view authoritative zone deleted: "@ + view + "/"@ + zone,
        Change::ViewZoneSoaUpdated => "view authoritative zone SOA updated: "@ + view + "/"@ + zone,
        Change::ZoneUpserted => "authoritative zone upserted: "@ + zone,
        Change::ZoneDeleted => "authoritative zone deleted: "@ + zone,
        Change::ZoneSoaUpdated => "authoritative zone SOA updated: "@ + zone,
        Change::SectionsUpdated => "config sections updated and reloaded"@,
        Change::ConfigReplaced => "config replaced and reloaded"@,
    }
}

fn joined(prefix: &str, view: &str, zone: &str) -> (r: String)
    ensures
        r@ == prefix@ + view@ + "/"@ + zone@,
{
    let mut s = text::concat(prefix, view);
    s.append("/");
    s.append(zone);
    s
}

/// The answer to a request that went well.
pub fn change_message(change: Change, view: &str, zone: &str) -> (r: String)
    ensures
        r@ == change_text(change, view@, zone@),
{
    match change {
        Change::ViewUpserted => text::concat("view upserted: ", view),
        Change::ViewDeleted => text::concat("view deleted: ", view),
        Change::ViewDataUpdated => text::concat("view data updated: ", view),
        Change::ViewZoneUpserted => joined("view authoritative zone upserted: ", view, zone),
        Change::ViewZoneDeleted => joined("view authoritative zone deleted: ", view, zone),
        Change::ViewZoneSoaUpdated => joined("view authoritative zone SOA updated: ", view, zone),
        Change::ZoneUpserted => text::concat("authoritative zone upserted: ", zone),
        Change::ZoneDeleted => text::concat("authoritative zone deleted: ", zone),
        Change::ZoneSoaUpdated => text::concat("authoritative zone SOA updated: ", zone),
        Change::SectionsUpdated => "config sections updated and reloaded".to_owned(),
        Change::ConfigReplaced => "config replaced and reloaded".to_owned(),
    }
}

} // verus!
