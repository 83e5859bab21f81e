//! Launching a hook, step by step, and bringing its status record to its end.
//!
//! Creating directories, writing files and spawning the process are out of
//! reach from here. A launch says what is to be done next, and is told how
//! that went.
use crate::clock::{utc_now, Timestamp};
use crate::config::{Config, Hook, HookView};
use crate::error::{ApiError, ApiErrorView};
use crate::file::{
    get_aux_dir, get_hook_data_dir, get_info_file, get_log_dir, get_log_file, hook_aux_dir,
    hook_info_file, hook_log_dir, malformed_status_text, write_initial_hook_info, StatusRecord,
};
use crate::id::{hyphenated, hyphenated_text, is_random_id, new_v4};
use crate::model::{CreateConfig, Info, InfoView, Request, RequestView};
use crate::string_map::StringMap;
use crate::supervisor::{
    lemma_exit_is_recorded, lemma_timeout_is_recorded, of_process, Supervisor, SupervisorAction,
    SupervisorEvent,
};
use std::time::Duration;
use vstd::prelude::*;
use vstd::string::*;

verus! {

/// How far a launch has come.
#[derive(Debug, PartialEq, Eq)]
pub enum LaunchState {
    /// The directories of the instance are being created.
    CreatingDirs { id: u128, name: String, create_config: CreateConfig, request: Request },
    /// The initial status record is being written.
    WritingInfo { id: u128, hook: Hook, vars: StringMap },
    /// The process is being spawned.
    Spawning { id: u128, timeout: Duration },
    /// The process runs: the launch has succeeded.
    Launched { id: u128 },
    /// The launch has failed.
    Failed,
}

/// What a `LaunchState` holds, as plain values.
pub enum LaunchStateView {
    CreatingDirs { id: u128, name: Seq<char>, vars: Map<Seq<char>, Seq<char>>, request: RequestView },
    WritingInfo { id: u128, hook: HookView, vars: Map<Seq<char>, Seq<char>> },
    Spawning { id: u128, timeout: Duration },
    Launched { id: u128 },
    Failed,
}

impl View for LaunchState {
    type V = LaunchStateView;

    open spec fn view(&self) -> LaunchStateView {
        match self {
            LaunchState::CreatingDirs { id, name, create_config, request } => {
                LaunchStateView::CreatingDirs {
                    id: *id,
                    name: name@,
                    vars: create_config@,
                    request: request@,
                }
            },
            LaunchState::WritingInfo { id, hook, vars } => LaunchStateView::WritingInfo {
                id: *id,
                hook: hook@,
                vars: vars@,
            },
            LaunchState::Spawning { id, timeout } => LaunchStateView::Spawning {
                id: *id,
                timeout: *timeout,
            },
            LaunchState::Launched { id } => LaunchStateView::Launched { id: *id },
            LaunchState::Failed => LaunchStateView::Failed,
        }
    }
}

/// How the step that a launch asked for went.
#[derive(Debug, Clone, Copy, PartialEq, Eq, Structural)]
pub enum LaunchEvent {
    /// It was done.
    Done,
    /// It failed.
    Failed,
}

/// What a launch asks for next. Paths are directory names below the data
/// directory.
#[derive(Debug, PartialEq, Eq)]
pub enum LaunchAction {
    /// Create the directories `log_dir` and `aux_dir`, and those above them.
    CreateDirs { log_dir: Vec<String>, aux_dir: Vec<String> },
    /// Write the status record `info` to `file`.
    WriteInfo { file: Vec<String>, info: Info },
    /// Spawn `command` in `work_dir` with both output streams piped. The
    /// environment is that of the daemon, and on top of it first `vars`,
    /// then the variable named by `aux_dir_var` with the place of `aux_dir`.
    Spawn { command: String, work_dir: String, vars: StringMap, aux_dir: Vec<String> },
    /// Hand the process over to be supervised, and answer with `id`.
    Supervise { log_dir: Vec<String>, info_file: Vec<String>, id: u128, timeout: Duration },
    /// Answer with `error`.
    Fail { error: ApiError },
    /// The launch is over; there is nothing left to do.
    Nothing,
}

/// What a `LaunchAction` holds, as plain values.
pub enum LaunchActionView {
    CreateDirs { log_dir: Seq<Seq<char>>, aux_dir: Seq<Seq<char>> },
    WriteInfo { file: Seq<Seq<char>>, info: InfoView },
    Spawn {
        command: Seq<char>,
        work_dir: Seq<char>,
        vars: Map<Seq<char>, Seq<char>>,
        aux_dir: Seq<Seq<char>>,
    },
    Supervise { log_dir: Seq<Seq<char>>, info_file: Seq<Seq<char>>, id: u128, timeout: Duration },
    Fail { error: ApiErrorView },
    Nothing,
}

impl View for LaunchAction {
    type V = LaunchActionView;

    open spec fn view(&self) -> LaunchActionView {
        match self {
            LaunchAction::CreateDirs { log_dir, aux_dir } => LaunchActionView::CreateDirs {
                log_dir: log_dir.deep_view(),
                aux_dir: aux_dir.deep_view(),
            },
            LaunchAction::WriteInfo { file, info } => LaunchActionView::WriteInfo {
                file: file.deep_view(),
                info: info@,
            },
            LaunchAction::Spawn { command, work_dir, vars, aux_dir } => LaunchActionView::Spawn {
                command: command@,
                work_dir: work_dir@,
                vars: vars@,
                aux_dir: aux_dir.deep_view(),
            },
            LaunchAction::Supervise { log_dir, info_file, id, timeout } => {
                LaunchActionView::Supervise {
                    log_dir: log_dir.deep_view(),
                    info_file: info_file.deep_view(),
                    id: *id,
                    timeout: *timeout,
                }
            },
            LaunchAction::Fail { error } => LaunchActionView::Fail { error: error@ },
            LaunchAction::Nothing => LaunchActionView::Nothing,
        }
    }
}

/// The start time in the status record that `action` tells to write. Of an
/// action that writes none, nothing is said.
pub open spec fn started_in(action: LaunchActionView) -> Timestamp {
    match action {
        LaunchActionView::WriteInfo { info, .. } => info.started,
        _ => arbitrary(),
    }
}

/// The name of the environment variable that tells a hook where its scratch
/// directory is.
pub fn aux_dir_var() -> (name: &'static str)
    ensures
        name@ == "HOOKD_JOB_AUX_DIR"@,
{
    "HOOKD_JOB_AUX_DIR"
}

/// The launch of the hook `name` as instance `id`, at its first step.
pub open spec fn spec_begin(
    id: u128,
    request: RequestView,
    vars: Map<Seq<char>, Seq<char>>,
    name: Seq<char>,
) -> (LaunchStateView, LaunchActionView) {
    (
        LaunchStateView::CreatingDirs { id, name, vars, request },
        LaunchActionView::CreateDirs { log_dir: hook_log_dir(id), aux_dir: hook_aux_dir(id) },
    )
}

/// The state of a launch after `event`, and what it asks for then.
///
/// The steps come in this order: the directories; the hook's lookup by name
/// and the filtering of the variables; the initial status record, whose
/// start time is `started`; the process. A step that fails ends the launch.
pub open spec fn spec_launch_step(
    state: LaunchStateView,
    event: LaunchEvent,
    hooks: Map<Seq<char>, Hook>,
    started: Timestamp,
) -> (LaunchStateView, LaunchActionView) {
    match state {
        LaunchStateView::CreatingDirs { id, name, vars, request } => match event {
            LaunchEvent::Failed => (
                LaunchStateView::Failed,
                LaunchActionView::Fail {
                    error: ApiErrorView::InternalServerError("Couldn't create hook directories"@),
                },
            ),
            LaunchEvent::Done => if hooks.contains_key(name) {
                let hook = hooks[name]@;
                let kept = vars.restrict(hook.allowed_keys.to_set());
                (
                    LaunchStateView::WritingInfo { id, hook, vars: kept },
                    LaunchActionView::WriteInfo {
                        file: hook_info_file(id),
                        info: InfoView::initial(request, hook, kept, started),
                    },
                )
            } else {
                (
                    LaunchStateView::Failed,
                    LaunchActionView::Fail {
                        error: ApiErrorView::NotFound("No hook with this name configured"@),
                    },
                )
            },
        },
        LaunchStateView::WritingInfo { id, hook, vars } => match event {
            LaunchEvent::Failed => (
                LaunchStateView::Failed,
                LaunchActionView::Fail {
                    error: ApiErrorView::InternalServerError("Couldn't write hook info"@),
                },
            ),
            LaunchEvent::Done => (
                LaunchStateView::Spawning { id, timeout: hook.timeout },
                LaunchActionView::Spawn {
                    command: hook.command,
                    work_dir: hook.work_dir,
                    vars,
                    aux_dir: hook_aux_dir(id),
                },
            ),
        },
        LaunchStateView::Spawning { id, timeout } => match event {
            LaunchEvent::Failed => (
                LaunchStateView::Failed,
                LaunchActionView::Fail {
                    error: ApiErrorView::InternalServerError("Couldn't spawn hook command"@),
                },
            ),
            LaunchEvent::Done => (
                LaunchStateView::Launched { id },
                LaunchActionView::Supervise {
                    log_dir: hook_log_dir(id),
                    info_file: hook_info_file(id),
                    id,
                    timeout,
                },
            ),
        },
        LaunchStateView::Launched { .. } => (state, LaunchActionView::Nothing),
        LaunchStateView::Failed => (state, LaunchActionView::Nothing),
    }
}

/// Starts the launch of the hook `name` as the instance `id`.
pub fn begin_launch(id: u128, request: Request, create_config: CreateConfig, name: String) -> (launch:
    (LaunchState, LaunchAction))
    ensures
        (launch.0@, launch.1@) == spec_begin(id, request@, create_config@, name@),
{
    let data_dir = get_hook_data_dir(id);
    let log_dir = get_log_dir(&data_dir);
    let aux_dir = get_aux_dir(&data_dir);
    (
        LaunchState::CreatingDirs { id, name, create_config, request },
        LaunchAction::CreateDirs { log_dir, aux_dir },
    )
}

/// Runs a hook with the given configuration: starts its launch, as an
/// instance with a new random identifier
pub fn run_hook(request: Request, create_config: CreateConfig, name: String) -> (launch: (
    LaunchState,
    LaunchAction,
))
    ensures
        launch.0@ matches LaunchStateView::CreatingDirs { id, .. } && is_random_id(id) && (
            launch.0@,
            launch.1@,
        ) == spec_begin(id, request@, create_config@, name@),
{
    let id = new_v4();
    begin_launch(id, request, create_config, name)
}

/// Takes a launch one step on: `event` says how the step it asked for went.
pub fn launch_step(state: LaunchState, event: LaunchEvent, config: &Config) -> (next: (
    LaunchState,
    LaunchAction,
))
    ensures
        (next.0@, next.1@) == spec_launch_step(state@, event, config@, started_in(next.1@)),
{
    match state {
        LaunchState::CreatingDirs { id, name, create_config, request } => match event {
            LaunchEvent::Failed => (
                LaunchState::Failed,
                LaunchAction::Fail { error: ApiError::internal("Couldn't create hook directories") },
            ),
            LaunchEvent::Done => match config.get(name.as_str()) {
                None => (
                    LaunchState::Failed,
                    LaunchAction::Fail {
                        error: ApiError::NotFound("No hook with this name configured"),
                    },
                ),
                Some(static_config) => {
                    let mut create_config = create_config;
                    let allowed_keys = static_config.allowed_keys.as_slice();
                    assert(allowed_keys.deep_view() =~= static_config.allowed_keys.deep_view());
                    create_config.filter(allowed_keys);
                    let info_path = get_info_file(&get_hook_data_dir(id));
                    let action = write_initial_hook_info(
                        static_config,
                        &create_config.vars,
                        request,
                        info_path,
                    );
                    (
                        LaunchState::WritingInfo {
                            id,
                            hook: static_config.clone(),
                            vars: create_config.vars,
                        },
                        action,
                    )
                },
            },
        },
        LaunchState::WritingInfo { id, hook, vars } => match event {
            LaunchEvent::Failed => (
                LaunchState::Failed,
                LaunchAction::Fail { error: ApiError::internal("Couldn't write hook info") },
            ),
            LaunchEvent::Done => {
                let aux_dir = get_aux_dir(&get_hook_data_dir(id));
                (
                    LaunchState::Spawning { id, timeout: hook.timeout },
                    LaunchAction::Spawn {
                        command: hook.command,
                        work_dir: hook.work_dir,
                        vars,
                        aux_dir,
                    },
                )
            },
        },
        LaunchState::Spawning { id, timeout } => match event {
            LaunchEvent::Failed => (
                LaunchState::Failed,
                LaunchAction::Fail { error: ApiError::internal("Couldn't spawn hook command") },
            ),
            LaunchEvent::Done => {
                let data_dir = get_hook_data_dir(id);
                (
                    LaunchState::Launched { id },
                    LaunchAction::Supervise {
                        log_dir: get_log_dir(&data_dir),
                        info_file: get_info_file(&data_dir),
                        id,
                        timeout,
                    },
                )
            },
        },
        LaunchState::Launched { id } => (LaunchState::Launched { id }, LaunchAction::Nothing),
        LaunchState::Failed => (LaunchState::Failed, LaunchAction::Nothing),
    }
}

/// A launch that finds its hook tells to write the record of a running
/// instance, with exactly those of the given variables whose keys the hook
/// allows; leaving the others out is no error.
pub proof fn lemma_launch_of_configured_hook(
    id: u128,
    request: RequestView,
    vars: Map<Seq<char>, Seq<char>>,
    name: Seq<char>,
    hooks: Map<Seq<char>, Hook>,
    started: Timestamp,
)
    requires
        hooks.contains_key(name),
    ensures
        spec_launch_step(spec_begin(id, request, vars, name).0, LaunchEvent::Done, hooks, started).1
            matches LaunchActionView::WriteInfo { file, info } && {
            &&& file == hook_info_file(id)
            &&& info.running
            &&& info.finished is None
            &&& info.success is None
            &&& info.is_consistent()
            &&& info.started == started
            &&& info.request == request
            &&& info.config == hooks[name]@
            &&& info.vars matches Some(kept) && kept.dom() == vars.dom().intersect(
                hooks[name]@.allowed_keys.to_set(),
            ) && forall|key: Seq<char>| #[trigger] kept.contains_key(key) ==> kept[key] == vars[key]
        },
{
    let allowed = hooks[name]@.allowed_keys.to_set();
    assert(vars.restrict(allowed).dom() =~= vars.dom().intersect(allowed));
}

/// A launch under a name that no hook bears ends with `NotFound`, and
/// neither a record is written nor a process spawned.
pub proof fn lemma_launch_of_unknown_hook(
    id: u128,
    request: RequestView,
    vars: Map<Seq<char>, Seq<char>>,
    name: Seq<char>,
    hooks: Map<Seq<char>, Hook>,
    started: Timestamp,
    later: LaunchEvent,
)
    requires
        !hooks.contains_key(name),
    ensures
        ({
            let first = spec_launch_step(
                spec_begin(id, request, vars, name).0,
                LaunchEvent::Done,
                hooks,
                started,
            );
            &&& first.0 == LaunchStateView::Failed
            &&& first.1 matches LaunchActionView::Fail { error } && error.status_code() == 404
            &&& spec_launch_step(first.0, later, hooks, started) == (
                LaunchStateView::Failed,
                LaunchActionView::Nothing,
            )
        }),
{
}

/// The steps of a launch keep their order: a process is spawned only once
/// the record of the running instance is written, and it is handed over to
/// be supervised, and the identifier given out, only once it is spawned. A
/// step that fails ends the launch.
pub proof fn lemma_launch_order(
    state: LaunchStateView,
    event: LaunchEvent,
    hooks: Map<Seq<char>, Hook>,
    started: Timestamp,
)
    ensures
        ({
            let (next, action) = spec_launch_step(state, event, hooks, started);
            &&& action is WriteInfo ==> state is CreatingDirs && event == LaunchEvent::Done && next
                is WritingInfo
            &&& action is Spawn ==> state is WritingInfo && event == LaunchEvent::Done && next
                is Spawning
            &&& action is Supervise ==> state is Spawning && event == LaunchEvent::Done && next
                == (LaunchStateView::Launched { id: action->Supervise_id })
            &&& next is WritingInfo ==> (action matches LaunchActionView::WriteInfo { info, .. }
                && info.running && info.is_consistent())
            &&& event == LaunchEvent::Failed && !(state is Launched) ==> next
                == LaunchStateView::Failed
            &&& action is Fail ==> next == LaunchStateView::Failed
            &&& (state is Launched || state is Failed) ==> next == state && action
                == LaunchActionView::Nothing
        }),
{
}

/// The state of a launch after all of `events`, in their order.
pub open spec fn launch_after(
    state: LaunchStateView,
    events: Seq<LaunchEvent>,
    hooks: Map<Seq<char>, Hook>,
    started: Timestamp,
) -> LaunchStateView
    decreases events.len(),
{
    if events.len() == 0 {
        state
    } else {
        spec_launch_step(
            launch_after(state, events.drop_last(), hooks, started),
            events.last(),
            hooks,
            started,
        ).0
    }
}

/// How often a launch has answered while `events` happened: told to hand
/// the process over and give out the identifier, or told to fail.
pub open spec fn answers(
    state: LaunchStateView,
    events: Seq<LaunchEvent>,
    hooks: Map<Seq<char>, Hook>,
    started: Timestamp,
) -> nat
    decreases events.len(),
{
    if events.len() == 0 {
        0
    } else {
        let earlier = answers(state, events.drop_last(), hooks, started);
        let action = spec_launch_step(
            launch_after(state, events.drop_last(), hooks, started),
            events.last(),
            hooks,
            started,
        ).1;
        if action is Supervise || action is Fail {
            earlier + 1
        } else {
            earlier
        }
    }
}

/// How many steps a launch in this state is away from its answer, at most.
pub open spec fn steps_left(state: LaunchStateView) -> nat {
    match state {
        LaunchStateView::CreatingDirs { .. } => 3,
        LaunchStateView::WritingInfo { .. } => 2,
        LaunchStateView::Spawning { .. } => 1,
        LaunchStateView::Launched { .. } => 0,
        LaunchStateView::Failed => 0,
    }
}

/// The instance that a launch in this state is about.
pub open spec fn instance_of(state: LaunchStateView) -> Option<u128> {
    match state {
        LaunchStateView::CreatingDirs { id, .. } => Some(id),
        LaunchStateView::WritingInfo { id, .. } => Some(id),
        LaunchStateView::Spawning { id, .. } => Some(id),
        LaunchStateView::Launched { id } => Some(id),
        LaunchStateView::Failed => None,
    }
}

/// A launch answers once: never twice, and with its third step at the
/// latest. It has answered exactly when it is over, and until it fails it
/// is about the instance it began with.
pub proof fn lemma_launch_answers_once(
    id: u128,
    request: RequestView,
    vars: Map<Seq<char>, Seq<char>>,
    name: Seq<char>,
    events: Seq<LaunchEvent>,
    hooks: Map<Seq<char>, Hook>,
    started: Timestamp,
)
    ensures
        ({
            let begin = spec_begin(id, request, vars, name).0;
            let end = launch_after(begin, events, hooks, started);
            let answered = answers(begin, events, hooks, started);
            &&& answered <= 1
            &&& answered == 1 <==> end is Launched || end is Failed
            &&& answered == 0 ==> steps_left(end) + events.len() == 3
            &&& events.len() >= 3 ==> answered == 1
            &&& end is Failed || instance_of(end) == Some(id)
        }),
    decreases events.len(),
{
    if events.len() > 0 {
        lemma_launch_answers_once(id, request, vars, name, events.drop_last(), hooks, started);
    }
}

/// What it takes to supervise a spawned hook. Paths are directory names
/// below the data directory.
#[derive(Debug, PartialEq, Eq)]
pub struct Supervision {
    /// The file that standard output is copied to.
    pub stdout_file: Vec<String>,
    /// The file that standard error is copied to.
    pub stderr_file: Vec<String>,
    /// The file of the status record.
    pub info_file: Vec<String>,
    /// The instance.
    pub id: u128,
    /// How long to wait for the process to end before it is killed.
    pub timeout: Duration,
    /// What is known of the process at the start.
    pub state: Supervisor,
}

/// What a `Supervision` holds, as plain values.
pub struct SupervisionView {
    pub stdout_file: Seq<Seq<char>>,
    pub stderr_file: Seq<Seq<char>>,
    pub info_file: Seq<Seq<char>>,
    pub id: u128,
    pub timeout: Duration,
    pub state: Supervisor,
}

impl View for Supervision {
    type V = SupervisionView;

    open spec fn view(&self) -> SupervisionView {
        SupervisionView {
            stdout_file: self.stdout_file.deep_view(),
            stderr_file: self.stderr_file.deep_view(),
            info_file: self.info_file.deep_view(),
            id: self.id,
            timeout: self.timeout,
            state: self.state,
        }
    }
}

/// What is said of a process whose stream `stream` cannot be had.
pub open spec fn no_stream_text(stream: Seq<char>, id: u128) -> Seq<char> {
    "Couldn't take "@ + stream + " of instance "@ + hyphenated_text(id)
}

/// The error for a process of instance `id` whose stream `stream` cannot be
/// had.
fn no_stream(stream: &str, id: u128) -> (error: ApiError)
    ensures
        error@ == ApiErrorView::InternalServerError(no_stream_text(stream@, id)),
{
    let id_string = hyphenated(id);
    ApiError::InternalServerError(
        String::from_str("Couldn't take ").concat(stream).concat(" of instance ").concat(
            id_string.as_str(),
        ),
    )
}

/// Handles the newly spawned hook instance
///
/// Given whether the output streams of the process can be had, this says
/// where they are to be copied to and how the process is to be watched: its
/// exit awaited within `timeout`, and the info file brought to its end once
/// the process has ended and both streams are copied.
pub fn handle_instance(
    has_stdout: bool,
    has_stderr: bool,
    log_path: &Vec<String>,
    info_path: Vec<String>,
    id: u128,
    timeout: Duration,
) -> (supervision: Result<Supervision, ApiError>)
    ensures
        match supervision {
            Ok(plan) => has_stdout && has_stderr && plan@ == (SupervisionView {
                stdout_file: log_path.deep_view().push("stdout"@ + ".txt"@),
                stderr_file: log_path.deep_view().push("stderr"@ + ".txt"@),
                info_file: info_path.deep_view(),
                id,
                timeout,
                state: Supervisor::spec_new(),
            }),
            Err(error) => if !has_stdout {
                error@ == ApiErrorView::InternalServerError(no_stream_text("stdout"@, id))
            } else {
                !has_stderr && error@ == ApiErrorView::InternalServerError(
                    no_stream_text("stderr"@, id),
                )
            },
        },
{
    let stdout_path = get_log_file(log_path, "stdout");
    let stderr_path = get_log_file(log_path, "stderr");
    if !has_stdout {
        return Err(no_stream("stdout", id));
    }
    if !has_stderr {
        return Err(no_stream("stderr", id));
    }
    Ok(
        Supervision {
            stdout_file: stdout_path,
            stderr_file: stderr_path,
            info_file: info_path,
            id,
            timeout,
            state: Supervisor::new(),
        },
    )
}

/// What is said of a status record that cannot be opened, or cannot be read,
/// when it is to be brought to its end.
pub open spec fn no_info_text(what: Seq<char>, id: u128) -> Seq<char> {
    "Couldn't "@ + what + " info file for instance "@ + hyphenated_text(id)
}

/// The error for a status record of instance `id` that cannot be opened, or
/// cannot be read.
fn no_info(what: &str, id: u128) -> (error: ApiError)
    ensures
        error@ == ApiErrorView::InternalServerError(no_info_text(what@, id)),
{
    let id_string = hyphenated(id);
    ApiError::InternalServerError(
        String::from_str("Couldn't ").concat(what).concat(" info file for instance ").concat(
            id_string.as_str(),
        ),
    )
}

/// The status record that takes the place of `record` once the instance
/// has ended at `finished`: the record that was found, brought to its end.
/// Where none was found, or none that can be read, there is none to write.
pub open spec fn spec_completed(
    id: u128,
    record: StatusRecord,
    success: bool,
    finished: Timestamp,
) -> Result<InfoView, ApiErrorView> {
    match record {
        StatusRecord::Missing => Err(ApiErrorView::InternalServerError(no_info_text("open"@, id))),
        StatusRecord::Unreadable => Err(
            ApiErrorView::InternalServerError(no_info_text("read"@, id)),
        ),
        StatusRecord::Malformed => Err(
            ApiErrorView::InternalServerError(malformed_status_text(id)),
        ),
        StatusRecord::Parsed(info) => Ok(info@.finish(success, finished)),
    }
}

/// An outcome with the record or the error as plain values.
pub open spec fn info_view(outcome: Result<Info, ApiError>) -> Result<InfoView, ApiErrorView> {
    match outcome {
        Ok(info) => Ok(info@),
        Err(error) => Err(error@),
    }
}

/// Brings the status record of an instance that has ended at `finished` to
/// its end.
pub fn complete_hook_info(id: u128, record: StatusRecord, success: bool, finished: Timestamp) -> (updated:
    Result<Info, ApiError>)
    ensures
        info_view(updated) == spec_completed(id, record, success, finished),
{
    match record {
        StatusRecord::Missing => Err(no_info("open", id)),
        StatusRecord::Unreadable => Err(no_info("read", id)),
        StatusRecord::Malformed => {
            let id_string = hyphenated(id);
            Err(
                ApiError::InternalServerError(
                    String::from_str("Couldn't parse json info for instance ").concat(
                        id_string.as_str(),
                    ),
                ),
            )
        },
        StatusRecord::Parsed(info) => Ok(info.finish(success, finished)),
    }
}

/// A status record that is brought to its end shows an instance that has
/// ended, with the outcome and the end it was given; the rest of the record
/// stays as it was. The end is not before the start unless the clock has
/// gone back in between.
pub proof fn lemma_completed_is_terminal(id: u128, info: Info, success: bool, finished: Timestamp)
    ensures
        spec_completed(id, StatusRecord::Parsed(info), success, finished) matches Ok(record) && {
            &&& !record.running
            &&& record.success == Some(success)
            &&& record.finished == Some(finished)
            &&& record.is_consistent()
            &&& record.started == info@.started
            &&& record.request == info@.request
            &&& record.config == info@.config
            &&& record.vars == info@.vars
            &&& finished.spec_not_before(info@.started) ==> record.finished->0.spec_not_before(
                record.started,
            )
        },
{
}

/// After a process has ended by itself, its status record is brought to its
/// end with the outcome of the exit.
///
/// Once the exit and the ends of both streams have been reported, in
/// whatever order, the record has been told once to be brought to its end;
/// the record written then shows the instance as no longer running, and as
/// successful exactly if the process ended with success.
pub proof fn lemma_exit_ends_the_record(
    events: Seq<SupervisorEvent>,
    success: bool,
    id: u128,
    info: Info,
    finished: Timestamp,
)
    requires
        events.filter(|e| of_process(e)) == seq![SupervisorEvent::Exited { success }],
        events.contains(SupervisorEvent::StdoutClosed),
        events.contains(SupervisorEvent::StderrClosed),
    ensures
        Supervisor::spec_new().outcomes(events) == seq![success],
        spec_completed(id, StatusRecord::Parsed(info), success, finished) matches Ok(record)
            && !record.running && record.success == Some(success) && record.finished == Some(
            finished,
        ),
{
    lemma_exit_is_recorded(events, success);
}

/// After a process has run into its timeout, it is killed, and its status
/// record is still brought to its end.
///
/// The timeout is answered by killing the process, and the kill by waiting
/// for its exit. Once that exit and the ends of both streams have been
/// reported, in whatever order, the record has been told once to be brought
/// to its end; the record written then shows the instance as no longer
/// running, with the outcome of that exit.
pub proof fn lemma_timeout_ends_the_record(
    events: Seq<SupervisorEvent>,
    success: bool,
    id: u128,
    info: Info,
    finished: Timestamp,
)
    requires
        events.filter(|e| of_process(e)) == seq![
            SupervisorEvent::TimedOut,
            SupervisorEvent::Killed,
            SupervisorEvent::Exited { success },
        ],
        events.contains(SupervisorEvent::StdoutClosed),
        events.contains(SupervisorEvent::StderrClosed),
    ensures
        Supervisor::spec_new().spec_step(SupervisorEvent::TimedOut).1 == SupervisorAction::Kill,
        Supervisor::spec_new().outcomes(events) == seq![success],
        spec_completed(id, StatusRecord::Parsed(info), success, finished) matches Ok(record)
            && !record.running && record.success == Some(success) && record.finished == Some(
            finished,
        ),
{
    lemma_timeout_is_recorded(events, success);
}

/// Updates the info of a hook after the instance completed: given what was
/// found of its status record, makes the record that is to be written in
/// its place, with this moment as the end
pub fn update_hook_info_upon_completion(id: u128, record: StatusRecord, success: bool) -> (updated:
    Result<Info, ApiError>)
    ensures
        match updated {
            Ok(info) => info.finished matches Some(finished) && info_view(updated)
                == spec_completed(id, record, success, finished),
            Err(_) => !(record is Parsed) && forall|finished: Timestamp|
                info_view(updated) == spec_completed(id, record, success, finished),
        },
{
    let now = utc_now();
    complete_hook_info(id, record, success, now)
}

} // verus!
