//! The worker of a run: what it does with each command, tick and end of queue.
//!
//! The worker owns the buffers of one run. It is driven from outside: whoever
//! runs it hands it one event at a time, with the current time, and carries out
//! the actions that it answers with, in their order. The worker itself touches
//! no file and waits for nothing.

use vstd::prelude::*;
use vstd::string::{StrSliceExecFns, StringExecFns};
use crate::clock::{log_time_text, log_time_to_text};
use crate::document::entries_view;
use crate::models::{
    ExperimentConfig, ExperimentMetadata, LogLevel, MetricRow, MetricRowView, RunMetadata,
    RunStatus, join_path, rows_view, spec_join_path,
};
use crate::table::strings_view;

verus! {

/// Number of buffered log lines at which they are written out.
pub const LOG_FLUSH_LINES: usize = 20;

/// What a caller can ask of the worker.
pub enum LogCommand {
    /// Log a row of metrics.
    Metric(MetricRow),
    /// Overlay parameters on the run's parameter document.
    Params(Vec<(String, serde_yaml::Value)>),
    /// Copy a file into the run's artifact directory, under the path given.
    Artifact(String),
    /// Add a line to the run's text log.
    Log { level: LogLevel, message: String },
    /// Write out everything buffered, then acknowledge.
    Flush,
    /// Write out everything buffered, record the final status, acknowledge, stop.
    Shutdown { status: RunStatus },
}

/// What can happen to the worker.
pub enum Event {
    /// A command arrived.
    Command(LogCommand),
    /// The queue was closed: no command will arrive any more.
    Closed,
    /// The flush interval has passed.
    Tick,
}

/// What the worker asks to be done.
pub enum Action {
    /// Append these rows to the metric file.
    WriteMetrics(Vec<MetricRow>),
    /// Append these lines to the text log.
    WriteLogLines(Vec<String>),
    /// Overlay these parameters on the parameter document.
    MergeParams(Vec<(String, serde_yaml::Value)>),
    /// Copy this file into the artifact directory.
    CopyArtifact(String),
    /// Tell the caller of `Flush` that everything before it is written.
    AckFlush,
    /// Record status, time of finishing and duration in the run's metadata.
    Finish { status: RunStatus, finished_at: i64, duration_ms: i64 },
    /// Tell the caller of `Shutdown` that the run is closed.
    AckShutdown,
}

/// A command as the contracts see it.
pub enum LogCommandView {
    Metric(MetricRowView),
    Params(Seq<(Seq<char>, serde_yaml::Value)>),
    Artifact(Seq<char>),
    Log { level: LogLevel, message: Seq<char> },
    Flush,
    Shutdown { status: RunStatus },
}

impl View for LogCommand {
    type V = LogCommandView;

    open spec fn view(&self) -> LogCommandView {
        match self {
            LogCommand::Metric(row) => LogCommandView::Metric(row@),
            LogCommand::Params(params) => LogCommandView::Params(entries_view(params@)),
            LogCommand::Artifact(path) => LogCommandView::Artifact(path@),
            LogCommand::Log { level, message } => LogCommandView::Log { level: *level, message: message@ },
            LogCommand::Flush => LogCommandView::Flush,
            LogCommand::Shutdown { status } => LogCommandView::Shutdown { status: *status },
        }
    }
}

/// An event as the contracts see it.
pub enum EventView {
    Command(LogCommandView),
    Closed,
    Tick,
}

impl View for Event {
    type V = EventView;

    open spec fn view(&self) -> EventView {
        match self {
            Event::Command(command) => EventView::Command(command@),
            Event::Closed => EventView::Closed,
            Event::Tick => EventView::Tick,
        }
    }
}

/// An action as the contracts see it.
pub enum ActionView {
    WriteMetrics(Seq<MetricRowView>),
    WriteLogLines(Seq<Seq<char>>),
    MergeParams(Seq<(Seq<char>, serde_yaml::Value)>),
    CopyArtifact(Seq<char>),
    AckFlush,
    Finish { status: RunStatus, finished_at: i64, duration_ms: i64 },
    AckShutdown,
}

impl View for Action {
    type V = ActionView;

    open spec fn view(&self) -> ActionView {
        match self {
            Action::WriteMetrics(rows) => ActionView::WriteMetrics(rows_view(rows@)),
            Action::WriteLogLines(lines) => ActionView::WriteLogLines(strings_view(lines@)),
            Action::MergeParams(params) => ActionView::MergeParams(entries_view(params@)),
            Action::CopyArtifact(path) => ActionView::CopyArtifact(path@),
            Action::AckFlush => ActionView::AckFlush,
            Action::Finish { status, finished_at, duration_ms } => ActionView::Finish {
                status: *status,
                finished_at: *finished_at,
                duration_ms: *duration_ms,
            },
            Action::AckShutdown => ActionView::AckShutdown,
        }
    }
}

/// The contract-level content of a list of actions.
pub open spec fn actions_view(actions: Seq<Action>) -> Seq<ActionView> {
    Seq::new(actions.len(), |i: int| actions[i]@)
}

/// A line of the text log, put together from its parts:
/// `[<time>] [<LEVEL>] <message>`.
pub open spec fn line_of(time: Seq<char>, level: LogLevel, message: Seq<char>) -> Seq<char> {
    seq!['['] + time + seq![']', ' ', '['] + level.spec_label() + seq![']', ' '] + message
}

/// The time that a log line bears: that of the instant, and that of the epoch
/// for an instant out of the calendar's range.
pub open spec fn shown_log_time(now: i64) -> Seq<char> {
    match log_time_text(now) {
        Some(text) => text,
        None => "1970-01-01T00:00:00.000Z"@,
    }
}

/// The line of the text log for a message received at `now`.
pub open spec fn log_line(now: i64, level: LogLevel, message: Seq<char>) -> Seq<char> {
    line_of(shown_log_time(now), level, message)
}

/// Puts a line of the text log together from the text of its time, its level
/// and its message.
pub fn compose_log_line(time: &str, level: LogLevel, message: &str) -> (r: String)
    ensures
        r@ == line_of(time@, level, message@),
{
    proof {
        reveal_strlit("[");
        reveal_strlit("] [");
        reveal_strlit("] ");
    }
    let mut out = "[".to_owned();
    out.append(time);
    out.append("] [");
    out.append(level.label());
    out.append("] ");
    out.append(message);
    assert(out@ =~= line_of(time@, level, message@));
    out
}

/// Formats a line of the text log for a message received at `now`.
pub fn format_log_line(now: i64, level: LogLevel, message: &str) -> (r: String)
    ensures
        r@ == log_line(now, level, message@),
{
    match log_time_to_text(now) {
        Some(time) => compose_log_line(time.as_str(), level, message),
        None => compose_log_line("1970-01-01T00:00:00.000Z", level, message),
    }
}

/// The lines as they are appended to the log file: each followed by a line feed.
pub open spec fn log_block(lines: Seq<Seq<char>>) -> Seq<char>
    decreases lines.len(),
{
    if lines.len() == 0 {
        Seq::empty()
    } else {
        log_block(lines.drop_last()) + lines.last() + seq!['\n']
    }
}

/// The text to append to the log file for buffered lines.
pub fn render_log_lines(lines: &Vec<String>) -> (r: String)
    ensures
        r@ == log_block(strings_view(lines@)),
{
    proof {
        reveal_strlit("\n");
    }
    let ghost all = strings_view(lines@);
    let mut out = String::new();
    let mut i: usize = 0;
    assert(all.take(0) =~= Seq::empty());
    while i < lines.len()
        invariant
            i <= lines.len(),
            all == strings_view(lines@),
            out@ == log_block(all.take(i as int)),
            "\n"@ == seq!['\n'],
        decreases lines.len() - i,
    {
        assert(all.take(i + 1).drop_last() =~= all.take(i as int));
        assert(all.take(i + 1).last() == lines@[i as int]@);
        out.append(lines[i].as_str());
        out.append("\n");
        i += 1;
    }
    assert(all.take(i as int) =~= all);
    out
}

/// Whole milliseconds between two instants given in microseconds, rounded
/// towards zero.
pub open spec fn elapsed_ms(started_at: i64, now: i64) -> int {
    let d = now - started_at;
    if d >= 0 {
        d / 1000
    } else {
        -((-d) / 1000)
    }
}

/// Whole milliseconds from `started_at` to `now`, both in microseconds.
pub fn elapsed_millis(started_at: i64, now: i64) -> (r: i64)
    ensures
        r == elapsed_ms(started_at, now),
{
    let d: i128 = now as i128 - started_at as i128;
    if d >= 0 {
        (d / 1000) as i64
    } else {
        let back: i128 = (-d) / 1000;
        (-back) as i64
    }
}

/// The state of a worker as the contracts see it.
pub struct WorkerView {
    /// Rows that are logged and not yet handed out for writing.
    pub buffer: Seq<MetricRowView>,
    /// Log lines that are formatted and not yet handed out for writing.
    pub lines: Seq<Seq<char>>,
    /// Number of buffered rows at which they are handed out.
    pub flush_rows: nat,
    /// When the worker was started, in microseconds since the Unix epoch.
    pub started_at: i64,
    /// Whether the worker has stopped.
    pub stopped: bool,
}

/// The worker of one run.
pub struct Worker {
    buffer: Vec<MetricRow>,
    lines: Vec<String>,
    flush_rows: usize,
    started_at: i64,
    stopped: bool,
}

impl View for Worker {
    type V = WorkerView;

    closed spec fn view(&self) -> WorkerView {
        WorkerView {
            buffer: rows_view(self.buffer@),
            lines: strings_view(self.lines@),
            flush_rows: self.flush_rows as nat,
            started_at: self.started_at,
            stopped: self.stopped,
        }
    }
}

/// The actions that write out the buffers: the rows if there are any, then the
/// lines if there are any.
pub open spec fn flush_actions(state: WorkerView) -> Seq<ActionView> {
    (if state.buffer.len() > 0 {
        seq![ActionView::WriteMetrics(state.buffer)]
    } else {
        Seq::empty()
    }) + (if state.lines.len() > 0 {
        seq![ActionView::WriteLogLines(state.lines)]
    } else {
        Seq::empty()
    })
}

/// The state with both buffers empty.
pub open spec fn flushed(state: WorkerView) -> WorkerView {
    WorkerView { buffer: Seq::empty(), lines: Seq::empty(), ..state }
}

/// The state after an event that arrives at `now`.
pub open spec fn next_state(state: WorkerView, event: EventView, now: i64) -> WorkerView {
    if state.stopped {
        state
    } else {
        match event {
            EventView::Command(LogCommandView::Metric(row)) => {
                let buffer = state.buffer.push(row);
                if buffer.len() >= state.flush_rows {
                    WorkerView { buffer: Seq::empty(), ..state }
                } else {
                    WorkerView { buffer, ..state }
                }
            },
            EventView::Command(LogCommandView::Log { level, message }) => {
                let lines = state.lines.push(log_line(now, level, message));
                if lines.len() >= LOG_FLUSH_LINES {
                    WorkerView { lines: Seq::empty(), ..state }
                } else {
                    WorkerView { lines, ..state }
                }
            },
            EventView::Command(LogCommandView::Params(_)) => state,
            EventView::Command(LogCommandView::Artifact(_)) => state,
            EventView::Command(LogCommandView::Flush) => flushed(state),
            EventView::Command(LogCommandView::Shutdown { status }) => WorkerView {
                stopped: true,
                ..flushed(state)
            },
            EventView::Closed => WorkerView { stopped: true, ..flushed(state) },
            EventView::Tick => flushed(state),
        }
    }
}

/// The actions that an event that arrives at `now` calls for, in their order.
pub open spec fn next_actions(state: WorkerView, event: EventView, now: i64) -> Seq<ActionView> {
    if state.stopped {
        Seq::empty()
    } else {
        match event {
            EventView::Command(LogCommandView::Metric(row)) => {
                let buffer = state.buffer.push(row);
                if buffer.len() >= state.flush_rows {
                    seq![ActionView::WriteMetrics(buffer)]
                } else {
                    Seq::empty()
                }
            },
            EventView::Command(LogCommandView::Log { level, message }) => {
                let lines = state.lines.push(log_line(now, level, message));
                if lines.len() >= LOG_FLUSH_LINES {
                    seq![ActionView::WriteLogLines(lines)]
                } else {
                    Seq::empty()
                }
            },
            EventView::Command(LogCommandView::Params(params)) => seq![ActionView::MergeParams(params)],
            EventView::Command(LogCommandView::Artifact(path)) => seq![ActionView::CopyArtifact(path)],
            EventView::Command(LogCommandView::Flush) => flush_actions(state).push(ActionView::AckFlush),
            EventView::Command(LogCommandView::Shutdown { status }) => flush_actions(state).push(
                ActionView::Finish {
                    status,
                    finished_at: now,
                    duration_ms: elapsed_ms(state.started_at, now) as i64,
                },
            ).push(ActionView::AckShutdown),
            EventView::Closed => flush_actions(state),
            EventView::Tick => flush_actions(state),
        }
    }
}

impl Worker {
    /// A running worker with empty buffers.
    pub fn new(flush_interval_rows: usize, started_at: i64) -> (w: Worker)
        ensures
            w@ == (WorkerView {
                buffer: Seq::empty(),
                lines: Seq::empty(),
                flush_rows: flush_interval_rows as nat,
                started_at,
                stopped: false,
            }),
    {
        let w = Worker {
            buffer: Vec::new(),
            lines: Vec::new(),
            flush_rows: flush_interval_rows,
            started_at,
            stopped: false,
        };
        assert(w@.buffer =~= Seq::empty());
        assert(w@.lines =~= Seq::empty());
        w
    }

    /// Whether the worker has stopped. A stopped worker ignores every event.
    pub fn is_stopped(&self) -> (r: bool)
        ensures
            r == self@.stopped,
    {
        self.stopped
    }

    /// Number of rows that wait in the buffer.
    pub fn buffered_rows(&self) -> (r: usize)
        ensures
            r == self@.buffer.len(),
    {
        self.buffer.len()
    }

    /// Number of log lines that wait in the buffer.
    pub fn buffered_lines(&self) -> (r: usize)
        ensures
            r == self@.lines.len(),
    {
        self.lines.len()
    }

    /// Appends to `actions` what writes out the buffers, and empties them.
    fn flush_into(&mut self, actions: &mut Vec<Action>)
        ensures
            final(self)@ == flushed(old(self)@),
            actions_view(final(actions)@) == actions_view(old(actions)@) + flush_actions(old(self)@),
    {
        let ghost before = actions_view(actions@);
        if self.buffer.len() > 0 {
            let mut rows: Vec<MetricRow> = Vec::new();
            std::mem::swap(&mut self.buffer, &mut rows);
            actions.push(Action::WriteMetrics(rows));
            assert(actions_view(actions@) =~= before.push(ActionView::WriteMetrics(old(self)@.buffer)));
        }
        let ghost middle = actions_view(actions@);
        if self.lines.len() > 0 {
            let mut lines: Vec<String> = Vec::new();
            std::mem::swap(&mut self.lines, &mut lines);
            actions.push(Action::WriteLogLines(lines));
            assert(actions_view(actions@) =~= middle.push(ActionView::WriteLogLines(old(self)@.lines)));
        }
        assert(self@.buffer =~= Seq::empty());
        assert(self@.lines =~= Seq::empty());
        assert(actions_view(actions@) =~= before + flush_actions(old(self)@));
    }

    /// Takes one event, which arrives at `now`, and answers with the actions to
    /// carry out, in their order.
    ///
    /// A row is buffered and the buffer handed out once it holds as many rows
    /// as the threshold asks; a log line likewise, at twenty lines. Parameters
    /// and artifacts are passed on at once. A flush, a tick and the end of the
    /// queue hand out whatever is buffered; a shutdown does so too and then
    /// has the final status recorded. After a shutdown or the end of the queue
    /// the worker has stopped and answers nothing.
    pub fn handle(&mut self, event: Event, now: i64) -> (actions: Vec<Action>)
        ensures
            final(self)@ == next_state(old(self)@, event@, now),
            actions_view(actions@) == next_actions(old(self)@, event@, now),
    {
        let mut actions: Vec<Action> = Vec::new();
        assert(actions_view(actions@) =~= Seq::empty());
        if self.stopped {
            return actions;
        }
        match event {
            Event::Command(LogCommand::Metric(row)) => {
                self.buffer.push(row);
                assert(rows_view(self.buffer@) =~= old(self)@.buffer.push(row@));
                if self.buffer.len() >= self.flush_rows {
                    let mut rows: Vec<MetricRow> = Vec::new();
                    std::mem::swap(&mut self.buffer, &mut rows);
                    actions.push(Action::WriteMetrics(rows));
                    assert(self@.buffer =~= Seq::empty());
                    assert(actions_view(actions@) =~= seq![
                        ActionView::WriteMetrics(old(self)@.buffer.push(row@)),
                    ]);
                }
            },
            Event::Command(LogCommand::Log { level, message }) => {
                let line = format_log_line(now, level, message.as_str());
                self.lines.push(line);
                assert(strings_view(self.lines@) =~= old(self)@.lines.push(log_line(now, level, message@)));
                if self.lines.len() >= LOG_FLUSH_LINES {
                    let mut lines: Vec<String> = Vec::new();
                    std::mem::swap(&mut self.lines, &mut lines);
                    actions.push(Action::WriteLogLines(lines));
                    assert(self@.lines =~= Seq::empty());
                    assert(actions_view(actions@) =~= seq![
                        ActionView::WriteLogLines(old(self)@.lines.push(log_line(now, level, message@))),
                    ]);
                }
            },
            Event::Command(LogCommand::Params(params)) => {
                actions.push(Action::MergeParams(params));
                assert(actions_view(actions@) =~= seq![ActionView::MergeParams(entries_view(params@))]);
            },
            Event::Command(LogCommand::Artifact(path)) => {
                actions.push(Action::CopyArtifact(path));
                assert(actions_view(actions@) =~= seq![ActionView::CopyArtifact(path@)]);
            },
            Event::Command(LogCommand::Flush) => {
                self.flush_into(&mut actions);
                let ghost before = actions_view(actions@);
                actions.push(Action::AckFlush);
                assert(actions_view(actions@) =~= before.push(ActionView::AckFlush));
            },
            Event::Command(LogCommand::Shutdown { status }) => {
                self.flush_into(&mut actions);
                let ghost before = actions_view(actions@);
                let duration_ms: i64 = elapsed_millis(self.started_at, now);
                actions.push(Action::Finish { status, finished_at: now, duration_ms });
                actions.push(Action::AckShutdown);
                self.stopped = true;
                assert(actions_view(actions@) =~= before.push(
                    ActionView::Finish { status, finished_at: now, duration_ms },
                ).push(ActionView::AckShutdown));
            },
            Event::Closed => {
                self.flush_into(&mut actions);
                self.stopped = true;
            },
            Event::Tick => {
                self.flush_into(&mut actions);
            },
        }
        actions
    }
}

/// Seconds that `close` waits for the worker's acknowledgement before it
/// returns without one.
pub const CLOSE_TIMEOUT_SECS: u64 = 5;

/// The files and directories of one run.
pub struct RunPaths {
    /// `<base>/<experiment>`
    pub experiment_dir: String,
    /// `<base>/<experiment>/experiment.yaml`
    pub experiment_metadata: String,
    /// `<base>/<experiment>/<run>`
    pub run_dir: String,
    /// `<run>/artifacts`
    pub artifacts_dir: String,
    /// `<run>/run.yaml`
    pub metadata: String,
    /// `<run>/config.yaml`
    pub config: String,
    /// `<run>/metrics.parquet`
    pub metrics: String,
    /// `<run>/run.log`
    pub log: String,
}

/// Where the files and directories of a run lie.
pub fn run_paths(config: &ExperimentConfig) -> (p: RunPaths)
    ensures
        p.experiment_dir@ == config.spec_experiment_dir(),
        p.experiment_metadata@ == spec_join_path(config.spec_experiment_dir(), "experiment.yaml"@),
        p.run_dir@ == config.spec_run_dir(),
        p.artifacts_dir@ == spec_join_path(config.spec_run_dir(), "artifacts"@),
        p.metadata@ == spec_join_path(config.spec_run_dir(), "run.yaml"@),
        p.config@ == spec_join_path(config.spec_run_dir(), "config.yaml"@),
        p.metrics@ == spec_join_path(config.spec_run_dir(), "metrics.parquet"@),
        p.log@ == spec_join_path(config.spec_run_dir(), "run.log"@),
{
    let experiment_dir = config.experiment_dir();
    let run_dir = config.run_dir();
    RunPaths {
        experiment_metadata: join_path(experiment_dir.as_str(), "experiment.yaml"),
        artifacts_dir: join_path(run_dir.as_str(), "artifacts"),
        metadata: join_path(run_dir.as_str(), "run.yaml"),
        config: join_path(run_dir.as_str(), "config.yaml"),
        metrics: join_path(run_dir.as_str(), "metrics.parquet"),
        log: join_path(run_dir.as_str(), "run.log"),
        experiment_dir,
        run_dir,
    }
}

/// What has to be on disk before a run's worker takes its first command.
pub struct Startup {
    pub paths: RunPaths,
    /// The directories to create, parents included, in this order.
    pub directories: Vec<String>,
    /// The metadata to write to `run.yaml`.
    pub run_metadata: RunMetadata,
    /// The metadata to write to `experiment.yaml`; `None` where that file
    /// exists already and is left as it is.
    pub experiment_metadata: Option<ExperimentMetadata>,
}

/// Plans the start of a run at `now`: the run's directory, its artifact
/// directory and the experiment's directory are created, `run.yaml` is written
/// with status `Running`, and `experiment.yaml` is written with defaults unless
/// the experiment has one.
pub fn plan_startup(config: &ExperimentConfig, now: i64, experiment_has_metadata: bool) -> (s: Startup)
    ensures
        s.paths.run_dir@ == config.spec_run_dir(),
        s.paths.experiment_dir@ == config.spec_experiment_dir(),
        s.paths.metadata@ == spec_join_path(config.spec_run_dir(), "run.yaml"@),
        s.paths.experiment_metadata@ == spec_join_path(config.spec_experiment_dir(), "experiment.yaml"@),
        s.paths.artifacts_dir@ == spec_join_path(config.spec_run_dir(), "artifacts"@),
        s.paths.config@ == spec_join_path(config.spec_run_dir(), "config.yaml"@),
        s.paths.metrics@ == spec_join_path(config.spec_run_dir(), "metrics.parquet"@),
        s.paths.log@ == spec_join_path(config.spec_run_dir(), "run.log"@),
        s.run_metadata.language is None,
        s.run_metadata.env_path is None,
        strings_view(s.directories@) == seq![
            config.spec_run_dir(),
            spec_join_path(config.spec_run_dir(), "artifacts"@),
            config.spec_experiment_dir(),
        ],
        s.run_metadata.name@ == config.run_name@,
        s.run_metadata.experiment@ == config.name@,
        s.run_metadata.status == RunStatus::Running,
        s.run_metadata.started_at == now,
        s.run_metadata.finished_at is None,
        s.run_metadata.duration_ms is None,
        s.run_metadata.description is None,
        s.run_metadata.metrics is None,
        s.experiment_metadata is Some <==> !experiment_has_metadata,
        s.experiment_metadata matches Some(m) ==> m.display_name is None && m.description is None
            && m.tags@.len() == 0,
{
    let paths = run_paths(config);
    let mut directories: Vec<String> = Vec::new();
    directories.push(paths.run_dir.clone());
    directories.push(paths.artifacts_dir.clone());
    directories.push(paths.experiment_dir.clone());
    assert(strings_view(directories@) =~= seq![
        config.spec_run_dir(),
        spec_join_path(config.spec_run_dir(), "artifacts"@),
        config.spec_experiment_dir(),
    ]);
    let experiment_metadata = if experiment_has_metadata {
        None
    } else {
        Some(ExperimentMetadata::default())
    };
    Startup { paths, directories, run_metadata: RunMetadata::started(config, now), experiment_metadata }
}

/// The metadata of a run after it was closed: status, time of finishing and
/// duration are set, everything else stays.
pub fn finish_run(meta: RunMetadata, status: RunStatus, finished_at: i64, duration_ms: i64) -> (r: RunMetadata)
    ensures
        r.status == status,
        r.finished_at == Some(finished_at),
        r.duration_ms == Some(duration_ms),
        r.name == meta.name,
        r.experiment == meta.experiment,
        r.started_at == meta.started_at,
        r.description == meta.description,
        r.metrics == meta.metrics,
        r.language == meta.language,
        r.env_path == meta.env_path,
{
    let mut out = meta;
    out.status = status;
    out.finished_at = Some(finished_at);
    out.duration_ms = Some(duration_ms);
    out
}

/// A path without the separators that it begins with.
pub open spec fn without_root(path: Seq<char>) -> Seq<char>
    decreases path.len(),
{
    if path.len() > 0 && path[0] == '/' {
        without_root(path.drop_first())
    } else {
        path
    }
}

/// How deep below its start a path lies after the segment from `start` to
/// `end`, when it lay `depth` directories below before: a segment `..` goes
/// one up, an empty segment and a segment `.` stay, any other goes one down.
pub open spec fn depth_after(path: Seq<char>, start: int, end: int, depth: int) -> int {
    if end - start == 2 && path[start] == '.' && path[start + 1] == '.' {
        depth - 1
    } else if end == start || (end - start == 1 && path[start] == '.') {
        depth
    } else {
        depth + 1
    }
}

/// Whether a path, read on from position `i` within the segment that began at
/// `start`, `depth` directories below where the path started, comes to lie
/// above where it started.
pub open spec fn leaves_from(path: Seq<char>, i: int, start: int, depth: int) -> bool
    decreases path.len() - i,
{
    if i >= path.len() {
        depth_after(path, start, path.len() as int, depth) < 0
    } else if path[i] == '/' {
        depth_after(path, start, i, depth) < 0 || leaves_from(path, i + 1, i + 1, depth_after(path, start, i, depth))
    } else {
        leaves_from(path, i + 1, start, depth)
    }
}

/// Whether a path leaves the directory that it is put under: read segment by
/// segment, some `..` takes it above where it started. A path such as
/// `a/../b` does not leave, `a/../../b` does.
pub open spec fn leaves(path: Seq<char>) -> bool {
    leaves_from(path, 0, 0, 0)
}

/// Whether a path leaves the directory that it is put under.
pub fn path_leaves(path: &str) -> (r: bool)
    ensures
        r == leaves(path@),
{
    let len: usize = path.unicode_len();
    let mut i: usize = 0;
    let mut start: usize = 0;
    let mut depth: usize = 0;
    while i < len
        invariant
            i <= len,
            len == path@.len(),
            start <= i,
            depth <= start,
            leaves(path@) == leaves_from(path@, i as int, start as int, depth as int),
        decreases len - i,
    {
        if path.get_char(i) == '/' {
            let size: usize = i - start;
            if size == 2 && path.get_char(start) == '.' && path.get_char(start + 1) == '.' {
                if depth == 0 {
                    return true;
                }
                depth = depth - 1;
            } else if size == 0 || (size == 1 && path.get_char(start) == '.') {
            } else {
                depth = depth + 1;
            }
            start = i + 1;
        }
        i += 1;
    }
    let size: usize = len - start;
    size == 2 && path.get_char(start) == '.' && path.get_char(start + 1) == '.' && depth == 0
}

/// Where the copy of an artifact lies: the path that the caller gave, under
/// the artifact directory. The path is taken as a fragment even where it is
/// absolute, so that the destination always lies below the artifact
/// directory.
pub open spec fn destination_of(artifacts_dir: Seq<char>, source: Seq<char>) -> Seq<char> {
    spec_join_path(artifacts_dir, without_root(source))
}

/// Where an artifact is copied to: the path that the caller gave, kept as a
/// fragment below the artifact directory. There is no such place, and no copy
/// is made, only for a path that leaves the directory.
pub fn artifact_destination(artifacts_dir: &str, source: &str) -> (r: Option<String>)
    ensures
        match r {
            Some(destination) => {
                &&& !leaves(source@)
                &&& destination@ == destination_of(artifacts_dir@, source@)
                &&& artifacts_dir@.is_prefix_of(destination@)
            },
            None => leaves(source@),
        },
{
    if path_leaves(source) {
        return None;
    }
    let len: usize = source.unicode_len();
    let mut k: usize = 0;
    assert(source@.skip(0) =~= source@);
    while k < len && source.get_char(k) == '/'
        invariant
            k <= len,
            len == source@.len(),
            without_root(source@) == without_root(source@.skip(k as int)),
        decreases len - k,
    {
        assert(source@.skip(k as int)[0] == source@[k as int]);
        assert(source@.skip(k as int).drop_first() =~= source@.skip(k + 1));
        k += 1;
    }
    assert(k < len ==> source@.skip(k as int)[0] == source@[k as int]);
    let fragment = source.substring_char(k, len);
    assert(fragment@ =~= source@.skip(k as int));
    assert(without_root(source@) == fragment@);
    Some(join_path(artifacts_dir, fragment))
}

} // verus!
