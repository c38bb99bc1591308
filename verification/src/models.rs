//! Data types shared by the metric store, the document store and the worker.

use vstd::prelude::*;
use vstd::string::{StrSliceExecFns, StringExecFns};
use crate::clock::{local_run_stamp, now_micros};
use crate::numbers::{spec_step_to_i64, step_to_i64};

verus! {

/// Severity of a line in the run's text log.
#[derive(Debug, Clone, Copy, PartialEq, Eq, Structural)]
pub enum LogLevel {
    Info,
    Warn,
    Error,
}

impl LogLevel {
    /// The tag written between brackets in a log line.
    pub open spec fn spec_label(self) -> Seq<char> {
        match self {
            LogLevel::Info => "INFO"@,
            LogLevel::Warn => "WARN"@,
            LogLevel::Error => "ERROR"@,
        }
    }

    /// The tag of the level.
    pub fn label(&self) -> (r: &'static str)
        ensures
            r@ == self.spec_label(),
    {
        match self {
            LogLevel::Info => "INFO",
            LogLevel::Warn => "WARN",
            LogLevel::Error => "ERROR",
        }
    }
}

/// Lifecycle status of a run.
#[derive(Debug, Clone, Copy, PartialEq, Eq, Structural)]
pub enum RunStatus {
    Running,
    Finished,
    Failed,
    Crashed,
}

impl RunStatus {
    /// The upper-case word under which the status is stored and shown.
    pub open spec fn spec_label(self) -> Seq<char> {
        match self {
            RunStatus::Running => "RUNNING"@,
            RunStatus::Finished => "FINISHED"@,
            RunStatus::Failed => "FAILED"@,
            RunStatus::Crashed => "CRASHED"@,
        }
    }

    /// The word of the status.
    pub fn label(&self) -> (r: &'static str)
        ensures
            r@ == self.spec_label(),
    {
        match self {
            RunStatus::Running => "RUNNING",
            RunStatus::Finished => "FINISHED",
            RunStatus::Failed => "FAILED",
            RunStatus::Crashed => "CRASHED",
        }
    }

    /// The status as owned text.
    pub fn to_string(&self) -> (r: String)
        ensures
            r@ == self.spec_label(),
    {
        self.label().to_owned()
    }
}

/// Joining of two path fragments with `/`: an absolute `child` stands alone, and
/// no separator is added after an empty `base` or one that already ends in `/`.
pub open spec fn spec_join_path(base: Seq<char>, child: Seq<char>) -> Seq<char> {
    if child.len() > 0 && child[0] == '/' {
        child
    } else if base.len() == 0 || base.last() == '/' {
        base + child
    } else {
        base + seq!['/'] + child
    }
}

/// Appends `child` to the directory `base`.
pub fn join_path(base: &str, child: &str) -> (r: String)
    ensures
        r@ == spec_join_path(base@, child@),
{
    proof {
        reveal_strlit("/");
    }
    let child_len: usize = child.unicode_len();
    if child_len > 0 && child.get_char(0) == '/' {
        return child.to_owned();
    }
    let base_len: usize = base.unicode_len();
    let mut out = base.to_owned();
    if base_len > 0 && base.get_char(base_len - 1) != '/' {
        out.append("/");
        assert("/"@ =~= seq!['/']);
    }
    out.append(child);
    out
}

/// Configuration of a single run. It does not change once a worker was started
/// for it.
#[derive(Debug, Clone)]
pub struct ExperimentConfig {
    /// Name of the experiment.
    pub name: String,
    /// Name of this run.
    pub run_name: String,
    /// Directory under which all experiments lie.
    pub base_dir: String,
    /// Buffered metric rows are written once this many have gathered.
    pub flush_interval_rows: usize,
    /// Buffered rows and log lines are written at least this often, in milliseconds.
    pub flush_interval_ms: u64,
    /// Language of the producing program.
    pub language: String,
    /// Interpreter or environment of the producing program, if known.
    pub env_path: Option<String>,
}

impl ExperimentConfig {
    /// `<base>/<experiment>`
    pub open spec fn spec_experiment_dir(self) -> Seq<char> {
        spec_join_path(self.base_dir@, self.name@)
    }

    /// `<base>/<experiment>/<run>`
    pub open spec fn spec_run_dir(self) -> Seq<char> {
        spec_join_path(self.spec_experiment_dir(), self.run_name@)
    }

    /// A configuration with the default thresholds (50 rows, 500 ms), the language
    /// tag `rust` and a run name taken from the local clock, to the second. Two
    /// runs that are named within the same second get the same name, and with it
    /// the same directory.
    pub fn new(name: String, base_dir: String) -> (r: Self)
        ensures
            r.name@ == name@,
            r.base_dir@ == base_dir@,
            r.flush_interval_rows == 50,
            r.flush_interval_ms == 500,
            r.language@ == "rust"@,
            r.env_path is None,
            r.run_name@.len() >= 15,
    {
        ExperimentConfig {
            name,
            run_name: local_run_stamp(),
            base_dir,
            flush_interval_rows: 50,
            flush_interval_ms: 500,
            language: "rust".to_owned(),
            env_path: None,
        }
    }

    /// The same configuration under another run name.
    pub fn with_run_name(self, run_name: String) -> (r: Self)
        ensures
            r.run_name@ == run_name@,
            r.name == self.name,
            r.base_dir == self.base_dir,
            r.flush_interval_rows == self.flush_interval_rows,
            r.flush_interval_ms == self.flush_interval_ms,
            r.language == self.language,
            r.env_path == self.env_path,
    {
        let mut out = self;
        out.run_name = run_name;
        out
    }

    /// Directory of this run.
    pub fn run_dir(&self) -> (r: String)
        ensures
            r@ == self.spec_run_dir(),
    {
        let exp = join_path(self.base_dir.as_str(), self.name.as_str());
        join_path(exp.as_str(), self.run_name.as_str())
    }

    /// Directory of the experiment that this run belongs to.
    pub fn experiment_dir(&self) -> (r: String)
        ensures
            r@ == self.spec_experiment_dir(),
    {
        join_path(self.base_dir.as_str(), self.name.as_str())
    }
}

/// A metric value as the store's contracts see it.
pub enum MetricValueView {
    Float(u64),
    Int(i64),
    Bool(bool),
    Text(Seq<char>),
}

/// A single metric value.
#[derive(Debug, Clone)]
pub enum MetricValue {
    /// A 64-bit IEEE-754 number, held by its bit pattern.
    Float(u64),
    Int(i64),
    Bool(bool),
    Text(String),
}

impl View for MetricValue {
    type V = MetricValueView;

    open spec fn view(&self) -> MetricValueView {
        match self {
            MetricValue::Float(bits) => MetricValueView::Float(*bits),
            MetricValue::Int(i) => MetricValueView::Int(*i),
            MetricValue::Bool(b) => MetricValueView::Bool(*b),
            MetricValue::Text(s) => MetricValueView::Text(s@),
        }
    }
}

impl From<i64> for MetricValue {
    /// An integer value.
    fn from(v: i64) -> (r: MetricValue)
        ensures
            r@ == MetricValueView::Int(v),
    {
        MetricValue::Int(v)
    }
}

impl vstd::std_specs::convert::FromSpecImpl<i64> for MetricValue {
    open spec fn obeys_from_spec() -> bool {
        true
    }

    open spec fn from_spec(v: i64) -> MetricValue {
        MetricValue::Int(v)
    }
}

impl From<i32> for MetricValue {
    /// An integer value.
    fn from(v: i32) -> (r: MetricValue)
        ensures
            r@ == MetricValueView::Int(v as i64),
    {
        MetricValue::Int(v as i64)
    }
}

impl vstd::std_specs::convert::FromSpecImpl<i32> for MetricValue {
    open spec fn obeys_from_spec() -> bool {
        true
    }

    open spec fn from_spec(v: i32) -> MetricValue {
        MetricValue::Int(v as i64)
    }
}

impl From<usize> for MetricValue {
    /// An integer value: the two's-complement reading of the number.
    fn from(v: usize) -> (r: MetricValue)
        ensures
            r@ == MetricValueView::Int(spec_step_to_i64(v as u64)),
    {
        MetricValue::Int(step_to_i64(v as u64))
    }
}

impl vstd::std_specs::convert::FromSpecImpl<usize> for MetricValue {
    open spec fn obeys_from_spec() -> bool {
        true
    }

    open spec fn from_spec(v: usize) -> MetricValue {
        MetricValue::Int(spec_step_to_i64(v as u64))
    }
}

impl From<bool> for MetricValue {
    /// A truth value.
    fn from(v: bool) -> (r: MetricValue)
        ensures
            r@ == MetricValueView::Bool(v),
    {
        MetricValue::Bool(v)
    }
}

impl vstd::std_specs::convert::FromSpecImpl<bool> for MetricValue {
    open spec fn obeys_from_spec() -> bool {
        true
    }

    open spec fn from_spec(v: bool) -> MetricValue {
        MetricValue::Bool(v)
    }
}

impl From<String> for MetricValue {
    /// A text value.
    fn from(v: String) -> (r: MetricValue)
        ensures
            r@ == MetricValueView::Text(v@),
    {
        MetricValue::Text(v)
    }
}

impl vstd::std_specs::convert::FromSpecImpl<String> for MetricValue {
    open spec fn obeys_from_spec() -> bool {
        true
    }

    open spec fn from_spec(v: String) -> MetricValue {
        MetricValue::Text(v)
    }
}

impl<'a> From<&'a str> for MetricValue {
    /// A text value.
    fn from(v: &'a str) -> (r: MetricValue)
        ensures
            r@ == MetricValueView::Text(v@),
    {
        MetricValue::Text(v.to_owned())
    }
}

impl<'a> vstd::std_specs::convert::FromSpecImpl<&'a str> for MetricValue {
    /// The owned text that the value holds is no function of the slice alone;
    /// what `from` gives is stated on `from` itself, by the view.
    open spec fn obeys_from_spec() -> bool {
        false
    }

    open spec fn from_spec(v: &'a str) -> MetricValue {
        arbitrary()
    }
}

/// A row of metrics as the store's contracts see it.
pub struct MetricRowView {
    pub step: Option<u64>,
    pub timestamp: i64,
    pub values: Seq<(Seq<char>, MetricValueView)>,
}

/// Metrics logged together at one step and time.
#[derive(Debug, Clone)]
pub struct MetricRow {
    /// Sequence number given by the caller, if any.
    pub step: Option<u64>,
    /// Microseconds since the Unix epoch, UTC, taken when the row was made.
    pub timestamp: i64,
    /// Metric names with their values. Where a name occurs twice, the later
    /// entry counts.
    pub values: Vec<(String, MetricValue)>,
}

/// The contract-level content of a list of named values.
pub open spec fn values_view(values: Seq<(String, MetricValue)>) -> Seq<(Seq<char>, MetricValueView)> {
    Seq::new(values.len(), |i: int| (values[i].0@, values[i].1@))
}

impl View for MetricRow {
    type V = MetricRowView;

    open spec fn view(&self) -> MetricRowView {
        MetricRowView {
            step: self.step,
            timestamp: self.timestamp,
            values: values_view(self.values@),
        }
    }
}

/// The contract-level content of a list of rows.
pub open spec fn rows_view(rows: Seq<MetricRow>) -> Seq<MetricRowView> {
    Seq::new(rows.len(), |i: int| rows[i]@)
}

impl MetricRow {
    /// A row with the given values and step, stamped with the current time.
    pub fn new(values: Vec<(String, MetricValue)>, step: Option<u64>) -> (r: Self)
        ensures
            r.step == step,
            r.values == values,
    {
        MetricRow { step, timestamp: now_micros(), values }
    }

    /// A row with the given values and step, stamped with `timestamp`.
    pub fn at(timestamp: i64, values: Vec<(String, MetricValue)>, step: Option<u64>) -> (r: Self)
        ensures
            r.step == step,
            r.timestamp == timestamp,
            r.values == values,
    {
        MetricRow { step, timestamp, values }
    }
}

/// What is recorded about a run beside its metrics.
#[derive(Debug, Clone)]
pub struct RunMetadata {
    pub name: String,
    /// Name of the experiment that the run belongs to.
    pub experiment: String,
    pub status: RunStatus,
    /// Microseconds since the Unix epoch, UTC.
    pub started_at: i64,
    /// Microseconds since the Unix epoch, UTC.
    pub finished_at: Option<i64>,
    /// Wall-clock time that the run took, in milliseconds.
    pub duration_ms: Option<i64>,
    pub description: Option<String>,
    /// Numeric metrics of the last logged row, each held by its IEEE-754 bits.
    pub metrics: Option<Vec<(String, u64)>>,
    pub language: Option<String>,
    pub env_path: Option<String>,
}

impl RunMetadata {
    /// The record that stands for a run whose metadata is missing: status
    /// `Crashed`, started at `now`, every optional field empty.
    pub fn crashed(name: String, experiment: String, now: i64) -> (r: Self)
        ensures
            r.name == name,
            r.experiment == experiment,
            r.status == RunStatus::Crashed,
            r.started_at == now,
            r.finished_at is None,
            r.duration_ms is None,
            r.description is None,
            r.metrics is None,
            r.language is None,
            r.env_path is None,
    {
        RunMetadata {
            name,
            experiment,
            status: RunStatus::Crashed,
            started_at: now,
            finished_at: None,
            duration_ms: None,
            description: None,
            metrics: None,
            language: None,
            env_path: None,
        }
    }

    /// The record written when a worker is started for `config`: status
    /// `Running`, started at `now`.
    pub fn started(config: &ExperimentConfig, now: i64) -> (r: Self)
        ensures
            r.name@ == config.run_name@,
            r.experiment@ == config.name@,
            r.status == RunStatus::Running,
            r.started_at == now,
            r.finished_at is None,
            r.duration_ms is None,
            r.description is None,
            r.metrics is None,
            r.language is None,
            r.env_path is None,
    {
        let mut meta = RunMetadata::crashed(config.run_name.clone(), config.name.clone(), now);
        meta.status = RunStatus::Running;
        meta
    }
}

impl Default for RunMetadata {
    /// Empty names, status `Crashed`, started at the current time.
    fn default() -> (r: Self)
        ensures
            r.name@.len() == 0,
            r.experiment@.len() == 0,
            r.status == RunStatus::Crashed,
            r.finished_at is None,
            r.duration_ms is None,
            r.description is None,
            r.metrics is None,
            r.language is None,
            r.env_path is None,
    {
        RunMetadata::crashed(String::new(), String::new(), now_micros())
    }
}

/// What is recorded about an experiment.
#[derive(Debug, Clone)]
pub struct ExperimentMetadata {
    pub display_name: Option<String>,
    pub description: Option<String>,
    pub tags: Vec<String>,
}

impl Default for ExperimentMetadata {
    /// No display name, no description, no tags.
    fn default() -> (r: Self)
        ensures
            r.display_name is None,
            r.description is None,
            r.tags@.len() == 0,
    {
        ExperimentMetadata { display_name: None, description: None, tags: Vec::new() }
    }
}

/// Settings of the dashboard server.
#[derive(Debug, Clone)]
pub struct ServerConfig {
    pub base_dir: String,
    pub host: String,
    pub port: u16,
    pub live_mode: bool,
}

impl Default for ServerConfig {
    /// The directory `experiments`, served on `127.0.0.1:8000` with live updates.
    fn default() -> (r: Self)
        ensures
            r.base_dir@ == "experiments"@,
            r.host@ == "127.0.0.1"@,
            r.port == 8000,
            r.live_mode,
    {
        ServerConfig {
            base_dir: "experiments".to_owned(),
            host: "127.0.0.1".to_owned(),
            port: 8000,
            live_mode: true,
        }
    }
}

} // verus!
