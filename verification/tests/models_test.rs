use expman::engine::{
    artifact_destination, compose_log_line, elapsed_millis, finish_run, format_log_line,
    path_leaves, plan_startup, render_log_lines, run_paths, Action, Event, LogCommand, Worker, CLOSE_TIMEOUT_SECS, LOG_FLUSH_LINES,
};
use expman::error::ExpmanError;
use expman::models::{
    join_path, ExperimentConfig, ExperimentMetadata, LogLevel, MetricRow, MetricValue, RunMetadata,
    RunStatus, ServerConfig,
};
use expman::numbers::{
    float_is_finite, format_duration, i64_to_step, int_to_float_bits, int_to_text, step_to_i64,
};
use expman::text::str_eq;

#[test]
fn status_words() {
    assert_eq!(RunStatus::Running.to_string(), "RUNNING");
    assert_eq!(RunStatus::Finished.to_string(), "FINISHED");
    assert_eq!(RunStatus::Failed.to_string(), "FAILED");
    assert_eq!(RunStatus::Crashed.to_string(), "CRASHED");
    assert_eq!(RunStatus::Crashed.label(), "CRASHED");
    assert_eq!(LogLevel::Info.label(), "INFO");
    assert_eq!(LogLevel::Warn.label(), "WARN");
    assert_eq!(LogLevel::Error.label(), "ERROR");
}

#[test]
fn paths_are_joined_as_directories() {
    assert_eq!(join_path("base", "exp"), "base/exp");
    assert_eq!(join_path("base/", "exp"), "base/exp");
    assert_eq!(join_path("", "exp"), "exp");
    assert_eq!(join_path("base", "/abs/exp"), "/abs/exp");
    assert_eq!(join_path("base", ""), "base/");
    assert_eq!(join_path("/", "x"), "/x");
    assert_eq!(join_path("./experiments", "ü/é"), "./experiments/ü/é");
    for (a, b) in [("base", "exp"), ("base/", "exp"), ("", "exp"), ("base", "/abs"), ("base", ""), ("/", "x")] {
        assert_eq!(join_path(a, b), std::path::Path::new(a).join(b).to_string_lossy());
    }
}

#[test]
fn a_new_configuration_has_the_defaults() {
    let config = ExperimentConfig::new("resnet".to_string(), "./experiments".to_string());
    assert_eq!(config.name, "resnet");
    assert_eq!(config.base_dir, "./experiments");
    assert_eq!(config.flush_interval_rows, 50);
    assert_eq!(config.flush_interval_ms, 500);
    assert_eq!(config.language, "rust");
    assert_eq!(config.env_path, None);
    // The run name is the local time to the second: yyyymmdd_hhmmss.
    assert_eq!(config.run_name.len(), 15);
    assert!(config.run_name.chars().enumerate().all(|(i, c)| if i == 8 { c == '_' } else { c.is_ascii_digit() }));
    assert_eq!(config.experiment_dir(), "./experiments/resnet");
    let named = config.with_run_name("run7".to_string());
    assert_eq!(named.run_name, "run7");
    assert_eq!(named.name, "resnet");
    assert_eq!(named.flush_interval_rows, 50);
    assert_eq!(named.run_dir(), "./experiments/resnet/run7");
    assert_eq!(named.experiment_dir(), "./experiments/resnet");
}

#[test]
fn a_new_row_is_stamped_with_the_current_time() {
    let before = std::time::SystemTime::now().duration_since(std::time::UNIX_EPOCH).unwrap().as_micros() as i64;
    let row = MetricRow::new(vec![("x".to_string(), MetricValue::Int(1))], Some(4));
    let after = std::time::SystemTime::now().duration_since(std::time::UNIX_EPOCH).unwrap().as_micros() as i64;
    assert_eq!(row.step, Some(4));
    assert_eq!(row.values.len(), 1);
    assert!(before - 1_000_000 <= row.timestamp && row.timestamp <= after + 1_000_000);
    let fixed = MetricRow::at(17, Vec::new(), None);
    assert_eq!(fixed.timestamp, 17);
    assert_eq!(fixed.step, None);
}

#[test]
fn metadata_defaults() {
    let meta = RunMetadata::default();
    assert_eq!(meta.name, "");
    assert_eq!(meta.experiment, "");
    assert_eq!(meta.status, RunStatus::Crashed);
    assert!(meta.started_at > 1_600_000_000_000_000);
    assert_eq!(meta.finished_at, None);
    assert_eq!(meta.duration_ms, None);
    assert!(meta.description.is_none() && meta.metrics.is_none() && meta.language.is_none() && meta.env_path.is_none());
    let crashed = RunMetadata::crashed("run".to_string(), "exp".to_string(), 5);
    assert_eq!((crashed.name.as_str(), crashed.experiment.as_str(), crashed.status, crashed.started_at), ("run", "exp", RunStatus::Crashed, 5));
    let exp = ExperimentMetadata::default();
    assert!(exp.display_name.is_none() && exp.description.is_none() && exp.tags.is_empty());
    let server = ServerConfig::default();
    assert_eq!((server.base_dir.as_str(), server.host.as_str(), server.port, server.live_mode), ("experiments", "127.0.0.1", 8000, true));
}

#[test]
fn error_messages() {
    let s = |x: &str| x.to_string();
    assert_eq!(ExpmanError::Io(s("denied")).to_string(), "I/O error: denied");
    assert_eq!(ExpmanError::Arrow(s("a")).to_string(), "Arrow error: a");
    assert_eq!(ExpmanError::Parquet(s("p")).to_string(), "Parquet error: p");
    assert_eq!(ExpmanError::Yaml(s("y")).to_string(), "YAML serialization error: y");
    assert_eq!(ExpmanError::Json(s("j")).to_string(), "JSON error: j");
    assert_eq!(ExpmanError::ChannelClosed.to_string(), "Logging engine channel closed");
    assert_eq!(ExpmanError::RunNotFound(s("r")).to_string(), "Run directory not found: r");
    assert_eq!(ExpmanError::ExperimentNotFound(s("e")).to_string(), "Experiment not found: e");
    assert_eq!(ExpmanError::Other(s("plain")).to_string(), "plain");
}

#[test]
fn numbers_and_texts() {
    assert_eq!(int_to_text(0), "0");
    assert_eq!(int_to_text(7), "7");
    assert_eq!(int_to_text(10), "10");
    assert_eq!(int_to_text(-1), "-1");
    assert_eq!(int_to_text(1234567890), "1234567890");
    assert_eq!(int_to_text(i64::MAX), "9223372036854775807");
    assert_eq!(int_to_text(i64::MIN), "-9223372036854775808");
    assert_eq!(step_to_i64(0), 0);
    assert_eq!(step_to_i64(i64::MAX as u64), i64::MAX);
    assert_eq!(step_to_i64(i64::MAX as u64 + 1), i64::MIN);
    assert_eq!(step_to_i64(u64::MAX), -1);
    for step in [0u64, 1, 5, i64::MAX as u64, i64::MAX as u64 + 1, u64::MAX - 1, u64::MAX] {
        assert_eq!(i64_to_step(step_to_i64(step)), step);
    }
    assert_eq!(i64_to_step(-1), u64::MAX);
    assert_eq!(i64_to_step(i64::MIN), 1u64 << 63);
    for x in [0.0f64, -0.0, 1.5, f64::MAX, f64::MIN_POSITIVE, 5e-324, -1e300] {
        assert!(float_is_finite(x.to_bits()));
    }
    for x in [f64::NAN, f64::INFINITY, f64::NEG_INFINITY, -f64::NAN] {
        assert!(!float_is_finite(x.to_bits()));
    }
    assert!(str_eq("", ""));
    assert!(str_eq("é", "é"));
    assert!(!str_eq("a", "b"));
    assert!(!str_eq("a", "ab"));
}

#[test]
fn log_lines() {
    assert_eq!(format_log_line(0, LogLevel::Info, "hello"), "[1970-01-01T00:00:00.000Z] [INFO] hello");
    assert_eq!(
        format_log_line(1_700_000_000_123_456, LogLevel::Error, "multi word: ü"),
        "[2023-11-14T22:13:20.123Z] [ERROR] multi word: ü"
    );
    assert_eq!(format_log_line(-1, LogLevel::Warn, ""), "[1969-12-31T23:59:59.999Z] [WARN] ");
    assert_eq!(compose_log_line("noon", LogLevel::Info, "a b"), "[noon] [INFO] a b");
    assert_eq!(compose_log_line("", LogLevel::Error, ""), "[] [ERROR] ");
    assert_eq!(render_log_lines(&vec!["a".to_string(), "".to_string(), "b c".to_string()]), "a\n\nb c\n");
    assert_eq!(render_log_lines(&Vec::new()), "");
    assert_eq!(LOG_FLUSH_LINES, 20);
    assert_eq!(CLOSE_TIMEOUT_SECS, 5);
}

#[test]
fn elapsed_time_is_in_whole_milliseconds() {
    assert_eq!(elapsed_millis(0, 0), 0);
    assert_eq!(elapsed_millis(0, 999), 0);
    assert_eq!(elapsed_millis(0, 1_000), 1);
    assert_eq!(elapsed_millis(1_000_000, 3_500_999), 2_500);
    assert_eq!(elapsed_millis(1_000, 0), -1);
    assert_eq!(elapsed_millis(999, 0), 0);
    assert_eq!(elapsed_millis(i64::MIN, i64::MAX), 18_446_744_073_709_551);
    assert_eq!(elapsed_millis(i64::MAX, i64::MIN), -18_446_744_073_709_551);
}

fn kinds(actions: &[Action]) -> Vec<String> {
    actions
        .iter()
        .map(|a| match a {
            Action::WriteMetrics(rows) => format!("metrics:{}", rows.len()),
            Action::WriteLogLines(lines) => format!("lines:{}", lines.len()),
            Action::MergeParams(params) => format!("params:{}", params.len()),
            Action::CopyArtifact(path) => format!("copy:{}", path),
            Action::AckFlush => "ack-flush".to_string(),
            Action::Finish { status, finished_at, duration_ms } => {
                format!("finish:{}:{}:{}", status.to_string(), finished_at, duration_ms)
            }
            Action::AckShutdown => "ack-shutdown".to_string(),
        })
        .collect()
}

fn metric(step: u64) -> Event {
    Event::Command(LogCommand::Metric(MetricRow::at(0, Vec::new(), Some(step))))
}

fn log(message: &str) -> Event {
    Event::Command(LogCommand::Log { level: LogLevel::Info, message: message.to_string() })
}

#[test]
fn the_worker_hands_rows_out_at_the_threshold() {
    let mut worker = Worker::new(3, 100);
    assert!(worker.handle(metric(0), 1).is_empty());
    assert!(worker.handle(metric(1), 2).is_empty());
    assert_eq!(worker.buffered_rows(), 2);
    let actions = worker.handle(metric(2), 3);
    assert_eq!(kinds(&actions), vec!["metrics:3"]);
    match &actions[0] {
        Action::WriteMetrics(rows) => assert_eq!(rows.iter().map(|r| r.step).collect::<Vec<_>>(), vec![Some(0), Some(1), Some(2)]),
        _ => unreachable!(),
    }
    assert_eq!(worker.buffered_rows(), 0);
    assert!(worker.handle(metric(3), 4).is_empty());
    assert!(!worker.is_stopped());
}

#[test]
fn a_threshold_of_zero_or_one_writes_every_row_at_once() {
    for threshold in [0usize, 1] {
        let mut worker = Worker::new(threshold, 0);
        assert_eq!(kinds(&worker.handle(metric(0), 1)), vec!["metrics:1"]);
        assert_eq!(kinds(&worker.handle(metric(1), 2)), vec!["metrics:1"]);
        assert_eq!(worker.buffered_rows(), 0);
    }
}

#[test]
fn tick_flush_and_end_of_queue_hand_out_what_is_buffered() {
    let mut worker = Worker::new(100, 0);
    assert!(worker.handle(Event::Tick, 1).is_empty());
    worker.handle(metric(0), 2);
    worker.handle(log("a"), 3);
    assert_eq!(kinds(&worker.handle(Event::Tick, 4)), vec!["metrics:1", "lines:1"]);
    assert!(worker.handle(Event::Tick, 5).is_empty());
    worker.handle(log("b"), 6);
    assert_eq!(kinds(&worker.handle(Event::Command(LogCommand::Flush), 7)), vec!["lines:1", "ack-flush"]);
    assert_eq!(kinds(&worker.handle(Event::Command(LogCommand::Flush), 8)), vec!["ack-flush"]);
    worker.handle(metric(1), 9);
    assert!(!worker.is_stopped());
    assert_eq!(kinds(&worker.handle(Event::Closed, 10)), vec!["metrics:1"]);
    assert!(worker.is_stopped());
    assert!(worker.handle(Event::Tick, 11).is_empty());
    assert!(worker.handle(metric(2), 12).is_empty());
    assert!(worker.handle(Event::Command(LogCommand::Flush), 13).is_empty());
    assert!(worker.handle(Event::Closed, 14).is_empty());
    assert_eq!(worker.buffered_rows(), 0);
}

#[test]
fn params_and_artifacts_are_passed_on_at_once() {
    let mut worker = Worker::new(100, 0);
    worker.handle(metric(0), 1);
    let params = vec![("lr".to_string(), serde_yaml::Value::Bool(true))];
    assert_eq!(kinds(&worker.handle(Event::Command(LogCommand::Params(params)), 2)), vec!["params:1"]);
    assert_eq!(
        kinds(&worker.handle(Event::Command(LogCommand::Artifact("a/b.txt".to_string())), 3)),
        vec!["copy:a/b.txt"]
    );
    assert_eq!(worker.buffered_rows(), 1);
}

#[test]
fn shutdown_flushes_records_the_status_and_stops() {
    let mut worker = Worker::new(100, 1_000_000);
    worker.handle(metric(0), 1_000_001);
    worker.handle(log("bye"), 1_000_002);
    let actions = worker.handle(Event::Command(LogCommand::Shutdown { status: RunStatus::Failed }), 3_500_000);
    assert_eq!(kinds(&actions), vec!["metrics:1", "lines:1", "finish:FAILED:3500000:2500", "ack-shutdown"]);
    assert!(worker.is_stopped());
    assert_eq!(worker.buffered_lines(), 0);
    assert!(worker.handle(Event::Command(LogCommand::Shutdown { status: RunStatus::Finished }), 4_000_000).is_empty());
}

#[test]
fn startup_plan() {
    let config = ExperimentConfig::new("exp".to_string(), "base".to_string()).with_run_name("run".to_string());
    let plan = plan_startup(&config, 42, false);
    assert_eq!(plan.directories, vec!["base/exp/run", "base/exp/run/artifacts", "base/exp"]);
    assert_eq!(plan.paths.metadata, "base/exp/run/run.yaml");
    assert_eq!(plan.paths.experiment_metadata, "base/exp/experiment.yaml");
    assert_eq!(plan.run_metadata.name, "run");
    assert_eq!(plan.run_metadata.experiment, "exp");
    assert_eq!(plan.run_metadata.status, RunStatus::Running);
    assert_eq!(plan.run_metadata.started_at, 42);
    assert!(plan.run_metadata.finished_at.is_none() && plan.run_metadata.duration_ms.is_none());
    let meta = plan.experiment_metadata.unwrap();
    assert!(meta.display_name.is_none() && meta.tags.is_empty());
    assert!(plan_startup(&config, 42, true).experiment_metadata.is_none());
    let paths = run_paths(&config);
    assert_eq!(paths.run_dir, "base/exp/run");
    assert_eq!(paths.experiment_dir, "base/exp");
    assert_eq!(paths.artifacts_dir, "base/exp/run/artifacts");
    assert_eq!(paths.config, "base/exp/run/config.yaml");
    assert_eq!(paths.metrics, "base/exp/run/metrics.parquet");
    assert_eq!(paths.log, "base/exp/run/run.log");
    let to = |source: &str| artifact_destination(&paths.artifacts_dir, source);
    assert_eq!(to("plots/a.png").as_deref(), Some("base/exp/run/artifacts/plots/a.png"));
    assert_eq!(to("/abs/a.png").as_deref(), Some("base/exp/run/artifacts/abs/a.png"));
    assert_eq!(to("///a.png").as_deref(), Some("base/exp/run/artifacts/a.png"));
    assert_eq!(to("/").as_deref(), Some("base/exp/run/artifacts/"));
    assert_eq!(to("").as_deref(), Some("base/exp/run/artifacts/"));
    assert_eq!(to("a..b/..c/d..").as_deref(), Some("base/exp/run/artifacts/a..b/..c/d.."));
    assert_eq!(to(".../x").as_deref(), Some("base/exp/run/artifacts/.../x"));
    assert_eq!(artifact_destination("", "/a").as_deref(), Some("a"));
    for (staying, place) in [
        ("a/..", "base/exp/run/artifacts/a/.."),
        ("a/../b.txt", "base/exp/run/artifacts/a/../b.txt"),
        ("a/b/../../c", "base/exp/run/artifacts/a/b/../../c"),
        ("./a/./../b", "base/exp/run/artifacts/./a/./../b"),
        ("/a/..", "base/exp/run/artifacts/a/.."),
        ("a//../b", "base/exp/run/artifacts/a//../b"),
        ("..a/..", "base/exp/run/artifacts/..a/.."),
    ] {
        assert!(!path_leaves(staying), "{}", staying);
        assert_eq!(to(staying).as_deref(), Some(place));
    }
    for leaving in ["..", "../a", "a/../..", "a/../../b", "/..", "/../etc/passwd", "a/b/../../..", "../", "./..", "a/./../.."] {
        assert!(path_leaves(leaving), "{}", leaving);
        assert_eq!(to(leaving), None, "{}", leaving);
    }
    assert!(!path_leaves("a/b"));
    assert!(!path_leaves("."));
    assert!(!path_leaves("..."));
    assert!(!path_leaves(""));
}

#[test]
fn finishing_a_run_keeps_the_rest_of_its_metadata() {
    let mut meta = RunMetadata::crashed("run".to_string(), "exp".to_string(), 5);
    meta.status = RunStatus::Running;
    meta.description = Some("d".to_string());
    meta.language = Some("rust".to_string());
    let done = finish_run(meta, RunStatus::Finished, 2_005, 2);
    assert_eq!(done.status, RunStatus::Finished);
    assert_eq!(done.finished_at, Some(2_005));
    assert_eq!(done.duration_ms, Some(2));
    assert_eq!(done.started_at, 5);
    assert_eq!(done.name, "run");
    assert_eq!(done.experiment, "exp");
    assert_eq!(done.description.as_deref(), Some("d"));
    assert_eq!(done.language.as_deref(), Some("rust"));
}

#[test]
fn durations_as_a_person_reads_them() {
    assert_eq!(format_duration(0), "0s");
    assert_eq!(format_duration(999), "0s");
    assert_eq!(format_duration(1_000), "1s");
    assert_eq!(format_duration(59_999), "59s");
    assert_eq!(format_duration(60_000), "1m 0s");
    assert_eq!(format_duration(125_500), "2m 5s");
    assert_eq!(format_duration(3_599_999), "59m 59s");
    assert_eq!(format_duration(3_600_000), "1h 0m");
    assert_eq!(format_duration(7_325_000), "2h 2m");
    assert_eq!(format_duration(-5_000), "0s");
    assert_eq!(format_duration(i64::MAX), "2562047788015h 12m");
}

#[test]
fn integers_are_widened_to_the_nearest_number() {
    let edges: [i64; 28] = [
        0,
        1,
        -1,
        2,
        3,
        -7,
        1023,
        1 << 52,
        (1 << 53) - 1,
        1 << 53,
        (1 << 53) + 1,
        (1 << 53) + 2,
        (1 << 53) + 3,
        -((1 << 53) + 1),
        (1 << 54) + 2,
        (1 << 54) + 6,
        (1 << 62) + (1 << 9),
        (1 << 62) + (1 << 9) + 1,
        (1 << 62) + 3 * (1 << 9),
        i64::MAX,
        i64::MAX - 511,
        i64::MAX - 512,
        i64::MAX - 1024,
        i64::MIN,
        i64::MIN + 1,
        i64::MIN + 1024,
        123_456_789_012_345_678,
        -987_654_321_098_765_432,
    ];
    for i in edges {
        assert_eq!(int_to_float_bits(i), (i as f64).to_bits(), "{}", i);
    }
    assert_eq!(f64::from_bits(int_to_float_bits((1 << 53) + 1)), 9007199254740992.0);
    assert_eq!(f64::from_bits(int_to_float_bits((1 << 53) + 3)), 9007199254740996.0);
    assert_eq!(int_to_float_bits(1), 0x3ff0_0000_0000_0000);
    assert_eq!(int_to_float_bits(-2), 0xc000_0000_0000_0000);
    let mut x: u64 = 0x9e37_79b9_7f4a_7c15;
    for _ in 0..20_000 {
        x = x.wrapping_mul(6364136223846793005).wrapping_add(1442695040888963407);
        let i = (x >> (x % 64)) as i64;
        assert_eq!(int_to_float_bits(i), (i as f64).to_bits(), "{}", i);
        let j = i.wrapping_neg();
        assert_eq!(int_to_float_bits(j), (j as f64).to_bits(), "{}", j);
    }
}

#[test]
fn runs_named_within_the_same_second_share_a_directory() {
    for _ in 0..5 {
        let a = ExperimentConfig::new("exp".to_string(), "base".to_string());
        let b = ExperimentConfig::new("exp".to_string(), "base".to_string());
        if a.run_name == b.run_name {
            assert_eq!(a.run_dir(), b.run_dir());
            assert_eq!(plan_startup(&a, 0, true).directories, plan_startup(&b, 0, true).directories);
            return;
        }
    }
    panic!("five pairs of configurations each straddled a second");
}

#[test]
fn metric_values_from_plain_values() {
    assert!(matches!(MetricValue::from(7i64), MetricValue::Int(7)));
    assert!(matches!(MetricValue::from(-7i32), MetricValue::Int(-7)));
    assert!(matches!(MetricValue::from(7usize), MetricValue::Int(7)));
    assert!(matches!(MetricValue::from(usize::MAX), MetricValue::Int(i) if i == usize::MAX as i64));
    assert!(matches!(MetricValue::from(true), MetricValue::Bool(true)));
    assert!(matches!(MetricValue::from("a".to_string()), MetricValue::Text(t) if t == "a"));
    assert!(matches!(MetricValue::from("b"), MetricValue::Text(t) if t == "b"));
    let through_into: MetricValue = 3i64.into();
    assert!(matches!(through_into, MetricValue::Int(3)));
}
