//! End-to-end session scenarios: one run, inheritance, the synthetic root
//! span, re-parenting and the terminate summaries.

use spanbroker::codec::{Duration, SpanId};
use spanbroker::file_manager::{FileManagerTask, Span};
use spanbroker::metadata::{Level, Metadata};
use spanbroker::paths::Paths;
use spanbroker::session::{Command, Config, Session};
use spanbroker::values::Value;

fn meta(name: &str) -> Metadata {
    Metadata {
        name: name.to_string(),
        target: String::new(),
        level: Level::Info,
        module: None,
        file: None,
        line: None,
    }
}

fn default_config() -> Config {
    Config { max_fd_count: None, inheritance: None, refresh_interval: None }
}

#[test]
fn single_span_single_run() {
    let mut session = Session::new(0, default_config());
    let out = session.handle_command(
        Command::SpanAlloc { id: SpanId { id: 42, instance: 0 }, metadata: meta("work") },
        0,
    );
    assert!(out.continue_run);
    assert_eq!(out.writes.len(), 1);
    let mut worker = FileManagerTask::new(2, Paths::new(0));
    let step = worker.handle_command_internal(out.writes[0].0, &out.writes[0].1);
    assert_eq!(step.path, "./data/0/metadata/42.csv");
    assert!(step.bytes.contains("Name,work\n"));
    assert!(step.bytes.contains("Level,Info\n"));
    assert_eq!(step.bytes.lines().count(), 6);

    session.handle_command(
        Command::SpanInit {
            span: SpanId { id: 42, instance: 1 },
            parent: None,
            message: None,
            value_set: vec![],
        },
        0,
    );
    session.handle_command(Command::SpanEnter(SpanId { id: 42, instance: 1 }), 0);
    session.handle_command(
        Command::SpanExit {
            span: SpanId { id: 42, instance: 1 },
            duration: Duration { seconds: 1, nano_seconds: 500_000_000 },
        },
        0,
    );
    let freed = session.handle_command(Command::SpanFree(SpanId { id: 42, instance: 1 }), 0);
    assert_eq!(freed.writes.len(), 1);
    let run_step = worker.handle_command_internal(freed.writes[0].0, &freed.writes[0].1);
    assert_eq!(run_step.path, "./data/0/runs/42.csv");
    assert!(run_step.bytes.starts_with("1,"));

    let done = session.handle_command(Command::Terminate, 0);
    assert!(!done.continue_run);
    assert_eq!(done.times_csv.as_deref(), Some("42,1,500,0,1,500,0,1,500,0\n"));
    let tree = done.tree_txt.expect("terminate writes the tree");
    assert!(tree.contains("work 42"));
    assert!(tree.starts_with("root 0\n"));
}

#[test]
fn parent_child_inheritance() {
    let mut session = Session::new(0, default_config());
    session.handle_command(
        Command::SpanAlloc { id: SpanId { id: 1, instance: 0 }, metadata: meta("outer") },
        0,
    );
    session.handle_command(
        Command::SpanAlloc { id: SpanId { id: 2, instance: 0 }, metadata: meta("inner") },
        0,
    );
    session.handle_command(
        Command::SpanInit {
            span: SpanId { id: 1, instance: 1 },
            parent: None,
            message: None,
            value_set: vec![("k".to_string(), Value::Str("v1".to_string()))],
        },
        0,
    );
    session.handle_command(
        Command::SpanInit {
            span: SpanId { id: 2, instance: 1 },
            parent: Some(SpanId { id: 1, instance: 1 }),
            message: None,
            value_set: vec![("m".to_string(), Value::Str("v2".to_string()))],
        },
        0,
    );
    let freed = session.handle_command(Command::SpanFree(SpanId { id: 2, instance: 1 }), 0);
    assert_eq!(freed.writes.len(), 1);
    assert_eq!(freed.writes[0].0, 2);
    match &freed.writes[0].1 {
        Span::Run(instance, inst) => {
            assert_eq!(*instance, 1);
            assert_eq!(inst.value_set.to_string(), "m = \"v2\",outer::k = \"v1\"");
        }
        _ => panic!("a free must queue a run write"),
    }
}

#[test]
fn event_at_root_creates_synthetic_span() {
    let mut session = Session::new(0, default_config());
    let out = session.handle_command(
        Command::Event {
            span: None,
            metadata: meta("boot"),
            time: 1_700_000_000,
            message: Some("started".to_string()),
            value_set: vec![],
        },
        0,
    );
    assert_eq!(out.writes.len(), 1);
    assert_eq!(out.writes[0].0, 0);
    let mut worker = FileManagerTask::new(2, Paths::new(0));
    let step = worker.handle_command_internal(out.writes[0].0, &out.writes[0].1);
    assert_eq!(step.path, "./data/0/events/0.csv");
    assert!(step.bytes.contains("started"));

    // The synthetic root span now exists: terminate writes a row for id 0.
    let done = session.handle_command(Command::Terminate, 0);
    let times = done.times_csv.unwrap();
    assert!(times.starts_with("0,"));
}

#[test]
fn span_follows_moves_under_parent_of_follows() {
    let mut session = Session::new(7, default_config());
    session.handle_command(
        Command::SpanAlloc { id: SpanId { id: 1, instance: 0 }, metadata: meta("outer") },
        0,
    );
    session.handle_command(
        Command::SpanAlloc { id: SpanId { id: 2, instance: 0 }, metadata: meta("follower") },
        0,
    );
    session.handle_command(
        Command::SpanAlloc { id: SpanId { id: 3, instance: 0 }, metadata: meta("leader") },
        0,
    );
    session.handle_command(
        Command::SpanInit {
            span: SpanId { id: 3, instance: 1 },
            parent: Some(SpanId { id: 1, instance: 0 }),
            message: None,
            value_set: vec![],
        },
        0,
    );
    let out = session.handle_command(
        Command::SpanFollows {
            span: SpanId { id: 2, instance: 1 },
            follows: SpanId { id: 3, instance: 1 },
        },
        0,
    );
    assert_eq!(out.lines.len(), 1);
    assert_eq!(out.lines[0], "SpanPath client=7 2 root/outer/follower");

    // A follows whose leader has no parent is a no-op.
    let noop = session.handle_command(
        Command::SpanFollows {
            span: SpanId { id: 2, instance: 1 },
            follows: SpanId { id: 99, instance: 1 },
        },
        0,
    );
    assert_eq!(noop.lines.len(), 0);
}

#[test]
fn terminate_summary_over_ten_runs() {
    let mut session = Session::new(0, default_config());
    session.handle_command(
        Command::SpanAlloc { id: SpanId { id: 7, instance: 0 }, metadata: meta("bench") },
        0,
    );
    for i in 1..=10u32 {
        session.handle_command(
            Command::SpanInit {
                span: SpanId { id: 7, instance: i },
                parent: None,
                message: None,
                value_set: vec![],
            },
            0,
        );
        session.handle_command(
            Command::SpanExit {
                span: SpanId { id: 7, instance: i },
                duration: Duration { seconds: 0, nano_seconds: i * 100_000_000 },
            },
            0,
        );
        session.handle_command(Command::SpanFree(SpanId { id: 7, instance: i }), 0);
    }
    let done = session.handle_command(Command::Terminate, 0);
    // min 100 ms, max 1000 ms = 1 s, average 550 ms.
    assert_eq!(done.times_csv.as_deref(), Some("7,0,100,0,1,0,0,0,550,0\n"));
}

#[test]
fn span_alloc_emits_definition_and_path_lines() {
    let mut session = Session::new(3, default_config());
    let out = session.handle_command(
        Command::SpanAlloc {
            id: SpanId { id: 5, instance: 0 },
            metadata: Metadata {
                name: "fetch data".to_string(),
                target: "app".to_string(),
                level: Level::Warning,
                module: Some("app::net".to_string()),
                file: Some("net.rs".to_string()),
                line: Some(12),
            },
        },
        0,
    );
    assert_eq!(out.lines.len(), 2);
    assert_eq!(out.lines[0], "SpanAlloc client=3 5 \"fetch data\" Warning app app::net net.rs 12");
    assert_eq!(out.lines[1], "SpanPath client=3 5 root/fetch data");
}

#[test]
fn data_update_line_is_rate_limited() {
    let mut session = Session::new(0, default_config());
    session.handle_command(
        Command::SpanAlloc { id: SpanId { id: 4, instance: 0 }, metadata: meta("hot") },
        0,
    );
    session.handle_command(
        Command::SpanInit {
            span: SpanId { id: 4, instance: 1 },
            parent: None,
            message: None,
            value_set: vec![],
        },
        0,
    );
    // Well past the default 500 ms interval: a line is emitted.
    let first = session.handle_command(Command::SpanEnter(SpanId { id: 4, instance: 1 }), 600_000);
    assert_eq!(first.lines.len(), 1);
    assert!(first.lines[0].starts_with("SpanData client=0 4 L A "));
    // Immediately afterwards: throttled.
    let second = session.handle_command(
        Command::SpanExit {
            span: SpanId { id: 4, instance: 1 },
            duration: Duration { seconds: 0, nano_seconds: 1_000 },
        },
        600_500,
    );
    assert_eq!(second.lines.len(), 0);
}

#[test]
fn project_yields_info_csv() {
    let mut session = Session::new(0, default_config());
    let out = session.handle_command(
        Command::Project(spanbroker::codec::Project {
            app_name: "app".to_string(),
            name: "proj".to_string(),
            version: "1.2.3".to_string(),
            command_line: "app --run".to_string(),
            target: spanbroker::codec::TargetInfo {
                os: "linux".to_string(),
                family: "unix".to_string(),
                arch: "x86_64".to_string(),
            },
            cpu: Some(spanbroker::codec::CpuInfo { name: "cpu0".to_string(), core_count: 8 }),
        }),
        0,
    );
    let info = out.info_csv.unwrap();
    assert!(info.contains("AppName,app\n"));
    assert!(info.contains("Version,1.2.3\n"));
    assert!(info.contains("CpuCoreCount,8\n"));
    assert_eq!(info.lines().count(), 9);
}

#[test]
fn tree_dump_is_breadth_first_and_lists_each_span_once() {
    let mut session = Session::new(0, default_config());
    for (id, name) in [(1u32, "a"), (2, "b"), (3, "c")] {
        session.handle_command(
            Command::SpanAlloc { id: SpanId { id, instance: 0 }, metadata: meta(name) },
            0,
        );
    }
    // c moves under a: the dump shows levels in order, each span once.
    session.handle_command(
        Command::SpanInit {
            span: SpanId { id: 3, instance: 1 },
            parent: Some(SpanId { id: 1, instance: 0 }),
            message: None,
            value_set: vec![],
        },
        0,
    );
    let done = session.handle_command(Command::Terminate, 0);
    let tree = done.tree_txt.unwrap();
    assert_eq!(tree, "root 0\nroot/a 1\nroot/b 2\nroot/a/c 3\n");
}
