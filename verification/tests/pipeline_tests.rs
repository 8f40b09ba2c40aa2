//! The file-descriptor pool, the operator command language, the server
//! dispatcher, value sets and the consumer buffer.

use spanbroker::buffer::Buffer;
use spanbroker::codec::{Command as WireCommand, SpanId};
use spanbroker::file_manager::{duration_to_string, FileManagerTask, Span};
use spanbroker::metadata::{Level, Metadata};
use spanbroker::operator::{Command, CommandDeserializer, Error};
use spanbroker::paths::{Directory, Paths};
use spanbroker::server::{ClientManager, CommandHandler, Event};
use spanbroker::session::Config;
use spanbroker::session::Session;
use spanbroker::session::Command as SessionCommand;
use spanbroker::state::{SpanData, SpanInstance};
use spanbroker::util::{broker_line, csv_format_single, Type};
use spanbroker::values::{csv_format, Value, ValueSet};

fn event_payload(n: u32) -> Span {
    Span::Event(1, format!("event {}", n), ValueSet::new())
}

#[test]
fn fd_pool_of_one_evicts_on_every_alternation() {
    let mut small = FileManagerTask::new(1, Paths::new(0));
    let mut large = FileManagerTask::new(100, Paths::new(0));
    let mut evictions = 0;
    for n in 0..20u32 {
        let span_id = 1 + n % 2;
        let payload = event_payload(n);
        let a = small.handle_command_internal(span_id, &payload);
        let b = large.handle_command_internal(span_id, &payload);
        // The written output never depends on the pool bound.
        assert_eq!(a.path, b.path);
        assert_eq!(a.bytes, b.bytes);
        if a.evict.is_some() {
            evictions += 1;
        }
    }
    // With a bound of one, every write after the first evicts the other file.
    assert_eq!(evictions, 19);
}

#[test]
fn fd_pool_caches_repeated_key()  {
    let mut pool = FileManagerTask::new(2, Paths::new(3));
    let p = event_payload(0);
    let first = pool.handle_command_internal(5, &p);
    assert!(!first.hit);
    assert_eq!(first.path, "./data/3/events/5.csv");
    let second = pool.handle_command_internal(5, &p);
    assert!(second.hit);
    assert!(second.evict.is_none());
}

fn parse(tokens: &[&str]) -> Result<Command, Error> {
    let args: Vec<String> = tokens.iter().map(|t| t.to_string()).collect();
    CommandDeserializer::new(args).parse_command()
}

#[test]
fn operator_grammar() {
    assert!(matches!(parse(&["stop"]), Ok(Command::Stop)));
    assert!(matches!(parse(&["list"]), Ok(Command::List)));
    match parse(&["connect", "127.0.0.1:5000"]) {
        Ok(Command::Connect(addr)) => assert_eq!(addr, "127.0.0.1:5000"),
        _ => panic!("connect must parse"),
    }
    assert!(matches!(parse(&["kick", "0"]), Ok(Command::Kick(0))));
    assert!(matches!(parse(&["connect"]), Err(Error::UnexpectedEof)));
    assert!(matches!(parse(&["kick", "abc"]), Err(Error::SyntaxError(_))));
    assert!(matches!(parse(&["frobnicate"]), Err(Error::Other(_))));
    assert!(matches!(parse(&[]), Err(Error::UnexpectedEof)));
}

#[test]
fn operator_config_arguments() {
    match parse(&["config", "max_fd_count=1", "inheritance=off", "refresh_interval=250"]) {
        Ok(Command::Config(c)) => {
            assert_eq!(c.max_fd_count, Some(1));
            assert_eq!(c.inheritance, Some(false));
            assert_eq!(c.refresh_interval, Some(250));
        }
        _ => panic!("config must parse"),
    }
    match parse(&["config", "inheritance=on", "unknown=3"]) {
        Ok(Command::Config(c)) => {
            assert_eq!(c.inheritance, Some(true));
            assert_eq!(c.max_fd_count, None);
        }
        _ => panic!("unknown keys are ignored"),
    }
    assert!(matches!(parse(&["config", "inheritance"]), Err(Error::UnexpectedEof)));
    assert!(matches!(parse(&["config", "inheritance=maybe"]), Err(Error::SyntaxError(_))));
}

#[test]
fn operator_kick_dispatch() {
    let handler = CommandHandler::new();
    let mut clients = ClientManager::new();

    let connect = parse(&["connect", "127.0.0.1:5000"]).unwrap();
    let d = handler.handle_command(&mut clients, connect);
    assert_eq!(d.result.as_ref().ok(), Some(&Event::Continue));
    let (index, addr) = d.spawn.expect("connect asks for a spawn");
    assert_eq!(index, 0);
    assert_eq!(addr, "127.0.0.1:5000");

    let kick = parse(&["kick", "0"]).unwrap();
    let d2 = handler.handle_command(&mut clients, kick);
    assert_eq!(d2.kick, Some(0));

    clients.remove(0);
    let kick_again = parse(&["kick", "0"]).unwrap();
    let d3 = handler.handle_command(&mut clients, kick_again);
    match d3.result {
        Err(e) => assert_eq!(e.message(), "Client does not exist"),
        Ok(_) => panic!("kicking a missing client must fail"),
    }
}

#[test]
fn connect_appends_default_port() {
    let handler = CommandHandler::new();
    let mut clients = ClientManager::new();
    let d = handler.handle_command(&mut clients, Command::Connect("10.0.0.1".to_string()));
    let (_, addr) = d.spawn.unwrap();
    assert_eq!(addr, "10.0.0.1:4026");
}

#[test]
fn list_prints_one_line_per_client() {
    let handler = CommandHandler::new();
    let mut clients = ClientManager::new();
    handler.handle_command(&mut clients, Command::Connect("a:1".to_string()));
    handler.handle_command(&mut clients, Command::Connect("b:2".to_string()));
    let d = handler.handle_command(&mut clients, Command::List);
    assert_eq!(d.lines, vec!["LogInfo client=0 a:1", "LogInfo client=1 b:2"]);
}

#[test]
fn config_dispatch_updates_defaults() {
    let handler = CommandHandler::new();
    let mut clients = ClientManager::new();
    let cfg = Config { max_fd_count: Some(1), inheritance: Some(false), refresh_interval: None };
    let d = handler.handle_command(&mut clients, Command::Config(cfg));
    assert_eq!(d.result.ok(), Some(Event::Continue));
    let stop = handler.handle_command(&mut clients, Command::Stop);
    assert_eq!(stop.result.ok(), Some(Event::Terminate));
}

#[test]
fn csv_quoting_rule() {
    assert_eq!(csv_format_single("plain", ','), "plain");
    assert_eq!(csv_format_single("a,b", ','), "\"a,b\"");
    assert_eq!(csv_format_single("say \"hi\"", ','), "\"say \"\"hi\"\"\"");
    assert_eq!(csv_format_single("two words", ' '), "\"two words\"");
    assert_eq!(csv_format_single("two words", ','), "two words");
    assert_eq!(
        csv_format(vec!["a".to_string(), "b,c".to_string(), "d".to_string()]),
        "a,\"b,c\",d"
    );
}

#[test]
fn value_rendering() {
    let vs = ValueSet::from_pairs(vec![
        ("f".to_string(), Value::Float("2.5".to_string())),
        ("s".to_string(), Value::Signed(-4)),
        ("u".to_string(), Value::Unsigned(7)),
        ("t".to_string(), Value::Str("x".to_string())),
        ("b".to_string(), Value::Bool(true)),
        ("c".to_string(), Value::Bool(false)),
    ]);
    assert_eq!(vs.to_string(), "f = 2.5,s = -4,u = 7,t = \"x\",b = On,c = Off");
}

#[test]
fn duration_units_pick_largest_nonzero() {
    assert_eq!(duration_to_string(1_500_000_000), "1s");
    assert_eq!(duration_to_string(2_000_000), "2ms");
    assert_eq!(duration_to_string(500_000), "500us");
    assert_eq!(duration_to_string(0), "0us");
}

#[test]
fn broker_line_format() {
    assert_eq!(broker_line(Type::LogInfo, Some(3), "hello"), "LogInfo client=3 hello");
    assert_eq!(broker_line(Type::LogError, None, "oops"), "LogError oops");
}

#[test]
fn target_module_split() {
    let m = Metadata {
        name: "n".to_string(),
        target: "fallback".to_string(),
        level: Level::Debug,
        module: Some("my_crate::sub::leaf".to_string()),
        file: None,
        line: None,
    };
    let (target, module) = m.get_target_module();
    assert_eq!(target, "my_crate");
    assert_eq!(module, Some("sub::leaf"));

    let bare = Metadata { module: None, ..m };
    let (target2, module2) = bare.get_target_module();
    assert_eq!(target2, "fallback");
    assert_eq!(module2, None);
}

#[test]
fn paths_layout() {
    let p = Paths::new(7);
    assert_eq!(p.get_root(), "./data/7");
    assert_eq!(p.get(Directory::Runs), "./data/7/runs");
    assert_eq!(p.get(Directory::Events), "./data/7/events");
    assert_eq!(p.get(Directory::Metadata), "./data/7/metadata");
}

#[test]
fn buffer_batches_and_terminate_latch() {
    let mut buffer = Buffer::new(Some(2));
    assert_eq!(buffer.max_buffer(), 4);
    assert!(!buffer.should_terminate());
    assert!(buffer.submit(WireCommand::SpanEnter(SpanId { id: 1, instance: 1 })));
    assert!(buffer.submit(WireCommand::SpanEnter(SpanId { id: 1, instance: 2 })));
    assert!(buffer.submit(WireCommand::SpanEnter(SpanId { id: 1, instance: 3 })));
    assert!(buffer.submit(WireCommand::Terminate));
    assert!(buffer.should_terminate());
    assert!(!buffer.submit(WireCommand::SpanEnter(SpanId { id: 1, instance: 4 })));
    // Terminate seen: the whole queue comes out at once.
    let batch = buffer.fast_forward().expect("a full buffer yields a batch");
    assert_eq!(batch.len(), 4);
    assert!(buffer.fast_forward().is_none());
}

#[test]
fn buffer_respects_batch_bound() {
    let mut buffer = Buffer::new(Some(2));
    assert!(buffer.submit(WireCommand::SpanEnter(SpanId { id: 1, instance: 1 })));
    assert!(buffer.submit(WireCommand::SpanEnter(SpanId { id: 1, instance: 2 })));
    assert!(buffer.submit(WireCommand::SpanEnter(SpanId { id: 1, instance: 3 })));
    let batch = buffer.fast_forward().expect("batch");
    assert_eq!(batch.len(), 2);
}

#[test]
fn span_data_aggregates_and_flags() {
    let m = Metadata {
        name: "agg".to_string(),
        target: String::new(),
        level: Level::Info,
        module: None,
        file: None,
        line: None,
    };
    let mut data = SpanData::new(m);
    // No instances yet: dropped, inactive, no runs.
    assert!(data.is_dropped());
    assert!(!data.is_active());
    assert_eq!(data.run_count, 0);

    for (i, ns) in [(1u32, 300u64), (2, 100), (3, 200)] {
        let mut inst = SpanInstance::new(None, ValueSet::new());
        inst.duration = ns;
        inst.active = true;
        data.alloc_instance(i, inst);
    }
    assert!(!data.is_dropped());
    assert!(data.is_active());

    data.free_instance(1);
    data.free_instance(2);
    data.free_instance(3);
    assert!(data.is_dropped());
    assert!(!data.is_active());
    assert_eq!(data.run_count, 3);
    assert_eq!(data.min, 100);
    assert_eq!(data.max, 300);
    assert_eq!(data.sum, 600);
    // min <= average <= max
    let avg = (data.sum / data.run_count as u128) as u64;
    assert!(data.min <= avg && avg <= data.max);
}

#[test]
fn event_line_embeds_message_and_values() {
    let mut session = Session::new(0, Config {
        max_fd_count: None,
        inheritance: Some(false),
        refresh_interval: None,
    });
    let out = session.handle_command(
        SessionCommand::Event {
            span: Some(SpanId { id: 9, instance: 1 }),
            metadata: Metadata {
                name: "evt".to_string(),
                target: "app::net".to_string(),
                level: Level::Info,
                module: None,
                file: None,
                line: None,
            },
            time: 1_700_000_000,
            message: Some("ping".to_string()),
            value_set: vec![("n".to_string(), Value::Unsigned(3))],
        },
        0,
    );
    assert_eq!(out.lines.len(), 1);
    let line = &out.lines[0];
    assert!(line.starts_with("SpanEvent client=0 9 "));
    // The composed message names target and module and ends in the message.
    assert!(line.contains("<app>"));
    assert!(line.contains("net: ping"));
    assert!(line.ends_with("\"n = 3\""));
}
