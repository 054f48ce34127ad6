use loadcore::channel::{Channel, Limit, RecvState, SendState};
use loadcore::error::{TestEndReason, TestError};
use loadcore::json::{json_value_into_string, json_value_to_pretty_string, json_value_to_string, Value};
use loadcore::killer::TestKiller;
use loadcore::logger::{logger, LogTarget, Logger, Render};
use loadcore::providers::literals;
use loadcore::providers::range;
use loadcore::providers::response;
use loadcore::providers::FileSource;
use loadcore::providers::RangeSource;
use loadcore::providers::RepeaterStream;
use loadcore::providers::SendBehavior;
use loadcore::providers::Source;

fn bv(s: &str) -> Vec<u8> {
    s.as_bytes().to_vec()
}

#[test]
fn json_value_to_string_works() {
    let expect = r#"{"foo":123}"#;
    let json = Value::Object(vec![(bv("foo"), Value::Int(123))]);
    assert_eq!(json_value_to_string(&json).as_str(), expect);

    let expect = r#"asdf " foo"#;
    let json = Value::Str(bv(expect));
    assert_eq!(json_value_to_string(&json).as_str(), expect);

    let expect = r#"["foo",1,2,3,null]"#;
    let json = Value::Array(vec![
        Value::Str(bv("foo")),
        Value::Int(1),
        Value::Int(2),
        Value::Int(3),
        Value::Null,
    ]);
    assert_eq!(json_value_to_string(&json).as_str(), expect);
}

#[test]
fn json_serialisation_escapes() {
    let v = Value::Str(bv("a\"b\\c\nd"));
    assert_eq!(json_value_into_string(v), "a\"b\\c\nd");
    let v = Value::Array(vec![Value::Str(bv("a\"b\nc")), Value::Bool(true)]);
    assert_eq!(json_value_into_string(v), "[\"a\\\"b\\nc\",true]");
    assert_eq!(
        json_value_to_string(&Value::Int(-42)).as_str(),
        "-42"
    );
}

#[test]
fn bounded_channel_full_returns_value_unmodified() {
    let mut chan = Channel::new(Limit::Integer(2));
    assert!(matches!(chan.try_send(Value::Int(1)), SendState::Success));
    assert!(matches!(chan.try_send(Value::Int(2)), SendState::Success));
    match chan.try_send(Value::Str(bv("kept"))) {
        SendState::Full(v) => assert_eq!(v, Value::Str(bv("kept"))),
        other => panic!("expected Full, got {:?}", other),
    }
    assert!(chan.queue.len() <= chan.limit.capacity());
}

#[test]
fn auto_limit_grows_under_fullness() {
    let mut chan = Channel::new(Limit::auto());
    for i in 0..5 {
        assert!(matches!(chan.try_send(Value::Int(i)), SendState::Success));
    }
    assert_eq!(chan.limit.capacity(), 5);
    assert!(matches!(chan.try_send(Value::Int(5)), SendState::Success));
    assert_eq!(chan.limit.capacity(), 6);
    assert!(chan.queue.len() <= chan.limit.capacity());
}

#[test]
fn channel_recv_is_fifo_and_detects_end() {
    let mut chan = Channel::new(Limit::Integer(3));
    chan.try_send(Value::Int(1));
    chan.try_send(Value::Int(2));
    match chan.recv() {
        RecvState::Value(v) => assert_eq!(v, Value::Int(1)),
        other => panic!("expected a value, got {:?}", other),
    }
    match chan.recv() {
        RecvState::Value(v) => assert_eq!(v, Value::Int(2)),
        other => panic!("expected a value, got {:?}", other),
    }
    assert!(matches!(chan.recv(), RecvState::Empty));
    chan.drop_sender();
    assert!(matches!(chan.recv(), RecvState::Disconnected));
}

#[test]
fn killer_first_message_wins() {
    let mut killer = TestKiller::new();
    assert!(killer.send(Err(TestError::KilledByLogger)));
    assert!(!killer.send(Ok(TestEndReason::Completed)));
    assert_eq!(killer.outcome, Some(Err(TestError::KilledByLogger)));
}

#[test]
fn logger_limit_without_kill_emits_exactly_limit_lines() {
    let mut lg = Logger::new(LogTarget::Stdout, Some(3), false, false);
    let mut emitted = 0;
    for _ in 0..5 {
        let step = lg.on_value(false);
        if step.render.is_some() {
            emitted += 1;
        }
        assert!(!step.kill);
    }
    assert_eq!(emitted, 3);
    assert_eq!(lg.written, 3);
    assert_eq!(lg.counter, 5);
}

#[test]
fn logger_limit_with_kill_fires_killer_at_the_edge() {
    let mut lg = Logger::new(LogTarget::Stderr, Some(3), false, true);
    let mut killer = TestKiller::new();
    let mut emitted = 0;
    let mut kills = 0;
    for _ in 0..5 {
        let step = lg.on_value(false);
        if step.render.is_some() {
            emitted += 1;
        }
        if step.kill {
            kills += 1;
            killer.send(Err(TestError::KilledByLogger));
        }
    }
    assert_eq!(emitted, 5);
    assert_eq!(kills, 1);
    assert_eq!(killer.outcome, Some(Err(TestError::KilledByLogger)));
}

#[test]
fn logger_rendering_is_the_same_for_every_destination() {
    let mut stdout_lg = Logger::new(LogTarget::Stdout, None, true, false);
    assert_eq!(stdout_lg.on_value(true).render, Some(Render::Text));
    assert_eq!(stdout_lg.on_value(false).render, Some(Render::PrettyJson));
    let mut file_lg = Logger::new(LogTarget::File("out.log".to_string()), None, false, false);
    assert_eq!(file_lg.on_value(true).render, Some(Render::Text));
    let mut file_pretty = Logger::new(LogTarget::File("out.log".to_string()), None, true, false);
    assert_eq!(file_pretty.on_value(true).render, Some(Render::Text));
    assert_eq!(file_pretty.on_value(false).render, Some(Render::PrettyJson));
}

#[test]
fn logger_file_destination_resolves_against_config() {
    let (lg, chan) = logger(
        LogTarget::File("out.log".to_string()),
        None,
        false,
        false,
        "/tmp/conf/load.yaml",
    );
    match lg.to {
        LogTarget::File(p) => assert_eq!(p, "/tmp/conf/out.log"),
        other => panic!("expected a file target, got {:?}", other),
    }
    assert_eq!(chan.limit.capacity(), 5);
}

#[test]
fn literals_cycle_round_robin() {
    let mut rs = RepeaterStream::new(vec![Value::Str(bv("a")), Value::Str(bv("b"))]);
    let mut seen = Vec::new();
    for _ in 0..6 {
        seen.push(rs.poll().unwrap());
    }
    assert_eq!(
        seen,
        vec![
            Value::Str(bv("a")),
            Value::Str(bv("b")),
            Value::Str(bv("a")),
            Value::Str(bv("b")),
            Value::Str(bv("a")),
            Value::Str(bv("b")),
        ]
    );
    let mut empty = RepeaterStream::new(Vec::new());
    assert_eq!(empty.poll(), None);
}

#[test]
fn file_source_without_repeat_emits_exactly_n_values() {
    let mut fs = FileSource::new(vec![Value::Int(1), Value::Int(2), Value::Int(3)], false);
    assert_eq!(fs.poll(), Some(Value::Int(1)));
    assert_eq!(fs.poll(), Some(Value::Int(2)));
    assert_eq!(fs.poll(), Some(Value::Int(3)));
    assert_eq!(fs.poll(), None);
    assert_eq!(fs.poll(), None);
}

#[test]
fn file_source_with_repeat_restarts() {
    let mut fs = FileSource::new(vec![Value::Int(1), Value::Int(2)], true);
    assert_eq!(fs.poll(), Some(Value::Int(1)));
    assert_eq!(fs.poll(), Some(Value::Int(2)));
    assert_eq!(fs.poll(), Some(Value::Int(1)));
    assert_eq!(fs.poll(), Some(Value::Int(2)));
}

#[test]
fn range_source_counts_once() {
    let mut rg = RangeSource::new(1, 3);
    assert_eq!(rg.poll(), Some(Value::Int(1)));
    assert_eq!(rg.poll(), Some(Value::Int(2)));
    assert_eq!(rg.poll(), Some(Value::Int(3)));
    assert_eq!(rg.poll(), None);
}

#[test]
fn provider_constructors_wire_sources() {
    let p = response(Some(SendBehavior::Force), Limit::Integer(4));
    assert!(matches!(p.source, Source::Nothing));
    assert_eq!(p.auto_return, Some(SendBehavior::Force));

    let mut p = literals(vec![Value::Int(7)], None);
    assert!(p.pump_step());
    match p.channel.recv() {
        RecvState::Value(v) => assert_eq!(v, Value::Int(7)),
        other => panic!("expected a value, got {:?}", other),
    }

    let mut p = range(10, 11);
    assert!(p.pump_step());
    assert!(p.pump_step());
    assert!(!p.pump_step());

    let mut p = loadcore::providers::file(vec![Value::Int(1)], false, None, Limit::Integer(2));
    assert!(p.pump_step());
    assert!(!p.pump_step());
}

#[test]
fn tweak_path_replaces_file_name() {
    let mut rest = "data.csv".to_string();
    loadcore::tweak_path(&mut rest, "/etc/load/config.yaml");
    assert_eq!(rest, "/etc/load/data.csv");

    let mut rest = "data.csv".to_string();
    loadcore::tweak_path(&mut rest, "config.yaml");
    assert_eq!(rest, "data.csv");

    // Trailing separators do not make a component; the name before
    // them is replaced.
    let mut rest = "data.csv".to_string();
    loadcore::tweak_path(&mut rest, "dir/");
    assert_eq!(rest, "data.csv");

    // `.` and `..` are kept, with the new name pushed after them.
    let mut rest = "data.csv".to_string();
    loadcore::tweak_path(&mut rest, ".");
    assert_eq!(rest, "./data.csv");

    let mut rest = "data.csv".to_string();
    loadcore::tweak_path(&mut rest, "a/..");
    assert_eq!(rest, "a/../data.csv");

    let mut rest = "data.csv".to_string();
    loadcore::tweak_path(&mut rest, "/");
    assert_eq!(rest, "/data.csv");

    // A trailing `.` segment normalises away: the real component
    // before it is the file name and is replaced.
    let mut rest = "data.csv".to_string();
    loadcore::tweak_path(&mut rest, "x/.");
    assert_eq!(rest, "data.csv");

    let mut rest = "data.csv".to_string();
    loadcore::tweak_path(&mut rest, "/dir/name/./");
    assert_eq!(rest, "/dir/data.csv");
}

#[test]
fn pretty_serialisation_is_multi_line_and_indented() {
    let v = Value::Object(vec![
        (bv("a"), Value::Array(vec![Value::Int(1), Value::Int(2)])),
        (bv("b"), Value::Str(bv("x"))),
    ]);
    assert_eq!(
        json_value_to_pretty_string(&v),
        "{\n  \"a\": [\n    1,\n    2\n  ],\n  \"b\": \"x\"\n}"
    );
    assert_eq!(
        json_value_to_pretty_string(&Value::Array(Vec::new())),
        "[]"
    );
    assert_eq!(json_value_to_pretty_string(&Value::Int(-3)), "-3");
}
