use loadcore::body::{
    body_empty, body_text, build_multipart, multipart_boundary, BodyChunk, BodyTemplate,
    RenderedPiece,
};
use loadcore::channel::{Channel, Limit, RecvState};
use loadcore::json::Value;
use loadcore::logger::Logger;
use loadcore::providers::{response, SendBehavior};
use loadcore::error::RecoverableError;
use loadcore::stats::{tick_outcome_message, StatsMessage, StatsSink};
use loadcore::request::{
    ensure_host_header, handle_response, headers_object, provider_stream_item,
    response_body_value, start_line, url_authority, template_values_from_items, AutoReturn,
    BlockSender, Builder, BuilderContext, EndpointConfig, GateDecision, Method, OdPoll,
    OnDemandGate, OutTarget, ParallelDriver, StreamItem, StreamSpec, Template, TemplateValues,
    RESPONSE_BODY, RESPONSE_HEADERS, RESPONSE_STARTLINE, STATS,
};

fn bv(s: &str) -> Vec<u8> {
    s.as_bytes().to_vec()
}

fn tmpl(s: &str) -> Template {
    Template(s.to_string())
}

#[test]
fn template_values_insert_and_overwrite() {
    let mut env = TemplateValues::new();
    env.insert(bv("a"), Value::Int(1));
    env.insert(bv("b"), Value::Int(2));
    env.insert(bv("a"), Value::Int(3));
    assert_eq!(
        env.as_json(),
        &Value::Object(vec![(bv("a"), Value::Int(3)), (bv("b"), Value::Int(2))])
    );
}

#[test]
fn env_assembly_collects_names_and_guards() {
    let items = vec![
        StreamItem::TemplateValue(
            bv("ids"),
            Value::Int(1),
            Some(AutoReturn::new(SendBehavior::Block, 0, vec![Value::Int(1)])),
        ),
        StreamItem::Pace,
        StreamItem::Declare(bv("d"), Value::Str(bv("x")), Vec::new()),
    ];
    let (env, guards) = template_values_from_items(items);
    assert_eq!(
        env.as_json(),
        &Value::Object(vec![(bv("ids"), Value::Int(1)), (bv("d"), Value::Str(bv("x")))])
    );
    assert_eq!(guards.len(), 1);
}

#[test]
fn auto_return_block_preserves_values_in_order() {
    let mut chan = Channel::new(Limit::Integer(2));
    chan.try_send(Value::Int(9));
    let mut guard = AutoReturn::new(
        SendBehavior::Block,
        0,
        vec![Value::Str(bv("t1")), Value::Str(bv("t2"))],
    );
    guard.execute(&mut chan);
    assert!(guard.consumed);
    match chan.recv() {
        RecvState::Value(v) => assert_eq!(v, Value::Int(9)),
        other => panic!("expected a value, got {:?}", other),
    }
    match chan.recv() {
        RecvState::Value(v) => assert_eq!(v, Value::Str(bv("t1"))),
        other => panic!("expected a value, got {:?}", other),
    }
    match chan.recv() {
        RecvState::Value(v) => assert_eq!(v, Value::Str(bv("t2"))),
        other => panic!("expected a value, got {:?}", other),
    }
}

#[test]
fn auto_return_consumed_is_a_no_op() {
    let mut chan = Channel::new(Limit::Integer(2));
    let mut guard = AutoReturn::new(SendBehavior::Block, 0, vec![Value::Int(5)]);
    guard.consume();
    guard.execute(&mut chan);
    assert!(matches!(chan.recv(), RecvState::Empty));
}

#[test]
fn auto_return_force_replaces_oldest() {
    let mut chan = Channel::new(Limit::Integer(1));
    chan.try_send(Value::Int(1));
    let mut guard = AutoReturn::new(SendBehavior::Force, 0, vec![Value::Int(2)]);
    guard.execute(&mut chan);
    match chan.recv() {
        RecvState::Value(v) => assert_eq!(v, Value::Int(2)),
        other => panic!("expected a value, got {:?}", other),
    }
}

#[test]
fn block_sender_pauses_at_capacity_and_resumes() {
    let mut chan = Channel::new(Limit::Integer(2));
    let mut sender = BlockSender::new(
        vec![Value::Int(1), Value::Int(2), Value::Int(3)],
        Some(0),
    );
    let finished = sender.poll(&mut chan);
    assert!(!finished);
    assert!(sender.value_added);
    assert_eq!(chan.queue.len(), 2);
    match chan.recv() {
        RecvState::Value(v) => assert_eq!(v, Value::Int(1)),
        other => panic!("expected a value, got {:?}", other),
    }
    let finished = sender.poll(&mut chan);
    assert!(finished);
    assert_eq!(chan.queue.len(), 2);
}

#[test]
fn parallel_driver_enforces_ceiling() {
    let mut d = ParallelDriver::new(Some(2));
    assert!(d.can_dispatch(true));
    d.dispatch();
    d.dispatch();
    assert!(!d.can_dispatch(true));
    assert!(!d.can_dispatch(false));
    d.complete();
    assert!(d.can_dispatch(true));
    assert!(d.in_flight <= 2);
}

#[test]
fn on_demand_gate_requires_trigger_per_tick() {
    let mut gate = OnDemandGate::new(true);
    assert_eq!(
        gate.step(OdPoll::Pending, loadcore::request::ZipPoll::Item),
        GateDecision::Wait
    );
    assert_eq!(
        gate.step(OdPoll::Trigger, loadcore::request::ZipPoll::Item),
        GateDecision::Tick
    );
    assert_eq!(
        gate.step(OdPoll::Pending, loadcore::request::ZipPoll::Item),
        GateDecision::Wait
    );
}

#[test]
fn endpoint_build_wires_captures_and_terminates_on_no_receivers() {
    let ctx = BuilderContext {
        providers: vec![
            (bv("ids"), response(None, Limit::Integer(2))),
            (bv("capture"), response(Some(SendBehavior::Block), Limit::Integer(2))),
        ],
        loggers: vec![(bv("out"), Logger::new(loadcore::logger::LogTarget::Stdout, None, false, false))],
        killer: loadcore::killer::TestKiller::new(),
    };
    let cfg = EndpointConfig {
        method: Method::Get,
        url: tmpl("http://h/{ids}"),
        headers: Vec::new(),
        body: BodyTemplate::Empty,
        provides: vec![(bv("capture"), SendBehavior::Block)],
        logs: vec![(bv("out"), SendBehavior::NoOp)],
        providers_to_stream: vec![bv("ids")],
        declare: Vec::new(),
        on_demand: false,
        no_auto_returns: false,
        max_parallel_requests: Some(4),
        rr_providers: 0,
        precheck_rr_providers: 0,
        tags: Vec::new(),
        timeout_ms: 1000,
    };
    let mut ep = Builder::new(cfg, false).build(&ctx);
    assert_eq!(ep.provides.len(), 1);
    assert_eq!(ep.provides[0].target, OutTarget::Provider(1));
    assert_eq!(ep.limits, vec![1]);
    assert_eq!(ep.outgoing.len(), 1);
    assert_eq!(ep.outgoing[0].target, OutTarget::Logger(0));
    assert!(matches!(ep.streams[0], StreamSpec::Sentinel(_)));
    assert!(matches!(ep.streams[1], StreamSpec::Provider(0)));

    ep.add_start_stream();
    assert_eq!(ep.streams[0], StreamSpec::Start);
    ep.clear_provides();
    assert_eq!(ep.provides.len(), 0);

    let mut fut = ep.into_future();
    assert!(!fut.gate.active);
    // The sentinel ends the zip once every provided channel loses its
    // receivers, and the endpoint is done.
    let zip = loadcore::request::EndpointFuture::sentinel_poll(true);
    let r = fut.poll_step(OdPoll::Pending, zip);
    assert_eq!(r, GateDecision::EndOfStream);
    assert!(fut.done);
}

#[test]
fn multipart_length_matches_streamed_bytes() {
    let pieces = vec![
        RenderedPiece {
            name: bv("note"),
            is_file: false,
            headers: Vec::new(),
            body: bv("hello"),
            file_len: 0,
        },
        RenderedPiece {
            name: bv("f"),
            is_file: true,
            headers: Vec::new(),
            body: bv("payload.bin"),
            file_len: 10,
        },
    ];
    let boundary = bv("BBBBBBBBBBBBBBBBBBBB");
    let built = build_multipart(&pieces, &boundary, None, true).unwrap();
    let mut streamed: u64 = 0;
    for chunk in &built.chunks {
        streamed += match chunk {
            BodyChunk::Inline(b) => b.len() as u64,
            BodyChunk::FileRef(_, len) => *len,
        };
    }
    assert_eq!(built.content_length, streamed);
    let ct = built.content_type.unwrap();
    assert_eq!(
        ct,
        bv("multipart/form-data;boundary=BBBBBBBBBBBBBBBBBBBB")
    );
    match &built.chunks[0] {
        BodyChunk::Inline(b) => {
            let text = String::from_utf8(b.clone()).unwrap();
            assert!(text.starts_with("--BBBBBBBBBBBBBBBBBBBB\r\n"));
            assert!(text.contains("content-disposition: form-data; name=\"note\""));
            assert!(text.ends_with("\r\n\r\nhello"));
        }
        other => panic!("expected inline bytes, got {:?}", other),
    }
    match &built.chunks[2] {
        BodyChunk::FileRef(path, len) => {
            assert_eq!(path, &bv("payload.bin"));
            assert_eq!(*len, 10);
        }
        other => panic!("expected a file chunk, got {:?}", other),
    }
    let body_value = String::from_utf8(built.body_value.unwrap()).unwrap();
    assert!(body_value.contains("<<contents of file: payload.bin>>"));
    assert!(body_value.ends_with("\r\n--BBBBBBBBBBBBBBBBBBBB--\r\n"));
}

#[test]
fn multipart_content_type_keeps_an_existing_boundary() {
    let pieces = vec![RenderedPiece {
        name: bv("a"),
        is_file: false,
        headers: Vec::new(),
        body: bv("v"),
        file_len: 0,
    }];
    let boundary = bv("CCCCCCCCCCCCCCCCCCCC");
    // A multipart type that already carries a boundary is left alone.
    let built = build_multipart(
        &pieces,
        &boundary,
        Some(bv("multipart/form-data;boundary=x")),
        false,
    )
    .unwrap();
    assert_eq!(built.content_type.unwrap(), bv("multipart/form-data;boundary=x"));
    // One without a boundary gains this body's.
    let built = build_multipart(&pieces, &boundary, Some(bv("multipart/mixed")), false).unwrap();
    assert_eq!(
        built.content_type.unwrap(),
        bv("multipart/mixed;boundary=CCCCCCCCCCCCCCCCCCCC")
    );
    // A non-multipart type is replaced outright.
    let built = build_multipart(&pieces, &boundary, Some(bv("text/plain")), false).unwrap();
    assert_eq!(
        built.content_type.unwrap(),
        bv("multipart/form-data;boundary=CCCCCCCCCCCCCCCCCCCC")
    );
}

#[test]
fn stream_items_honour_no_auto_returns() {
    let item = provider_stream_item(bv("ids"), Value::Int(1), Some(SendBehavior::Block), 2, false);
    match item {
        StreamItem::TemplateValue(n, v, Some(g)) => {
            assert_eq!(n, bv("ids"));
            assert_eq!(v, Value::Int(1));
            assert_eq!(g.send_behavior, SendBehavior::Block);
            assert_eq!(g.provider_index, 2);
            assert_eq!(g.values, vec![Value::Int(1)]);
            assert!(!g.consumed);
        }
        _ => panic!("expected a guarded value"),
    }
    let item = provider_stream_item(bv("ids"), Value::Int(1), Some(SendBehavior::Block), 2, true);
    assert!(matches!(item, StreamItem::TemplateValue(_, _, None)));
    let item = provider_stream_item(bv("ids"), Value::Int(1), None, 2, false);
    assert!(matches!(item, StreamItem::TemplateValue(_, _, None)));
}

#[test]
fn stats_sink_records_every_tick_outcome() {
    let mut sink = StatsSink::new();
    sink.send(StatsMessage::RequestStarted { endpoint_id: 0, tags: Vec::new(), time_ms: 10 });
    sink.send(tick_outcome_message(0, Vec::new(), Ok((200, 1500))));
    sink.send(tick_outcome_message(0, Vec::new(), Err(RecoverableError::Timeout)));
    assert_eq!(sink.messages.len(), 3);
    assert_eq!(
        sink.messages[1],
        StatsMessage::RequestCompleted { endpoint_id: 0, tags: Vec::new(), rtt_micros: 1500, status: 200 }
    );
    assert_eq!(
        sink.messages[2],
        StatsMessage::RequestErrored { endpoint_id: 0, tags: Vec::new(), kind: RecoverableError::Timeout }
    );
}

#[test]
fn plain_bodies_report_exact_lengths() {
    let b = body_empty();
    assert_eq!(b.content_length, 0);
    assert_eq!(b.chunks.len(), 0);
    let b = body_text(bv("hello"), true);
    assert_eq!(b.content_length, 5);
    assert_eq!(b.body_value, Some(bv("hello")));
    let boundary = multipart_boundary();
    assert_eq!(boundary.len(), 20);
    assert!(boundary.iter().all(|c| c.is_ascii_alphanumeric()));
}

#[test]
fn on_demand_pacer_emits_one_trigger_per_ack() {
    let mut od = loadcore::channel::OnDemand::new();
    assert!(!od.poll_trigger(true));
    od.signal_demand();
    assert!(!od.poll_trigger(false));
    assert!(od.poll_trigger(true));
    // No second trigger before the acknowledgement arrives.
    od.signal_demand();
    assert!(!od.poll_trigger(true));
    // A negative acknowledgement re-arms the trigger at once.
    od.ack(false);
    assert!(od.poll_trigger(true));
    od.ack(true);
    assert!(!od.poll_trigger(true));
}

#[test]
fn response_handler_populates_masked_sections() {
    let line = start_line(&bv("HTTP/1.1"), 200, &bv("OK"));
    assert_eq!(line, bv("HTTP/1.1 200 OK"));

    let obj = headers_object(vec![
        (bv("set-cookie"), bv("a=1")),
        (bv("content-type"), bv("text/plain")),
        (bv("set-cookie"), bv("b=2")),
    ]);
    assert_eq!(
        obj,
        Value::Object(vec![
            (
                bv("set-cookie"),
                Value::Array(vec![Value::Str(bv("a=1")), Value::Str(bv("b=2"))])
            ),
            (bv("content-type"), Value::Str(bv("text/plain"))),
        ])
    );

    let mut env = TemplateValues::new();
    handle_response(
        &mut env,
        RESPONSE_STARTLINE | RESPONSE_HEADERS | RESPONSE_BODY | STATS,
        bv("HTTP/1.1"),
        404,
        bv("Not Found"),
        vec![(bv("content-type"), bv("application/json"))],
        Value::Object(vec![(bv("ok"), Value::Bool(false))]),
        2500,
    );
    assert_eq!(
        env.as_json(),
        &Value::Object(vec![
            (bv("response.start-line"), Value::Str(bv("HTTP/1.1 404 Not Found"))),
            (
                bv("response.headers"),
                Value::Object(vec![(bv("content-type"), Value::Str(bv("application/json")))])
            ),
            (bv("response.body"), Value::Object(vec![(bv("ok"), Value::Bool(false))])),
            (bv("stats.rtt"), Value::Int(2500)),
        ])
    );
}

#[test]
fn block_capture_backpressure_scenario() {
    // A capture provider with capacity 2 and no consumer: after two
    // captures the target is full and tick intake must pause; one
    // drained value opens exactly one slot.
    let mut capture = response(Some(SendBehavior::Block), Limit::Integer(2));
    let mut driver = ParallelDriver::new(None);
    for n in 0..2 {
        let open = capture.channel.queue.len() < capture.channel.limit.capacity();
        assert!(driver.can_dispatch(open));
        driver.dispatch();
        let mut sender = BlockSender::new(vec![Value::Int(n)], None);
        assert!(sender.poll(&mut capture.channel));
        driver.complete();
    }
    let open = capture.channel.queue.len() < capture.channel.limit.capacity();
    assert!(!driver.can_dispatch(open));
    match capture.channel.recv() {
        RecvState::Value(v) => assert_eq!(v, Value::Int(0)),
        other => panic!("expected a value, got {:?}", other),
    }
    let open = capture.channel.queue.len() < capture.channel.limit.capacity();
    assert!(driver.can_dispatch(open));
}

#[test]
fn host_header_derives_from_url_authority() {
    assert_eq!(
        url_authority(&bv("http://example.com:8080/path?q=1")),
        Some(bv("example.com:8080"))
    );
    assert_eq!(url_authority(&bv("no-authority")), None);

    let mut headers = vec![(bv("accept"), bv("*/*"))];
    ensure_host_header(&mut headers, &bv("http://h.example/x"));
    assert_eq!(headers.last().unwrap(), &(bv("host"), bv("h.example")));

    let mut headers = vec![(bv("host"), bv("fixed"))];
    ensure_host_header(&mut headers, &bv("http://h.example/x"));
    assert_eq!(headers, vec![(bv("host"), bv("fixed"))]);
}

#[test]
fn literal_and_range_zip_scenario() {
    // Two providers zipped per tick: a round-robin over names and a
    // finite range of ids. The range ends after three values, and
    // with it the endpoint's stream.
    let mut names = loadcore::providers::literals(
        vec![Value::Str(bv("a")), Value::Str(bv("b"))],
        None,
    );
    let mut ids = loadcore::providers::range(1, 3);
    let mut seen = Vec::new();
    loop {
        while ids.pump_step() {}
        while names.pump_step() {}
        let id = match ids.channel.recv() {
            RecvState::Value(v) => v,
            _ => break,
        };
        let name = match names.channel.recv() {
            RecvState::Value(v) => v,
            _ => break,
        };
        let items = vec![
            StreamItem::TemplateValue(bv("ids"), id, None),
            StreamItem::TemplateValue(bv("names"), name, None),
        ];
        let (env, guards) = template_values_from_items(items);
        assert!(guards.is_empty());
        seen.push(loadcore::json::json_value_to_string(env.as_json()));
    }
    assert_eq!(
        seen,
        vec![
            "{\"ids\":1,\"names\":\"a\"}".to_string(),
            "{\"ids\":2,\"names\":\"b\"}".to_string(),
            "{\"ids\":3,\"names\":\"a\"}".to_string(),
        ]
    );
}

#[test]
fn block_sender_finish_surrenders_the_ack_once() {
    let mut chan = Channel::new(Limit::Integer(2));
    let mut sender = BlockSender::new(vec![Value::Int(1)], Some(3));
    let ack = sender.finish(&mut chan);
    assert_eq!(ack, Some((3, true)));
    assert_eq!(sender.finish(&mut chan), None);

    let mut empty = BlockSender::new(Vec::new(), Some(4));
    assert_eq!(empty.finish(&mut chan), Some((4, false)));
}

#[test]
fn poll_step_holds_a_trigger_across_a_pending_zip() {
    let mut fut = loadcore::request::EndpointFuture {
        gate: OnDemandGate::new(true),
        driver: ParallelDriver::new(None),
        outgoing: Vec::new(),
        done: false,
        limits: Vec::new(),
        no_auto_returns: false,
        streams: Vec::new(),
        timeout_ms: 0,
    };
    // The trigger arrives while the zip is not ready: it is held.
    assert_eq!(
        fut.poll_step(OdPoll::Trigger, loadcore::request::ZipPoll::Pending),
        GateDecision::Wait
    );
    assert!(fut.gate.od_continue);
    // The held trigger pays for exactly one tick.
    assert_eq!(
        fut.poll_step(OdPoll::Pending, loadcore::request::ZipPoll::Item),
        GateDecision::Tick
    );
    assert!(!fut.gate.od_continue);
    assert_eq!(
        fut.poll_step(OdPoll::Pending, loadcore::request::ZipPoll::Item),
        GateDecision::Wait
    );
    // The zip ending under a trigger ends the endpoint.
    assert_eq!(
        fut.poll_step(OdPoll::Trigger, loadcore::request::ZipPoll::End),
        GateDecision::EndOfStream
    );
    assert!(fut.done);
}

#[test]
fn response_body_parses_per_content_type() {
    let ct = bv("application/json; charset=utf-8");
    assert_eq!(
        response_body_value(Some(&ct), bv("{\"ok\":true}")),
        Value::Object(vec![(bv("ok"), Value::Bool(true))])
    );
    // A parse failure falls back to the raw text.
    assert_eq!(
        response_body_value(Some(&ct), bv("not json")),
        Value::Str(bv("not json"))
    );
    // Any other type is text.
    assert_eq!(
        response_body_value(Some(&bv("text/plain")), bv("123")),
        Value::Str(bv("123"))
    );
    assert_eq!(response_body_value(None, bv("123")), Value::Str(bv("123")));
}
