//! The worker pipeline on a simulated broker: end-to-end scenarios, the
//! acknowledge-after-publish discipline, and worker-count equivalence.

use opstream::NumberText;
use opstream::Operation;
use opstream::Request;
use opstream::ResultValue;
use opstream::Topic;
use opstream::parse_request;
use opstream::worker::FailureKind;
use opstream::worker::InboundMessage;
use opstream::worker::MessageOutcome;
use opstream::worker::WorkerInput;
use opstream::worker::process_message;
use opstream::worker::run_worker;
use opstream::DecodeError;

fn message(offset: u64, topic: &[u8], payload: &[u8]) -> InboundMessage {
    InboundMessage { offset, topic: topic.to_vec(), payload: payload.to_vec() }
}

/// Renders an evaluated result the way the runtime does: a finite value as
/// the number token a JSON serializer produces, NaN and the infinities as
/// the null fallback.
fn render(x: f64) -> ResultValue {
    match serde_json::Number::from_f64(x) {
        Some(n) => ResultValue::Number(
            NumberText::new(n.to_string().into_bytes()).expect("serializer emits number tokens"),
        ),
        None => ResultValue::Null,
    }
}

/// Evaluates the decoded operation the way the runtime does, in IEEE-754
/// double arithmetic.
fn evaluate(req: &Request) -> f64 {
    let Operation::Minus(l, r) = &req.op;
    let lv: f64 = std::str::from_utf8(&l.bytes).unwrap().parse().unwrap();
    let rv: f64 = std::str::from_utf8(&r.bytes).unwrap().parse().unwrap();
    lv - rv
}

/// The oracle the simulated broker feeds the pipeline: the evaluation for
/// the message (ignored when it cannot decode) and the publish verdict.
fn input_for(msg: InboundMessage, publish_ok: bool) -> WorkerInput {
    let eval = match Topic::from_name(&msg.topic) {
        Ok(t) => match parse_request(&t, &msg.payload) {
            Ok(req) => render(evaluate(&req)),
            Err(_) => ResultValue::Null,
        },
        Err(_) => ResultValue::Null,
    };
    WorkerInput { msg, eval, publish_ok }
}

#[test]
fn end_to_end_subtraction() {
    let msg = message(5, b"MINUS", br#"{"id": 42, "operands": [10.5, 3.25]}"#);
    let outcome = process_message(&input_for(msg, true));
    match outcome {
        MessageOutcome::Completed { record, offset } => {
            assert_eq!(offset, 5);
            assert_eq!(record.topic, Topic::Minus);
            assert_eq!(record.topic.output_topic(), "MINUS_RESULT");
            assert_eq!(record.payload, br#"{"id":42,"result":7.25}"#.to_vec());
        },
        _ => panic!("expected a completed message"),
    }
}

#[test]
fn short_payload_publishes_nothing_and_commits_nothing() {
    let inputs = vec![input_for(message(3, b"MINUS", br#"{"id": 7, "operands": [5]}"#), true)];
    let log = run_worker(&inputs);
    assert!(log.published.is_empty());
    assert!(log.committed.is_empty());
    assert_eq!(log.reports.len(), 1);
    assert_eq!(log.reports[0].kind, FailureKind::Decode(DecodeError::Arity { found: 1 }));
    assert_eq!(log.reports[0].topic, b"MINUS".to_vec());
    assert_eq!(log.reports[0].id, None);
    assert_eq!(log.reports[0].offset, 3);
}

#[test]
fn unknown_channel_is_reported_and_dropped() {
    let inputs = vec![input_for(message(1, b"TIMES", br#"{"id": 1, "operands": [1, 2]}"#), true)];
    let log = run_worker(&inputs);
    assert!(log.published.is_empty());
    assert!(log.committed.is_empty());
    assert_eq!(log.reports.len(), 1);
    assert_eq!(log.reports[0].kind, FailureKind::UnknownChannelName);
    assert_eq!(log.reports[0].topic, b"TIMES".to_vec());
}

#[test]
fn failed_publish_leaves_offset_uncommitted() {
    let payload: &[u8] = br#"{"id": 42, "operands": [10.5, 3.25]}"#;
    let failed = run_worker(&vec![input_for(message(9, b"MINUS", payload), false)]);
    assert!(failed.committed.is_empty());
    assert!(failed.published.is_empty());
    assert_eq!(failed.reports.len(), 1);
    assert_eq!(failed.reports[0].kind, FailureKind::Publish);
    assert_eq!(failed.reports[0].id, Some(42));
    assert_eq!(failed.reports[0].offset, 9);

    let confirmed = run_worker(&vec![input_for(message(9, b"MINUS", payload), true)]);
    assert_eq!(confirmed.committed, vec![9]);
    assert_eq!(confirmed.published.len(), 1);
    assert!(confirmed.reports.is_empty());
}

#[test]
fn offsets_commit_in_input_order() {
    let inputs = vec![
        input_for(message(10, b"MINUS", br#"{"id": 1, "operands": [3, 1]}"#), true),
        input_for(message(11, b"MINUS", b"broken"), true),
        input_for(message(12, b"MINUS", br#"{"id": 2, "operands": [8, 5]}"#), true),
        input_for(message(13, b"MINUS", br#"{"id": 3, "operands": [1, 1]}"#), false),
        input_for(message(14, b"MINUS", br#"{"id": 4, "operands": [9, 9]}"#), true),
    ];
    let log = run_worker(&inputs);
    assert_eq!(log.committed, vec![10, 12, 14]);
    assert_eq!(log.published.len(), 3);
    assert_eq!(log.reports.len(), 2);
}

#[test]
fn ieee_semantics_flow_through_the_pipeline() {
    let cases: Vec<(&[u8], f64)> = vec![
        (br#"{"id": 1, "operands": [10.5, 3.25]}"#, 10.5 - 3.25),
        (br#"{"id": 2, "operands": [0.0, -0.0]}"#, 0.0 - (-0.0)),
        (br#"{"id": 3, "operands": [1e309, 1.0]}"#, f64::INFINITY - 1.0),
        (br#"{"id": 4, "operands": [1e309, 1e309]}"#, f64::INFINITY - f64::INFINITY),
        (br#"{"id": 5, "operands": [-1e309, 1e309]}"#, f64::NEG_INFINITY - f64::INFINITY),
        (br#"{"id": 6, "operands": [0.1, 0.2]}"#, 0.1 - 0.2),
    ];
    for (payload, expected) in cases {
        let outcome = process_message(&input_for(message(0, b"MINUS", payload), true));
        let record = match outcome {
            MessageOutcome::Completed { record, .. } => record,
            _ => panic!("expected a completed message for {:?}", String::from_utf8_lossy(payload)),
        };
        let v: serde_json::Value = serde_json::from_slice(&record.payload).expect("well-formed");
        if expected.is_nan() || expected.is_infinite() {
            assert!(v.get("result").expect("member present").is_null());
        } else {
            assert_eq!(v.get("result").and_then(|x| x.as_f64()), Some(expected));
        }
    }
}

#[test]
fn worker_count_does_not_change_published_content() {
    let mut payloads: Vec<Vec<u8>> = Vec::new();
    for i in 0..8u64 {
        payloads.push(
            format!("{{\"id\": {}, \"operands\": [{}, {}]}}", i, i * 3, i + 1).into_bytes(),
        );
    }
    payloads[2] = b"broken".to_vec();
    payloads[6] = br#"{"id": 6, "operands": [1]}"#.to_vec();

    let build = |range: std::ops::Range<usize>| -> Vec<WorkerInput> {
        range
            .map(|i| input_for(message(i as u64, b"MINUS", &payloads[i]), i != 5))
            .collect()
    };

    let single = run_worker(&build(0..8));

    let mut pooled: Vec<Vec<u8>> = Vec::new();
    let mut pooled_commits: Vec<u64> = Vec::new();
    for chunk in [build(0..2), build(2..4), build(4..6), build(6..8)] {
        let log = run_worker(&chunk);
        pooled.extend(log.published.into_iter().map(|r| r.payload));
        pooled_commits.extend(log.committed);
    }

    let mut single_payloads: Vec<Vec<u8>> =
        single.published.into_iter().map(|r| r.payload).collect();
    single_payloads.sort();
    pooled.sort();
    assert_eq!(single_payloads, pooled);

    let mut single_commits = single.committed;
    single_commits.sort();
    pooled_commits.sort();
    assert_eq!(single_commits, pooled_commits);
}
