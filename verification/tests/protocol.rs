use runpy::protocol::{
    encode_frame, frame_header, frame_length, inbound_step, validate_direction, validate_wire_meta,
    HandlerSlot, InboundStep,
};
use runpy::{Data, Envelope, EnvelopeError, LogLevel, Meta, ReadFailure};
use serde_json::Value;

fn text(s: &str) -> Value {
    Value::String(s.to_string())
}

fn object(entries: &[(&str, Value)]) -> Data {
    let mut map = Data::new();
    for (key, value) in entries {
        map.insert(key.to_string(), value.clone());
    }
    map
}

fn custom_envelope() -> Envelope {
    let meta = object(&[("some_custom_meta", Value::from(42))]);
    Envelope::new(meta, object(&[("some", text("data"))])).unwrap()
}

#[test]
fn deserializes_heterogeneous_metadata_and_data() {
    let envelope = Envelope::from_wire(
        object(&[
            ("x_wid", text("hsajyh3266")),
            ("x_spath", text("/tmp/some/socket.sock")),
            ("some_custom_meta", Value::from(42)),
        ]),
        object(&[("some", text("data"))]),
    )
    .unwrap();

    assert_eq!(envelope.meta()["some_custom_meta"], 42);
    assert_eq!(envelope.data()["some"], "data");
}

#[test]
fn rejects_invalid_reserved_metadata() {
    for meta in [
        object(&[("x_custom", Value::Bool(true))]),
        object(&[("x_wid", Value::from(42))]),
        object(&[("x_spath", Value::Array(vec![]))]),
        object(&[("x_op", Value::from(42))]),
        object(&[("x_op", text("unknown"))]),
    ] {
        assert!(
            Envelope::from_wire(meta, Data::new()).is_err(),
            "invalid reserved metadata was accepted"
        );
    }
}

#[test]
fn custom_constructor_rejects_reserved_namespace() {
    let meta = object(&[("x_wid", text("spoofed"))]);

    assert_eq!(
        Envelope::new(meta, Data::new()),
        Err(EnvelopeError::ReservedMetadata("x_wid".into()))
    );
}

#[test]
fn lifecycle_constructors_use_direct_data() {
    let execute = Envelope::execute(object(&[("task", text("scrape"))]));
    assert_eq!(execute.meta()["x_op"], "execute");
    assert_eq!(execute.data()["task"], "scrape");

    assert_eq!(Envelope::retry().meta()["x_op"], "retry");
    assert!(Envelope::retry().data().is_empty());
    assert_eq!(Envelope::terminate().meta()["x_op"], "terminate");
    assert!(Envelope::terminate().data().is_empty());
}

#[test]
fn clone_is_independent() {
    let source = custom_envelope();
    let cloned = source.clone();
    assert_eq!(source, cloned);
}

#[test]
fn wire_errors_name_the_least_faulty_key() {
    assert_eq!(
        validate_wire_meta(&object(&[("x_zeta", Value::Null), ("x_alpha", Value::Null)])),
        Err(EnvelopeError::UnknownReservedMetadata("x_alpha".into()))
    );
    assert_eq!(
        validate_wire_meta(&object(&[("x_op", text("launch")), ("x_wid", Value::Null)])),
        Err(EnvelopeError::InvalidOperation("launch".into()))
    );
    assert_eq!(
        validate_wire_meta(&object(&[("x_wid", Value::Null), ("x_spath", text("/s"))])),
        Err(EnvelopeError::InvalidReservedMetadata("x_wid".into()))
    );
    assert_eq!(
        validate_wire_meta(&object(&[("x_op", Value::Bool(false))])),
        Err(EnvelopeError::InvalidReservedMetadata("x_op".into()))
    );
    assert_eq!(
        validate_wire_meta(&object(&[("x_op", text("log")), ("plain", Value::Null)])),
        Ok(())
    );
}

#[test]
fn constructor_names_the_least_reserved_key() {
    let meta = object(&[("x_b", Value::Null), ("x_a", Value::Null), ("ok", Value::Null)]);
    assert_eq!(
        Envelope::new(meta, Data::new()),
        Err(EnvelopeError::ReservedMetadata("x_a".into()))
    );
}

#[test]
fn inbound_envelopes_carry_trusted_identity() {
    let received = Envelope::from_wire(
        object(&[
            ("x_op", text("ready")),
            ("x_wid", text("spoofed")),
            ("x_spath", text("/tmp/spoofed.sock")),
        ]),
        object(&[("source", text("first"))]),
    )
    .unwrap();
    let accepted = received
        .accept_inbound("worker-a", "/tmp/runpy/rp_worker-a.sock")
        .unwrap();
    assert_eq!(accepted.meta()["x_wid"], "worker-a");
    assert_eq!(accepted.meta()["x_spath"], "/tmp/runpy/rp_worker-a.sock");
    assert_eq!(accepted.meta()["x_op"], "ready");
    assert_eq!(accepted.data()["source"], "first");
}

#[test]
fn wrong_direction_is_refused() {
    let error = Envelope::execute(Data::new())
        .accept_inbound("worker", "/s")
        .unwrap_err();
    assert_eq!(
        error,
        EnvelopeError::WrongDirection {
            operation: "execute".into(),
            direction: "worker-to-manager",
        }
    );
    assert_eq!(
        error.message(),
        "Runpy operation 'execute' is invalid for worker-to-manager envelopes"
    );
    let ready = Envelope::from_wire(object(&[("x_op", text("ready"))]), Data::new()).unwrap();
    assert!(matches!(
        ready.prepare_outbound("worker", "/s"),
        Err(EnvelopeError::WrongDirection { direction: "manager-to-worker", .. })
    ));
}

#[test]
fn custom_envelopes_travel_both_ways() {
    assert!(custom_envelope().validate_manager_to_worker().is_ok());
    assert!(custom_envelope().validate_worker_to_manager().is_ok());
    let outbound = custom_envelope().prepare_outbound("w", "/p").unwrap();
    assert_eq!(outbound.meta()["x_wid"], "w");
    assert_eq!(outbound.meta()["some_custom_meta"], 42);
}

#[test]
fn direction_check_accepts_listed_operations() {
    let allowed = ["execute", "retry", "terminate"];
    assert_eq!(validate_direction(None, &allowed, "manager-to-worker"), Ok(()));
    assert_eq!(validate_direction(Some("retry"), &allowed, "manager-to-worker"), Ok(()));
    assert_eq!(
        validate_direction(Some("done"), &allowed, "manager-to-worker"),
        Err(EnvelopeError::WrongDirection {
            operation: "done".into(),
            direction: "manager-to-worker",
        })
    );
}

#[test]
fn operation_ignores_non_string_values() {
    let envelope = Envelope::from_wire(Meta::new(), Data::new()).unwrap();
    assert_eq!(envelope.operation(), None);
    assert_eq!(Envelope::retry().operation(), Some("retry".to_string()));
}

#[test]
fn error_messages() {
    assert_eq!(
        EnvelopeError::ReservedMetadata("x_wid".into()).message(),
        "metadata key 'x_wid' is reserved by Runpy"
    );
    assert_eq!(
        EnvelopeError::UnknownReservedMetadata("x_a".into()).message(),
        "unknown Runpy metadata key 'x_a'"
    );
    assert_eq!(
        EnvelopeError::InvalidReservedMetadata("x_op".into()).message(),
        "Runpy metadata 'x_op' must be a string"
    );
    assert_eq!(
        EnvelopeError::InvalidOperation("x".into()).message(),
        "unknown Runpy operation 'x'"
    );
}

#[test]
fn frame_header_is_little_endian() {
    assert_eq!(frame_header(0), [0; 8]);
    assert_eq!(frame_header(258), [2, 1, 0, 0, 0, 0, 0, 0]);
    assert_eq!(frame_header(u64::MAX), [255; 8]);
    for n in [0u64, 1, 255, 256, 65_535, 1 << 40, u64::MAX] {
        assert_eq!(frame_header(n), n.to_le_bytes());
        assert_eq!(frame_length(&frame_header(n)), n);
    }
}

#[test]
fn frames_prefix_the_payload_length() {
    let payload = b"{\"meta\":{},\"data\":{}}";
    let frame = encode_frame(payload);
    assert_eq!(frame.len(), payload.len() + 8);
    let mut header = [0u8; 8];
    header.copy_from_slice(&frame[..8]);
    assert_eq!(frame_length(&header), payload.len() as u64);
    assert_eq!(&frame[8..], payload);
    assert_eq!(encode_frame(&[]), vec![0u8; 8]);
}

#[test]
fn read_failures_map_to_severities() {
    assert_eq!(ReadFailure::UnexpectedEof.severity(), None);
    assert_eq!(ReadFailure::ConnectionReset.severity(), Some(LogLevel::Debug));
    assert_eq!(ReadFailure::BrokenPipe.severity(), Some(LogLevel::Debug));
    assert_eq!(ReadFailure::Other.severity(), Some(LogLevel::Error));
}

#[test]
fn read_failures_log_their_messages() {
    assert_eq!(ReadFailure::UnexpectedEof.log_entry("eof"), None);
    assert_eq!(
        ReadFailure::ConnectionReset.log_entry("reset"),
        Some((LogLevel::Debug, "Connection reset by peer".to_string()))
    );
    assert_eq!(
        ReadFailure::BrokenPipe.log_entry("pipe"),
        Some((LogLevel::Debug, "Broken pipe - peer closed unexpectedly".to_string()))
    );
    assert_eq!(
        ReadFailure::Other.log_entry("timed out (kind: TimedOut)"),
        Some((LogLevel::Error, "Read error: timed out (kind: TimedOut)".to_string()))
    );
}

#[test]
fn stamping_keeps_non_string_metadata() {
    let received = Envelope::from_wire(
        object(&[
            ("x_wid", text("forged")),
            ("x_op", text("done")),
            ("correlation_id", Value::from(42)),
            ("tags", Value::from(vec![1, 2])),
        ]),
        object(&[("result", text("ok"))]),
    )
    .unwrap();
    let stamped = received.accept_inbound("worker-1", "/tmp/runpy/rp_worker-1.sock").unwrap();
    assert_eq!(stamped.meta().get("correlation_id"), Some(&Value::from(42)));
    assert_eq!(stamped.meta().get("tags"), Some(&Value::from(vec![1, 2])));
    assert_eq!(stamped.meta().get("x_wid"), Some(&text("worker-1")));
    assert_eq!(
        stamped.meta().get("x_spath"),
        Some(&text("/tmp/runpy/rp_worker-1.sock"))
    );
    assert_eq!(stamped.data().get("result"), Some(&text("ok")));
}

#[test]
fn inbound_step_delivers_to_global_then_worker_handler() {
    let received = Envelope::from_wire(
        object(&[("x_op", text("ready")), ("correlation_id", Value::from(7))]),
        Data::new(),
    )
    .unwrap();
    match inbound_step(received, "w", "/tmp/runpy/rp_w.sock", true, true) {
        InboundStep::Deliver(envelope, handlers) => {
            assert_eq!(handlers, vec![HandlerSlot::Global, HandlerSlot::Worker]);
            assert_eq!(envelope.meta().get("x_wid"), Some(&text("w")));
            assert_eq!(envelope.meta().get("correlation_id"), Some(&Value::from(7)));
        }
        InboundStep::Close(message) => panic!("unexpected close: {message}"),
    }
    let only_worker = Envelope::from_wire(Meta::new(), Data::new()).unwrap();
    match inbound_step(only_worker, "w", "/tmp/s", false, true) {
        InboundStep::Deliver(_, handlers) => assert_eq!(handlers, vec![HandlerSlot::Worker]),
        InboundStep::Close(message) => panic!("unexpected close: {message}"),
    }
}

#[test]
fn inbound_step_closes_on_manager_operations() {
    let received = Envelope::from_wire(object(&[("x_op", text("execute"))]), Data::new()).unwrap();
    match inbound_step(received, "w", "/tmp/s", true, true) {
        InboundStep::Close(message) => assert_eq!(
            message,
            "Runpy operation 'execute' is invalid for worker-to-manager envelopes"
        ),
        InboundStep::Deliver(..) => panic!("a manager operation must not be delivered"),
    }
}
