//! The decisions of a NATS mediated channel.
use awaken_foundation::transports::nats::{
    opening_step, reader_goes_on, trace_label, writer_step, Confirmation, DuplexState, FlushStep,
    Inbound, NatsAddress, NatsChannelError, OpeningStage, OpeningStep, ReaderEvent, WriteStep,
};

#[test]
fn address_keeps_its_subjects_apart() {
    let address = NatsAddress::new("nats://localhost", "a.in", "a.out");
    assert_eq!(address.url, "nats://localhost");
    assert_eq!(address.inbox_subject, "a.in");
    assert_eq!(address.outbox_subject, "a.out");
}

#[test]
fn opening_subscribes_then_flushes() {
    assert!(matches!(
        opening_step(OpeningStage::Subscribing, "a.in", None),
        OpeningStep::Next(OpeningStage::Flushing)
    ));
    assert!(matches!(
        opening_step(OpeningStage::Flushing, "a.in", None),
        OpeningStep::Open
    ));
    let failed = opening_step(OpeningStage::Subscribing, "a.in", Some("gone".to_string()));
    assert!(matches!(
        failed,
        OpeningStep::Failed(error)
            if error == NatsChannelError::Subscribe {
                subject: "a.in".to_string(),
                source: "gone".to_string(),
            } && error.message() == "failed to subscribe to NATS subject 'a.in': gone"
    ));
    let failed = opening_step(OpeningStage::Flushing, "a.in", Some("gone".to_string()));
    assert!(matches!(
        failed,
        OpeningStep::Failed(error)
            if error == NatsChannelError::Flush {
                subject: "a.in".to_string(),
                source: "gone".to_string(),
            } && error.message() == "failed to flush NATS subscription for subject 'a.in': gone"
    ));
}

#[test]
fn reads_cut_payloads_into_pieces_in_order() {
    let mut state = DuplexState::new();
    assert!(state.needs_payload());
    assert_eq!(state.read(Inbound::Waiting, 8), None);
    assert_eq!(
        state.read(Inbound::Payload(b"hello ".to_vec()), 4),
        Some(b"hell".to_vec())
    );
    assert!(!state.needs_payload());
    assert_eq!(state.read(Inbound::Unasked, 100), Some(b"o ".to_vec()));
    assert_eq!(
        state.read(Inbound::Payload(b"world".to_vec()), 100),
        Some(b"world".to_vec())
    );
    assert_eq!(state.read(Inbound::Ended, 100), Some(Vec::new()));
}

#[test]
fn writes_need_an_open_channel_and_data() {
    let mut state = DuplexState::new();
    assert_eq!(state.check_write(false, 3), WriteStep::Send);
    assert_eq!(state.check_write(false, 0), WriteStep::Nothing);
    assert_eq!(
        state.check_write(true, 3),
        WriteStep::Broken("NATS mediated channel is closed")
    );
    assert_eq!(state.sent(true, 3), Ok(3));
    assert_eq!(state.unconfirmed(), 1);
    assert_eq!(state.sent(false, 3), Err("NATS writer closed"));
    assert_eq!(state.unconfirmed(), 1);
    state.close();
    assert!(state.is_closed());
    assert_eq!(
        state.check_write(false, 0),
        WriteStep::Broken("NATS mediated channel is closed")
    );
}

#[test]
fn flush_waits_for_every_confirmation() {
    let mut state = DuplexState::new();
    state.sent(true, 1).unwrap();
    state.sent(true, 1).unwrap();
    assert!(matches!(
        state.confirm(Confirmation::Waiting),
        FlushStep::Waiting
    ));
    assert!(matches!(
        state.confirm(Confirmation::Published),
        FlushStep::More
    ));
    assert!(matches!(
        state.confirm(Confirmation::Published),
        FlushStep::Done
    ));
    assert!(!state.is_closed());
}

#[test]
fn a_failed_publish_breaks_the_channel() {
    let mut state = DuplexState::new();
    state.sent(true, 1).unwrap();
    assert!(matches!(
        state.confirm(Confirmation::Failed("full".to_string())),
        FlushStep::Broken(message) if message == "full"
    ));
    assert!(state.is_closed());

    let mut state = DuplexState::new();
    state.sent(true, 1).unwrap();
    assert!(matches!(
        state.confirm(Confirmation::Dropped),
        FlushStep::Broken(message) if message == "NATS writer stopped before publish completed"
    ));
    assert!(state.is_closed());
}

#[test]
fn tasks_stop_when_their_other_end_is_gone() {
    assert!(reader_goes_on(ReaderEvent::Forwarded));
    assert!(!reader_goes_on(ReaderEvent::Refused));
    assert!(!reader_goes_on(ReaderEvent::Ended));
    assert_eq!(writer_step(true), (Ok(()), true));
    assert_eq!(
        writer_step(false),
        (Err("failed to publish to NATS subject".to_string()), false)
    );
}

#[test]
fn spans_name_the_trace_context() {
    assert_eq!(trace_label(Some("00-aa-bb-01")), "00-aa-bb-01");
    assert_eq!(trace_label(None), "absent");
}
