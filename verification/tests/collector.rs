use quent::collector::server::{
    source_context_id, stream_step, MetadataError, StreamAction, StreamEvent,
};
use std::time::Duration;

use quent::collector::client::{
    after_failed_connect, connect_give_up_error, BatchChannelClosed, ClientOptions,
    CollectorError, ConnectStep, EventBatchBuffer, BATCH_CHANNEL_CLOSED_MESSAGE,
    MAX_CONNECT_ATTEMPTS,
};
use quent::collector::wire::{
    CollectResponse, EventBatch, WireCode, EVENT_BATCH_HEADER_LEN, EVENT_LENGTH_HEADER_LEN,
    MAX_EVENTS_PER_BATCH,
};

#[test]
fn batch_splits_before_exceeding_encoded_limit() {
    let event = vec![42; 3];
    let one_event_len = EVENT_BATCH_HEADER_LEN + EVENT_LENGTH_HEADER_LEN + event.len();
    let mut buffer = EventBatchBuffer::try_new(one_event_len, usize::MAX).unwrap();

    assert!(buffer.push(event.clone()).0.is_none());
    let full_batch = buffer.push(event.clone()).0.unwrap();

    assert_eq!(full_batch.events, vec![event.clone()]);
    assert_eq!(buffer.take().unwrap().events, vec![event]);
}

#[test]
fn event_larger_than_encoded_target_is_retained() {
    let mut buffer =
        EventBatchBuffer::try_new(EVENT_BATCH_HEADER_LEN + EVENT_LENGTH_HEADER_LEN, usize::MAX)
            .unwrap();

    let (full_batch, exceeds_target) = buffer.push(vec![42]);

    assert!(full_batch.is_none());
    assert!(exceeds_target);
    assert_eq!(buffer.take().unwrap().events, vec![vec![42u8]]);
}

#[test]
fn batch_splits_at_event_count_limit() {
    let mut buffer = EventBatchBuffer::try_new(usize::MAX, 1).unwrap();

    assert!(buffer.push(vec![1]).0.is_none());
    let full_batch = buffer.push(vec![2]).0.unwrap();

    assert_eq!(full_batch.events, vec![vec![1u8]]);
    assert_eq!(buffer.take().unwrap().events, vec![vec![2u8]]);
}

#[test]
fn invalid_batch_limits_are_rejected() {
    let min_encoded_len = EVENT_BATCH_HEADER_LEN + EVENT_LENGTH_HEADER_LEN;

    assert!(matches!(
        EventBatchBuffer::try_new(min_encoded_len - 1, 1),
        Err(CollectorError::InvalidBatchEncodedLen {
            actual,
            minimum,
            ..
        }) if actual == min_encoded_len - 1 && minimum == min_encoded_len
    ));
    assert!(matches!(
        EventBatchBuffer::try_new(min_encoded_len, 0),
        Err(CollectorError::InvalidBatchEventCount { actual: 0, .. })
    ));
}

#[test]
fn invalid_client_options_are_rejected() {
    assert!(matches!(
        ClientOptions::default()
            .with_event_channel_capacity(0)
            .validate(),
        Err(CollectorError::InvalidEventChannelCapacity)
    ));
    assert!(matches!(
        ClientOptions::default()
            .with_batch_channel_capacity(0)
            .validate(),
        Err(CollectorError::InvalidBatchChannelCapacity)
    ));
    if usize::BITS == 64 {
        assert!(matches!(
            ClientOptions::default()
                .with_batch_target_encoded_len(usize::MAX)
                .validate(),
            Err(CollectorError::InvalidBatchEncodedLen { .. })
        ));
    }
    assert!(matches!(
        ClientOptions::default()
            .with_max_events_per_batch(0)
            .validate(),
        Err(CollectorError::InvalidBatchEventCount { .. })
    ));
    assert!(matches!(
        ClientOptions::default()
            .with_max_events_per_batch(MAX_EVENTS_PER_BATCH + 1)
            .validate(),
        Err(CollectorError::InvalidBatchEventCount { .. })
    ));
    assert!(matches!(
        ClientOptions::default()
            .with_batch_flush_interval(Duration::ZERO)
            .validate(),
        Err(CollectorError::InvalidBatchFlushInterval)
    ));
}

#[test]
fn default_client_options_are_valid() {
    let options = ClientOptions::default();
    assert_eq!(options.event_channel_capacity, 1024);
    assert_eq!(options.batch_channel_capacity, 1024);
    assert_eq!(options.batch_target_encoded_len, 4 * 1024 * 1024);
    assert_eq!(options.max_events_per_batch, 65536);
    assert_eq!(options.batch_flush_interval, Duration::from_millis(128));
    assert!(options.validate().is_ok());
}

#[test]
fn builders_set_their_field() {
    let options = ClientOptions::default()
        .with_event_channel_capacity(3)
        .with_batch_channel_capacity(4)
        .with_batch_target_encoded_len(100)
        .with_max_events_per_batch(5)
        .with_batch_flush_interval(Duration::from_millis(7));
    assert_eq!(options.event_channel_capacity, 3);
    assert_eq!(options.batch_channel_capacity, 4);
    assert_eq!(options.batch_target_encoded_len, 100);
    assert_eq!(options.max_events_per_batch, 5);
    assert_eq!(options.batch_flush_interval, Duration::from_millis(7));
    assert!(options.validate().is_ok());
}

#[test]
fn events_keep_their_order_across_batches() {
    // Each batch holds at most two three-byte events.
    let mut buffer = EventBatchBuffer::try_new(4 + 2 * (4 + 3), usize::MAX).unwrap();
    let mut delivered: Vec<Vec<u8>> = Vec::new();
    for i in 0..7u8 {
        if let Some(batch) = buffer.push(vec![i, i, i]).0 {
            assert!(batch.events.len() <= 2);
            delivered.extend(batch.events);
        }
    }
    if let Some(batch) = buffer.take() {
        delivered.extend(batch.events);
    }
    let expected: Vec<Vec<u8>> = (0..7u8).map(|i| vec![i, i, i]).collect();
    assert_eq!(delivered, expected);
    assert!(buffer.take().is_none());
    assert_eq!(buffer.len(), 0);
}

#[test]
fn batch_channel_closure_is_logged_with_the_loss() {
    let log = BatchChannelClosed { unsent_events: 12 }.log();
    assert_eq!(log.unsent_events, 12);
    assert_eq!(log.message, BATCH_CHANNEL_CLOSED_MESSAGE);
}

#[test]
fn event_batch_round_trips() {
    let batch = EventBatch {
        events: vec![vec![], vec![0, 1, 2], vec![255; 1024]],
    };
    let mut encoded = Vec::new();

    batch.encode(&mut encoded).unwrap();

    let decoded = EventBatch::decode(&encoded).unwrap();
    assert_eq!(
        decoded,
        EventBatch {
            events: vec![vec![], vec![0, 1, 2], vec![255; 1024]],
        }
    );
    // The whole message is consumed: one byte more is refused.
    let mut longer = encoded.clone();
    longer.push(0);
    assert!(EventBatch::decode(&longer).is_err());
}

#[test]
fn truncated_event_is_rejected() {
    let encoded = [0, 0, 0, 1, 0, 0, 0, 2, 42];

    let error = EventBatch::decode(&encoded).unwrap_err();

    assert_eq!(error.code(), WireCode::InvalidArgument);
}

#[test]
fn missing_event_length_is_rejected() {
    let encoded = [0, 0, 0, 2, 0, 0, 0, 4, 1, 2, 3, 4];

    let error = EventBatch::decode(&encoded).unwrap_err();

    assert_eq!(error.code(), WireCode::InvalidArgument);
}

#[test]
fn response_rejects_payload_bytes() {
    let encoded = [42];

    let error = CollectResponse::decode(&encoded).unwrap_err();

    assert_eq!(error.code(), WireCode::InvalidArgument);
}

#[test]
fn excessive_event_count_is_rejected_before_decoding_entries() {
    let event_count = (MAX_EVENTS_PER_BATCH as u32 + 1).to_be_bytes();

    let error = EventBatch::decode(&event_count).unwrap_err();

    assert_eq!(error.code(), WireCode::InvalidArgument);
}

#[test]
fn excessive_event_count_is_rejected_before_encoding() {
    let batch = EventBatch {
        events: vec![Vec::new(); MAX_EVENTS_PER_BATCH + 1],
    };
    let mut encoded = Vec::new();

    let error = batch.encode(&mut encoded).unwrap_err();

    assert_eq!(error.code(), WireCode::OutOfRange);
    assert!(encoded.is_empty());
}

#[test]
fn encoding_is_length_prefixed_big_endian() {
    let mut encoded = Vec::new();
    EventBatch {
        events: vec![vec![7], vec![]],
    }
    .encode(&mut encoded)
    .unwrap();
    assert_eq!(encoded, vec![0, 0, 0, 2, 0, 0, 0, 1, 7, 0, 0, 0, 0]);
}

#[test]
fn missing_event_count_is_rejected() {
    let error = EventBatch::decode(&[0, 0]).unwrap_err();
    assert_eq!(error.code(), WireCode::InvalidArgument);
    assert_eq!(error.message, "event batch is missing its event count");
}

#[test]
fn empty_response_round_trips() {
    let mut encoded = Vec::new();
    CollectResponse.encode(&mut encoded).unwrap();
    assert!(encoded.is_empty());
    assert_eq!(CollectResponse::decode(&encoded), Ok(CollectResponse));
}

#[test]
fn each_decoding_failure_has_its_message() {
    let message = |bytes: &[u8]| EventBatch::decode(bytes).unwrap_err().message;
    assert_eq!(message(&[0, 0, 0, 3, 0, 0, 0, 0]), "event batch contains an invalid event count");
    assert_eq!(message(&[0, 1, 0, 1]), "event batch contains too many events");
    assert_eq!(message(&[0, 0, 0, 1, 0, 0, 0, 5, 1]), "event payload is truncated");
    assert_eq!(message(&[0, 0, 0, 2, 0, 0, 0, 4, 1, 2, 3, 4]), "event batch is missing an event length");
    assert_eq!(message(&[0, 0, 0, 0, 9]), "event batch has trailing bytes");
    assert_eq!(message(&[0, 0, 0, 1, 0, 0, 0]), "event batch contains an invalid event count");
}

#[test]
fn source_context_id_reads_a_uuid() {
    assert_eq!(
        source_context_id(Some(Some("550e8400-e29b-41d4-a716-446655440000"))),
        Ok(0x550e8400_e29b_41d4_a716_446655440000)
    );
    assert_eq!(
        source_context_id(Some(Some("550e8400e29b41d4a716446655440000"))),
        Ok(0x550e8400_e29b_41d4_a716_446655440000)
    );
}

#[test]
fn source_context_id_refuses_missing_metadata() {
    assert_eq!(source_context_id(None), Err(MetadataError::Missing));
    assert_eq!(
        MetadataError::Missing.message(),
        "missing `source-context-id` metadata"
    );
}

#[test]
fn source_context_id_refuses_what_is_not_a_uuid() {
    assert_eq!(source_context_id(Some(None)), Err(MetadataError::NotUuid));
    assert_eq!(source_context_id(Some(Some("not-a-uuid"))), Err(MetadataError::NotUuid));
    assert_eq!(
        MetadataError::NotUuid.message(),
        "`source-context-id` metadata is not a valid UUID"
    );
}

#[test]
fn a_client_retries_until_its_last_connect_attempt() {
    assert_eq!(after_failed_connect(1), ConnectStep::RetryAfterPause);
    assert_eq!(after_failed_connect(41), ConnectStep::RetryAfterPause);
    assert_eq!(after_failed_connect(42), ConnectStep::GiveUpAfterPause);
    assert_eq!(MAX_CONNECT_ATTEMPTS, 42);
}

#[test]
fn a_client_that_gives_up_reports_the_attempts() {
    assert_eq!(
        connect_give_up_error(),
        CollectorError::Connect("failed to connect after 42 attempts...".to_string())
    );
}

#[test]
fn a_stream_of_events_arrives_whole_and_in_order() {
    let events: Vec<Vec<u8>> = (0u8..20).map(|i| vec![i; (i as usize) % 7]).collect();
    let mut buffer = EventBatchBuffer::try_new(24, 3).unwrap();
    let mut batches: Vec<EventBatch> = Vec::new();
    for e in &events {
        let (full, _) = buffer.push(e.clone());
        batches.extend(full);
    }
    batches.extend(buffer.take());
    let delivered: Vec<Vec<u8>> = batches.iter().flat_map(|b| b.events.clone()).collect();
    assert_eq!(delivered, events);
    for b in &batches {
        assert!(!b.events.is_empty() && b.events.len() <= 3);
        let size: usize = 4 + b.events.iter().map(|e| 4 + e.len()).sum::<usize>();
        assert!(size <= 24 || b.events.len() == 1);
    }
}

#[test]
fn a_stream_builds_its_source_context_on_the_first_batch() {
    assert_eq!(stream_step(StreamEvent::Batch { cached: false }), StreamAction::BuildContext);
    assert_eq!(stream_step(StreamEvent::ContextBuilt(true)), StreamAction::Feed);
    assert_eq!(stream_step(StreamEvent::Batch { cached: true }), StreamAction::Feed);
}

#[test]
fn a_stream_stops_when_its_context_cannot_be_built_or_it_ends() {
    assert_eq!(stream_step(StreamEvent::ContextBuilt(false)), StreamAction::Stop);
    assert_eq!(stream_step(StreamEvent::Ended), StreamAction::Stop);
}

#[test]
fn a_failed_stream_drops_its_source_context() {
    assert_eq!(stream_step(StreamEvent::Failed), StreamAction::DropContextAndStop);
}

#[test]
fn source_context_id_reads_every_uuid_form() {
    let id = 0x550e8400_e29b_41d4_a716_446655440000u128;
    for text in [
        "550E8400-E29B-41D4-A716-446655440000",
        "{550e8400-e29b-41d4-a716-446655440000}",
        "urn:uuid:550e8400-e29b-41d4-a716-446655440000",
        "URN:UUID:550e8400-e29b-41d4-a716-446655440000",
    ] {
        assert_eq!(source_context_id(Some(Some(text))), Ok(id));
    }
    for text in [
        "550e8400-e29b-41d4-a716-44665544000g",
        "550e8400e29b-41d4-a716-4466554400000",
        "(550e8400-e29b-41d4-a716-446655440000)",
        "urn:uid::550e8400-e29b-41d4-a716-446655440000",
    ] {
        assert_eq!(source_context_id(Some(Some(text))), Err(MetadataError::NotUuid));
    }
}
