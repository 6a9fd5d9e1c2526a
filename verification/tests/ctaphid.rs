use salpa::ctaphid::{
    initial_packet, Command, CtapHid, DeviceVersion, Event, KeepaliveStatus, ReplyError,
    TransportError, BROADCAST_CHANNEL, CAPABILITY_CBOR, CAPABILITY_NMSG, INIT_PAYLOAD_SIZE,
    PACKET_SIZE, RECEIVE_TIMEOUT_MS, RESERVED_CHANNEL,
};
use salpa::request_completion::{complete_cbor, complete_update, CborCompletion, ReplyDisposition};

const VERSION: DeviceVersion = DeviceVersion {
    major: 0,
    minor: 1,
    build: 0,
};
const CAPABILITIES: u8 = 0x0c;

// Wire values of the update protocol used by the vendor-command tests.
const UPDATE_OPERATION_BEGIN: u8 = 1;
const UPDATE_PROTOCOL_VERSION: u8 = 1;
const UPDATE_SIGNATURE_SECTOR_SIZE: u32 = 0x1000;
const UPDATE_STATUS_USER_PRESENCE_REQUIRED: u8 = 1;

fn request_packet(channel: u32, command: Command, payload: &[u8]) -> [u8; PACKET_SIZE] {
    let mut packet = initial_packet(channel, command, payload.len());
    let count = payload.len().min(INIT_PAYLOAD_SIZE);
    packet[7..7 + count].copy_from_slice(&payload[..count]);
    packet
}

fn continuation_packet(channel: u32, sequence: u8, payload: &[u8]) -> [u8; PACKET_SIZE] {
    let mut packet = [0; PACKET_SIZE];
    packet[..4].copy_from_slice(&channel.to_be_bytes());
    packet[4] = sequence;
    packet[5..5 + payload.len()].copy_from_slice(payload);
    packet
}

fn allocate<const N: usize>(engine: &mut CtapHid<N>) -> u32 {
    let nonce = [0x5a; 8];
    assert_eq!(
        engine.ingest(&request_packet(BROADCAST_CHANNEL, Command::Init, &nonce), 0),
        Event::Nothing
    );
    let response = engine.next_packet().unwrap();
    assert_eq!(&response[7..15], &nonce);
    assert_eq!(response[19], 2);
    assert_eq!(response[20], VERSION.major);
    assert_eq!(response[21], VERSION.minor);
    assert_eq!(response[22], VERSION.build);
    assert_eq!(response[23], CAPABILITIES);
    let channel = u32::from_be_bytes(response[15..19].try_into().unwrap());
    engine.packet_sent();
    channel
}

#[test]
fn advertised_cbor_only_transport_rejects_msg() {
    let mut engine = CtapHid::<128>::new(VERSION, CAPABILITY_CBOR | CAPABILITY_NMSG);
    let channel = allocate(&mut engine);
    let mut packet = request_packet(channel, Command::Cbor, &[0]);
    packet[4] = 0x83; // CTAPHID_MSG
    assert_eq!(engine.ingest(&packet, 1), Event::Nothing);
    let reply = engine.next_packet().unwrap();
    assert_eq!(reply[4], Command::Error.number() | 0x80);
    assert_eq!(reply[7], TransportError::InvalidCommand.number());
}

#[test]
fn malformed_usb_reports_abort_without_poisoning_the_next_request() {
    for length in [0, 1, 63, 65] {
        for awaiting_presence in [false, true] {
            let mut engine = CtapHid::<128>::new(VERSION, CAPABILITIES);
            let channel = allocate(&mut engine);
            if awaiting_presence {
                engine.ingest(&request_packet(channel, Command::Cbor, &[4]), 1);
                engine.keepalive(KeepaliveStatus::UserPresenceNeeded);
            }
            assert_eq!(
                engine.ingest_report(&[0; 65][..length], 2),
                (Event::Nothing, true)
            );
            assert!(engine.request_payload().is_none());
            assert!(engine.next_packet().is_none());
            assert_eq!(engine.reply_cbor(&[0]), Err(ReplyError::NoPendingRequest));
            let channel = allocate(&mut engine);
            let (event, interrupted) =
                engine.ingest_report(&request_packet(channel, Command::Cbor, &[4]), 3);
            assert!(matches!(event, Event::Cbor { .. }));
            assert!(!interrupted);
            assert_eq!(engine.request_payload(), Some(&[4][..]));
            engine.reply_cbor(&[0]).unwrap();
            assert!(engine.next_packet().is_some());
        }
    }
}

#[test]
fn broadcast_init_allocates_channel_and_echoes_nonce() {
    let mut engine = CtapHid::<128>::new(VERSION, CAPABILITIES);
    let channel = allocate(&mut engine);
    assert_ne!(channel, RESERVED_CHANNEL);
    assert_ne!(channel, BROADCAST_CHANNEL);
    assert!(engine.next_packet().is_none());
}

#[test]
fn init_on_allocated_channel_resynchronizes_without_reallocation() {
    let mut engine = CtapHid::<128>::new(VERSION, CAPABILITIES);
    let channel = allocate(&mut engine);
    let nonce = [0x33; 8];
    engine.ingest(&request_packet(channel, Command::Init, &nonce), 10);
    let response = engine.next_packet().unwrap();
    assert_eq!(response[..4], channel.to_be_bytes());
    assert_eq!(&response[7..15], &nonce);
    assert_eq!(
        u32::from_be_bytes(response[15..19].try_into().unwrap()),
        channel
    );
}

#[test]
fn fragmented_ping_is_reassembled_and_fragmented_back() {
    let mut engine = CtapHid::<128>::new(VERSION, CAPABILITIES);
    let channel = allocate(&mut engine);
    let mut payload = [0_u8; 80];
    for (index, byte) in payload.iter_mut().enumerate() {
        *byte = index as u8;
    }

    engine.ingest(&request_packet(channel, Command::Ping, &payload), 10);
    assert!(engine.next_packet().is_none());
    engine.ingest(
        &continuation_packet(channel, 0, &payload[INIT_PAYLOAD_SIZE..]),
        11,
    );

    let first = engine.next_packet().unwrap();
    assert_eq!(first[4], Command::Ping.number() | 0x80);
    assert_eq!(&first[7..], &payload[..INIT_PAYLOAD_SIZE]);
    engine.packet_sent();
    let second = engine.next_packet().unwrap();
    assert_eq!(second[4], 0);
    assert_eq!(&second[5..28], &payload[INIT_PAYLOAD_SIZE..]);
    assert!(second[28..].iter().all(|byte| *byte == 0));
    engine.packet_sent();
    assert!(engine.next_packet().is_none());
}

#[test]
fn wrong_continuation_sequence_returns_error() {
    let mut engine = CtapHid::<128>::new(VERSION, CAPABILITIES);
    let channel = allocate(&mut engine);
    engine.ingest(&request_packet(channel, Command::Ping, &[0xaa; 80]), 10);
    engine.ingest(&continuation_packet(channel, 1, &[0xbb; 23]), 11);
    let response = engine.next_packet().unwrap();
    assert_eq!(response[4], Command::Error.number() | 0x80);
    assert_eq!(response[7], TransportError::InvalidSequence.number());
}

#[test]
fn fragmented_request_times_out() {
    let mut engine = CtapHid::<128>::new(VERSION, CAPABILITIES);
    let channel = allocate(&mut engine);
    engine.ingest(&request_packet(channel, Command::Ping, &[0xaa; 80]), 10);
    engine.expire(10 + RECEIVE_TIMEOUT_MS + 1);
    let response = engine.next_packet().unwrap();
    assert_eq!(response[7], TransportError::Timeout.number());
}

#[test]
fn unallocated_channel_is_rejected() {
    let mut engine = CtapHid::<128>::new(VERSION, CAPABILITIES);
    engine.ingest(&request_packet(42, Command::Ping, &[]), 0);
    let response = engine.next_packet().unwrap();
    assert_eq!(response[7], TransportError::InvalidChannel.number());
}

#[test]
fn cbor_request_can_receive_fragmented_reply() {
    let mut engine = CtapHid::<128>::new(VERSION, CAPABILITIES);
    let channel = allocate(&mut engine);
    let request = [0x04];
    assert_eq!(
        engine.ingest(&request_packet(channel, Command::Cbor, &request), 10),
        Event::Cbor { channel, length: 1 }
    );
    assert_eq!(engine.request_payload(), Some(request.as_slice()));
    assert!(engine.keepalive(KeepaliveStatus::Processing));
    let keepalive = engine.next_packet().unwrap();
    assert_eq!(keepalive[4], Command::Keepalive.number() | 0x80);
    assert_eq!(keepalive[7], KeepaliveStatus::Processing.number());
    engine.packet_sent();

    let response = [0x5c; 80];
    engine.reply_cbor(&response).unwrap();
    let first = engine.next_packet().unwrap();
    assert_eq!(first[4], Command::Cbor.number() | 0x80);
    engine.packet_sent();
    let second = engine.next_packet().unwrap();
    assert_eq!(second[4], 0);
    assert_eq!(&second[5..28], &response[INIT_PAYLOAD_SIZE..]);
}

#[test]
fn update_vendor_request_and_reply_keep_the_vendor_opcode() {
    let mut engine = CtapHid::<128>::new(VERSION, CAPABILITIES);
    let channel = allocate(&mut engine);
    let request = [1, 2, 3, 4];
    assert_eq!(
        engine.ingest(&request_packet(channel, Command::Update, &request), 10),
        Event::Update { channel, length: 4 }
    );
    assert_eq!(engine.request_payload(), Some(request.as_slice()));
    engine.reply_update(&[0xaa, 0x55]).unwrap();
    let response = engine.next_packet().unwrap();
    assert_eq!(response[..4], channel.to_be_bytes());
    assert_eq!(response[4], Command::Update.number() | 0x80);
    assert_eq!(response[5..7], 2_u16.to_be_bytes());
    assert_eq!(response[7..9], [0xaa, 0x55]);
}

fn begin_update(engine: &mut CtapHid<128>, channel: u32) {
    let mut request = [0; 48];
    request[0] = UPDATE_OPERATION_BEGIN;
    request[1] = UPDATE_PROTOCOL_VERSION;
    request[2..6].copy_from_slice(&(2 * UPDATE_SIGNATURE_SECTOR_SIZE).to_le_bytes());
    request[6..38].fill(0x5a);
    request[38..42].copy_from_slice(&1_u32.to_le_bytes());
    request[42] = 5;
    request[43..].copy_from_slice(b"1.2.3");
    assert_eq!(
        engine.ingest_with_interruption(&request_packet(channel, Command::Update, &request), 10,),
        (
            Event::Update {
                channel,
                length: request.len(),
            },
            false,
        )
    );
    assert!(engine.keepalive(KeepaliveStatus::UserPresenceNeeded));
}

#[test]
fn update_presence_wait_is_interrupted_by_init_without_overwriting_init_reply() {
    let mut engine = CtapHid::<128>::new(VERSION, CAPABILITIES);
    let channel = allocate(&mut engine);
    begin_update(&mut engine, channel);
    let nonce = [0x77; 8];
    assert_eq!(
        engine.ingest_with_interruption(&request_packet(channel, Command::Init, &nonce), 11),
        (Event::Nothing, true)
    );
    assert!(engine.request_payload().is_none());
    let mut payload = [UPDATE_STATUS_USER_PRESENCE_REQUIRED];
    assert_eq!(
        complete_update(&mut payload, |bytes| engine.reply_update(bytes)),
        Ok(ReplyDisposition::Discarded)
    );
    assert_eq!(payload, [0]);
    let response = engine.next_packet().unwrap();
    assert_eq!(response[4], Command::Init.number() | 0x80);
    assert_eq!(&response[7..15], &nonce);
    engine.packet_sent();
    assert!(engine.next_packet().is_none());
    begin_update(&mut engine, channel);
}

#[test]
fn malformed_init_still_interrupts_update_presence_wait() {
    let mut engine = CtapHid::<128>::new(VERSION, CAPABILITIES);
    let channel = allocate(&mut engine);
    begin_update(&mut engine, channel);
    assert_eq!(
        engine.ingest_with_interruption(&request_packet(channel, Command::Init, &[0; 7]), 11),
        (Event::Nothing, true)
    );
    assert!(engine.request_payload().is_none());
    let mut payload = [UPDATE_STATUS_USER_PRESENCE_REQUIRED];
    assert_eq!(
        complete_update(&mut payload, |bytes| engine.reply_update(bytes)),
        Ok(ReplyDisposition::Discarded)
    );
    assert_eq!(payload, [0]);
    let response = engine.next_packet().unwrap();
    assert_eq!(response[4], Command::Error.number() | 0x80);
    assert_eq!(response[7], TransportError::InvalidLength.number());
    engine.packet_sent();
    assert!(engine.next_packet().is_none());
    begin_update(&mut engine, channel);
}

#[test]
fn cancel_interrupts_update_presence_wait_and_preserves_vendor_reply() {
    let mut engine = CtapHid::<128>::new(VERSION, CAPABILITIES);
    let channel = allocate(&mut engine);
    begin_update(&mut engine, channel);
    assert_eq!(
        engine.ingest_with_interruption(&request_packet(channel, Command::Cancel, &[]), 11),
        (Event::Cancelled { channel }, true)
    );
    assert!(engine.request_payload().is_some());
    assert!(engine.next_packet().is_none());
    let mut payload = [UPDATE_STATUS_USER_PRESENCE_REQUIRED];
    assert_eq!(
        complete_update(&mut payload, |bytes| engine.reply_update(bytes)),
        Ok(ReplyDisposition::Queued)
    );
    assert_eq!(payload, [0]);
    let response = engine.next_packet().unwrap();
    assert_eq!(response[4], Command::Update.number() | 0x80);
    assert_eq!(response[7], UPDATE_STATUS_USER_PRESENCE_REQUIRED);
    engine.packet_sent();
    assert!(engine.next_packet().is_none());
    begin_update(&mut engine, channel);
}

#[test]
fn unrelated_or_malformed_cancel_does_not_interrupt_update_presence_wait() {
    let mut engine = CtapHid::<128>::new(VERSION, CAPABILITIES);
    let channel = allocate(&mut engine);
    let other_channel = allocate(&mut engine);
    begin_update(&mut engine, channel);
    for packet in [
        request_packet(other_channel, Command::Cancel, &[]),
        request_packet(channel, Command::Cancel, &[0]),
    ] {
        assert_eq!(
            engine.ingest_with_interruption(&packet, 11),
            (Event::Nothing, false)
        );
        assert!(engine.request_payload().is_some());
    }
    let mut payload = [UPDATE_STATUS_USER_PRESENCE_REQUIRED];
    assert_eq!(
        complete_update(&mut payload, |bytes| engine.reply_update(bytes)),
        Ok(ReplyDisposition::Queued)
    );
    assert_eq!(payload, [0]);
}

#[test]
fn init_discards_successful_cbor_completion_without_confirming_image() {
    let mut engine = CtapHid::<128>::new(VERSION, CAPABILITIES);
    let channel = allocate(&mut engine);
    engine.ingest(&request_packet(channel, Command::Cbor, &[0x04]), 10);
    let nonce = [0x77; 8];
    assert_eq!(
        engine.ingest_with_interruption(&request_packet(channel, Command::Init, &nonce), 11),
        (Event::Nothing, true)
    );
    let mut payload = [0x00, 0xa0];
    assert_eq!(
        complete_cbor(true, &mut payload, |bytes| engine.reply_cbor(bytes)),
        Ok(CborCompletion::Interrupted)
    );
    assert_eq!(payload, [0; 2]);
    let response = engine.next_packet().unwrap();
    assert_eq!(response[4], Command::Init.number() | 0x80);
    assert_eq!(&response[7..15], &nonce);
    engine.packet_sent();
    assert!(engine.next_packet().is_none());
}

#[test]
fn cbor_buffers_are_zeroized_after_use() {
    let mut engine = CtapHid::<128>::new(VERSION, CAPABILITIES);
    let channel = allocate(&mut engine);
    let request = [0xa5; 80];
    engine.ingest(&request_packet(channel, Command::Cbor, &request), 10);
    engine.ingest(
        &continuation_packet(channel, 0, &request[INIT_PAYLOAD_SIZE..]),
        11,
    );
    assert_eq!(engine.request_payload(), Some(request.as_slice()));

    let response = [0x5c; 80];
    engine.reply_cbor(&response).unwrap();
    assert!(engine.request_buffer().iter().all(|byte| *byte == 0));
    while engine.next_packet().is_some() {
        engine.packet_sent();
    }
    assert!(engine.response_buffer().iter().all(|byte| *byte == 0));
}

#[test]
fn cancel_preserves_application_request_for_keepalive_cancel_reply() {
    let mut engine = CtapHid::<128>::new(VERSION, CAPABILITIES);
    let channel = allocate(&mut engine);
    engine.ingest(&request_packet(channel, Command::Cbor, &[0x04]), 10);
    assert!(engine.keepalive(KeepaliveStatus::UserPresenceNeeded));
    assert_eq!(
        engine.ingest(&request_packet(channel, Command::Cancel, &[]), 11),
        Event::Cancelled { channel }
    );
    assert_eq!(engine.request_payload(), Some([0x04].as_slice()));
    assert!(engine.next_packet().is_none());

    engine.reply_cbor(&[0x2d]).unwrap();
    let response = engine.next_packet().unwrap();
    assert_eq!(response[..4], channel.to_be_bytes());
    assert_eq!(response[4], Command::Cbor.number() | 0x80);
    assert_eq!(response[5..7], 1_u16.to_be_bytes());
    assert_eq!(response[7], 0x2d);
}

#[test]
fn invalid_cancel_does_not_discard_application_request() {
    let mut engine = CtapHid::<128>::new(VERSION, CAPABILITIES);
    let channel = allocate(&mut engine);
    engine.ingest(&request_packet(channel, Command::Cbor, &[0x04]), 10);
    assert_eq!(
        engine.ingest(&request_packet(channel, Command::Cancel, &[0]), 11),
        Event::Nothing
    );
    assert_eq!(engine.request_payload(), Some([0x04].as_slice()));
    let response = engine.next_packet().unwrap();
    assert_eq!(response[4], Command::Error.number() | 0x80);
    assert_eq!(response[7], TransportError::InvalidLength.number());
}

#[test]
fn cancel_on_another_channel_is_ignored() {
    let mut engine = CtapHid::<128>::new(VERSION, CAPABILITIES);
    let active_channel = allocate(&mut engine);
    let other_channel = allocate(&mut engine);
    engine.ingest(&request_packet(active_channel, Command::Cbor, &[0x04]), 10);
    assert_eq!(
        engine.ingest(&request_packet(other_channel, Command::Cancel, &[]), 11),
        Event::Nothing
    );
    assert_eq!(engine.request_payload(), Some([0x04].as_slice()));
    assert!(engine.next_packet().is_none());
}

#[test]
fn init_resynchronization_discards_pending_application_request() {
    let mut engine = CtapHid::<128>::new(VERSION, CAPABILITIES);
    let channel = allocate(&mut engine);
    engine.ingest(&request_packet(channel, Command::Cbor, &[0x04]), 10);
    let nonce = [0x77; 8];
    assert_eq!(
        engine.ingest(&request_packet(channel, Command::Init, &nonce), 11),
        Event::Nothing
    );
    assert_eq!(engine.request_payload(), None);
    assert!(engine.request_buffer().iter().all(|byte| *byte == 0));
    let response = engine.next_packet().unwrap();
    assert_eq!(response[..4], channel.to_be_bytes());
    assert_eq!(response[4], Command::Init.number() | 0x80);
    assert_eq!(&response[7..15], &nonce);
    assert_eq!(
        u32::from_be_bytes(response[15..19].try_into().unwrap()),
        channel
    );
}

#[test]
fn spurious_continuation_is_ignored() {
    let mut engine = CtapHid::<128>::new(VERSION, CAPABILITIES);
    engine.ingest(&continuation_packet(7, 0, &[1, 2, 3]), 0);
    assert!(engine.next_packet().is_none());
}

#[test]
fn failed_fragmented_request_is_zeroized() {
    let mut engine = CtapHid::<128>::new(VERSION, CAPABILITIES);
    let channel = allocate(&mut engine);
    engine.ingest(&request_packet(channel, Command::Ping, &[0xaa; 80]), 10);
    engine.ingest(&continuation_packet(channel, 1, &[0xbb; 23]), 11);
    assert!(engine.request_buffer().iter().all(|byte| *byte == 0));
}

#[test]
fn deterministic_packet_stream_does_not_break_transport_invariants() {
    let mut engine = CtapHid::<128>::new(VERSION, CAPABILITIES);
    let channel = allocate(&mut engine);
    let mut state = 0x6d2b_79f5_u32;

    for step in 0..20_000_u32 {
        let mut packet = [0_u8; PACKET_SIZE];
        for byte in &mut packet {
            state ^= state << 13;
            state ^= state >> 17;
            state ^= state << 5;
            *byte = state as u8;
        }
        if step % 2 == 0 {
            packet[..4].copy_from_slice(&channel.to_be_bytes());
        }

        let event = engine.ingest(&packet, step);
        if matches!(event, Event::Cbor { .. }) {
            let _ = engine.reply_cbor(&[0x7f]);
        }
        if step % 3 == 0 && engine.next_packet().is_some() {
            engine.packet_sent();
        }
        engine.expire(step.wrapping_add(RECEIVE_TIMEOUT_MS + 1));

        assert!(
            engine
                .request_payload()
                .is_none_or(|payload| payload.len() <= 128)
        );
        assert!(engine
            .receive_progress()
            .is_none_or(|(received, length)| received <= length && length <= 128));
        assert!(engine
            .transmit_progress()
            .is_none_or(|(offset, length)| offset <= length && length <= 128));
    }
}

// The wire codes of the protocol enums.
#[test]
fn wire_numbers_match_the_ctaphid_specification() {
    assert_eq!(Command::Ping.number(), 0x01);
    assert_eq!(Command::Init.number(), 0x06);
    assert_eq!(Command::Cbor.number(), 0x10);
    assert_eq!(Command::Cancel.number(), 0x11);
    assert_eq!(Command::Keepalive.number(), 0x3b);
    assert_eq!(Command::Error.number(), 0x3f);
    assert_eq!(Command::Update.number(), 0x51);
    assert_eq!(TransportError::InvalidChannel.number(), 0x0b);
    assert_eq!(TransportError::ChannelBusy.number(), 0x06);
    assert_eq!(KeepaliveStatus::UserPresenceNeeded.number(), 0x02);
}

#[test]
fn busy_channel_gets_an_error_without_disturbing_the_active_request() {
    let mut engine = CtapHid::<128>::new(VERSION, CAPABILITIES);
    let active = allocate(&mut engine);
    let other = allocate(&mut engine);
    engine.ingest(&request_packet(active, Command::Cbor, &[0x04]), 10);
    assert_eq!(
        engine.ingest(&request_packet(other, Command::Ping, &[1]), 11),
        Event::Nothing
    );
    assert_eq!(engine.request_payload(), Some([0x04].as_slice()));
    let response = engine.next_packet().unwrap();
    assert_eq!(response[..4], other.to_be_bytes());
    assert_eq!(response[7], TransportError::ChannelBusy.number());
}

#[test]
fn oversized_reply_is_refused_and_reported() {
    let mut engine = CtapHid::<128>::new(VERSION, CAPABILITIES);
    let channel = allocate(&mut engine);
    engine.ingest(&request_packet(channel, Command::Cbor, &[0x04]), 10);
    assert_eq!(
        engine.reply_cbor(&[0u8; 129]),
        Err(ReplyError::ResponseTooLong)
    );
    assert!(engine.request_payload().is_none());
    let response = engine.next_packet().unwrap();
    assert_eq!(response[7], TransportError::InvalidLength.number());
}

#[test]
fn request_longer_than_the_buffer_is_rejected() {
    let mut engine = CtapHid::<128>::new(VERSION, CAPABILITIES);
    let channel = allocate(&mut engine);
    let mut packet = request_packet(channel, Command::Cbor, &[0]);
    packet[5..7].copy_from_slice(&129_u16.to_be_bytes());
    assert_eq!(engine.ingest(&packet, 1), Event::Nothing);
    let response = engine.next_packet().unwrap();
    assert_eq!(response[7], TransportError::InvalidLength.number());
}

#[test]
fn keepalive_without_pending_request_is_refused() {
    let mut engine = CtapHid::<128>::new(VERSION, CAPABILITIES);
    assert!(!engine.keepalive(KeepaliveStatus::Processing));
    assert!(engine.next_packet().is_none());
}

#[test]
fn errors_are_reported_once_per_channel_in_arrival_order() {
    let mut engine = CtapHid::<128>::new(VERSION, CAPABILITIES);
    engine.ingest(&request_packet(42, Command::Ping, &[]), 0);
    engine.ingest(&request_packet(42, Command::Ping, &[]), 0);
    engine.ingest(&request_packet(43, Command::Ping, &[]), 0);
    let first = engine.next_packet().unwrap();
    assert_eq!(first[..4], 42_u32.to_be_bytes());
    engine.packet_sent();
    let second = engine.next_packet().unwrap();
    assert_eq!(second[..4], 43_u32.to_be_bytes());
    engine.packet_sent();
    assert!(engine.next_packet().is_none());
}
