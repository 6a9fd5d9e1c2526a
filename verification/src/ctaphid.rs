//! CTAP over USB HID message framing.
//!
//! This module owns the CTAPHID transport state only. It deliberately does not
//! implement authenticator, credential, cryptographic, or persistence logic.
//!
//! The engine is specified by a model (`HidModel`) and one spec function per
//! operation; each public method states that the new model is that function of
//! the old one.

use vstd::prelude::*;
use crate::bytes::{zeroize_array, be_bytes_u16, be_bytes_u32, be_u16_at, be_u32_at, splice, zeros};

pub use crate::request_completion::ReplyError;

verus! {

pub const PACKET_SIZE: usize = 64;

pub const MAX_MESSAGE_SIZE: usize = 1024;

pub const INIT_PAYLOAD_SIZE: usize = 57;

pub const CONT_PAYLOAD_SIZE: usize = 59;

pub const MAX_CTAPHID_MESSAGE_SIZE: usize = INIT_PAYLOAD_SIZE + 128 * CONT_PAYLOAD_SIZE;

pub const BROADCAST_CHANNEL: u32 = 0xffff_ffff;

pub const RESERVED_CHANNEL: u32 = 0;

pub const RECEIVE_TIMEOUT_MS: u32 = 550;

pub const CAPABILITY_WINK: u8 = 0x01;

pub const CAPABILITY_CBOR: u8 = 0x04;

pub const CAPABILITY_NMSG: u8 = 0x08;

pub const ERROR_CAPACITY: usize = 8;

/// Bytes of an INIT response: nonce, channel, protocol, version, capabilities.
pub const INIT_RESPONSE_SIZE: usize = 17;

/// CTAPHID protocol version reported by INIT.
pub const PROTOCOL_VERSION: u8 = 2;

/// CTAPHID command opcodes.
#[derive(Clone, Copy, Debug, PartialEq, Eq, Structural)]
pub enum Command {
    Ping,
    Msg,
    Lock,
    Init,
    Wink,
    Cbor,
    Cancel,
    Keepalive,
    Error,
    /// Solo2-compatible vendor opcode used as the Salpa update namespace.
    Update,
}

/// The wire opcode of a command (without the initialization bit).
pub open spec fn command_number(command: Command) -> u8 {
    match command {
        Command::Ping => 0x01,
        Command::Msg => 0x03,
        Command::Lock => 0x04,
        Command::Init => 0x06,
        Command::Wink => 0x08,
        Command::Cbor => 0x10,
        Command::Cancel => 0x11,
        Command::Keepalive => 0x3b,
        Command::Error => 0x3f,
        Command::Update => 0x51,
    }
}

/// The command with a given wire opcode, if any.
pub open spec fn command_from_number(value: u8) -> Option<Command> {
    if value == 0x01 {
        Some(Command::Ping)
    } else if value == 0x03 {
        Some(Command::Msg)
    } else if value == 0x04 {
        Some(Command::Lock)
    } else if value == 0x06 {
        Some(Command::Init)
    } else if value == 0x08 {
        Some(Command::Wink)
    } else if value == 0x10 {
        Some(Command::Cbor)
    } else if value == 0x11 {
        Some(Command::Cancel)
    } else if value == 0x3b {
        Some(Command::Keepalive)
    } else if value == 0x3f {
        Some(Command::Error)
    } else if value == 0x51 {
        Some(Command::Update)
    } else {
        None
    }
}

impl Command {
    /// The wire opcode of this command.
    pub fn number(self) -> (r: u8)
        ensures
            r == command_number(self),
    {
        match self {
            Command::Ping => 0x01,
            Command::Msg => 0x03,
            Command::Lock => 0x04,
            Command::Init => 0x06,
            Command::Wink => 0x08,
            Command::Cbor => 0x10,
            Command::Cancel => 0x11,
            Command::Keepalive => 0x3b,
            Command::Error => 0x3f,
            Command::Update => 0x51,
        }
    }

    fn from_number(value: u8) -> (r: Option<Self>)
        ensures
            r == command_from_number(value),
    {
        match value {
            0x01 => Some(Self::Ping),
            0x03 => Some(Self::Msg),
            0x04 => Some(Self::Lock),
            0x06 => Some(Self::Init),
            0x08 => Some(Self::Wink),
            0x10 => Some(Self::Cbor),
            0x11 => Some(Self::Cancel),
            0x3b => Some(Self::Keepalive),
            0x3f => Some(Self::Error),
            0x51 => Some(Self::Update),
            _ => None,
        }
    }
}

/// Decoding a command's opcode gives the command back, every opcode that
/// decodes is the opcode of the command it decodes to, and a value that is
/// no command's opcode does not decode.
pub proof fn lemma_command_number_round_trip(command: Command, value: u8)
    ensures
        command_from_number(command_number(command)) == Some(command),
        command_number(command) < 0x80,
        command_from_number(value) matches Some(c) ==> command_number(c) == value,
        command_from_number(value) is None <==> forall|c: Command|
            #[trigger] command_number(c) != value,
{
    if command_from_number(value) is Some {
        let c = command_from_number(value)->0;
        assert(command_number(c) == value);
    }
}

/// CTAPHID_ERROR codes.
#[derive(Clone, Copy, Debug, PartialEq, Eq, Structural)]
pub enum TransportError {
    InvalidCommand,
    InvalidLength,
    InvalidSequence,
    Timeout,
    ChannelBusy,
    InvalidChannel,
}

pub open spec fn transport_error_code(error: TransportError) -> u8 {
    match error {
        TransportError::InvalidCommand => 0x01,
        TransportError::InvalidLength => 0x03,
        TransportError::InvalidSequence => 0x04,
        TransportError::Timeout => 0x05,
        TransportError::ChannelBusy => 0x06,
        TransportError::InvalidChannel => 0x0b,
    }
}

impl TransportError {
    /// The wire code of this error.
    pub fn number(self) -> (r: u8)
        ensures
            r == transport_error_code(self),
    {
        match self {
            TransportError::InvalidCommand => 0x01,
            TransportError::InvalidLength => 0x03,
            TransportError::InvalidSequence => 0x04,
            TransportError::Timeout => 0x05,
            TransportError::ChannelBusy => 0x06,
            TransportError::InvalidChannel => 0x0b,
        }
    }
}

/// CTAPHID_KEEPALIVE status codes.
#[derive(Clone, Copy, Debug, PartialEq, Eq, Structural)]
pub enum KeepaliveStatus {
    Processing,
    UserPresenceNeeded,
}

pub open spec fn keepalive_code(status: KeepaliveStatus) -> u8 {
    match status {
        KeepaliveStatus::Processing => 0x01,
        KeepaliveStatus::UserPresenceNeeded => 0x02,
    }
}

impl KeepaliveStatus {
    /// The wire code of this status.
    pub fn number(self) -> (r: u8)
        ensures
            r == keepalive_code(self),
    {
        match self {
            KeepaliveStatus::Processing => 0x01,
            KeepaliveStatus::UserPresenceNeeded => 0x02,
        }
    }
}

#[derive(Clone, Copy, Debug, PartialEq, Eq, Structural)]
pub struct DeviceVersion {
    pub major: u8,
    pub minor: u8,
    pub build: u8,
}

/// What a received report asks of the application.
#[derive(Clone, Copy, Debug, PartialEq, Eq, Structural)]
pub enum Event {
    /// Nothing for the application to do.
    Nothing,
    Cbor { channel: u32, length: usize },
    Update { channel: u32, length: usize },
    Cancelled { channel: u32 },
}

/// A fragmented request being reassembled.
#[derive(Clone, Copy)]
pub struct ReceiveState {
    pub channel: u32,
    pub command: Command,
    pub length: usize,
    pub received: usize,
    pub next_sequence: u8,
    pub last_activity_ms: u32,
}

/// A request handed to the application and not yet answered.
#[derive(Clone, Copy)]
pub struct AppRequest {
    pub channel: u32,
    pub command: Command,
    pub length: usize,
}

/// A response being sent packet by packet.
#[derive(Clone, Copy)]
pub struct TransmitState {
    pub channel: u32,
    pub command: Command,
    pub length: usize,
    pub offset: usize,
    pub next_sequence: u8,
}

/// An error report waiting to be sent.
#[derive(Clone, Copy)]
pub struct PendingError {
    pub channel: u32,
    pub error: TransportError,
}

/// The abstract state of the transport engine.
#[verifier::ext_equal]
pub struct HidModel {
    pub request: Seq<u8>,
    pub response: Seq<u8>,
    pub receive: Option<ReceiveState>,
    pub app_request: Option<AppRequest>,
    pub transmit: Option<TransmitState>,
    pub keepalive: Option<(u32, KeepaliveStatus)>,
    /// Error slots, oldest first; a free slot is `None`.
    pub errors: Seq<Option<PendingError>>,
    pub last_channel: u32,
    pub version: DeviceVersion,
    pub capabilities: u8,
}

pub open spec fn min(a: int, b: int) -> int {
    if a <= b {
        a
    } else {
        b
    }
}

/// The 64-byte initialization packet header for `command` with the given
/// message length, followed by zero payload bytes.
pub open spec fn initial_packet_bytes(channel: u32, command: Command, length: nat) -> Seq<u8> {
    Seq::new(
        64,
        |i: int|
            if i < 4 {
                be_bytes_u32(channel)[i]
            } else if i == 4 {
                (command_number(command) + 0x80) as u8
            } else if i < 7 {
                be_bytes_u16(length)[i - 5]
            } else {
                0u8
            },
    )
}

/// `slot` holds a pending error for `channel`.
pub open spec fn slot_holds(slot: Option<PendingError>, channel: u32) -> bool {
    match slot {
        Some(pending) => pending.channel == channel,
        None => false,
    }
}

/// The pending errors stand before every free slot, oldest first, and no two
/// of them are for the same channel.
pub open spec fn errors_in_order(errors: Seq<Option<PendingError>>) -> bool {
    &&& forall|i: int, j: int|
        0 <= i < j < errors.len() && (#[trigger] errors[j]) is Some ==> (#[trigger] errors[i]) is Some
    &&& forall|i: int, j: int|
        0 <= i < j < errors.len() && (#[trigger] errors[i]) is Some && (#[trigger] errors[j]) is Some
            ==> errors[i]->0.channel != errors[j]->0.channel
}

/// Queuing an error keeps the pending errors in order.
proof fn lemma_queue_error_keeps_order(s: HidModel, channel: u32, error: TransportError)
    ensures
        errors_in_order(s.errors) ==> errors_in_order(s.queue_error(channel, error).errors),
{
    let errors = s.errors;
    if errors_in_order(errors) && !(exists|i: int|
        0 <= i < errors.len() && #[trigger] slot_holds(errors[i], channel)) && exists|k: int|
        is_first_free(errors, k) {
        let k = choose|k: int| is_first_free(errors, k);
        let updated = errors.update(k, Some(PendingError { channel, error }));
        assert forall|i: int, j: int|
            0 <= i < j < updated.len() && (#[trigger] updated[j]) is Some implies (
            #[trigger] updated[i]) is Some by {
            if j != k && i != k {
                assert(errors[j] is Some);
            } else if i == k {
                assert(errors[j] is Some);
                assert(errors[k] is Some);
            }
        }
        assert forall|i: int, j: int|
            0 <= i < j < updated.len() && (#[trigger] updated[i]) is Some && (
            #[trigger] updated[j]) is Some implies updated[i]->0.channel != updated[j]->0.channel by {
            if j == k {
                assert(!slot_holds(errors[i], channel));
            } else if i == k {
                assert(errors[j] is Some);
                assert(errors[k] is Some);
            } else {
                assert(errors[i] is Some && errors[j] is Some);
            }
        }
    }
}

/// `k` is the first free error slot.
pub open spec fn is_first_free(errors: Seq<Option<PendingError>>, k: int) -> bool {
    &&& 0 <= k < errors.len()
    &&& errors[k] is None
    &&& forall|j: int| 0 <= j < k ==> (#[trigger] errors[j]) is Some
}

/// The channel that follows `last` in allocation order; the reserved and the
/// broadcast channel are skipped.
pub open spec fn next_channel(last: u32) -> u32 {
    if last < 0xffff_fffe {
        (last + 1) as u32
    } else {
        1
    }
}

/// The payload of an INIT response.
pub open spec fn init_response_bytes(
    nonce: Seq<u8>,
    assigned: u32,
    version: DeviceVersion,
    capabilities: u8,
) -> Seq<u8> {
    nonce + be_bytes_u32(assigned) + seq![
        PROTOCOL_VERSION,
        version.major,
        version.minor,
        version.build,
        capabilities,
    ]
}

/// Bytes of the current chunk of a transmission and its size.
pub open spec fn transmit_chunk(t: TransmitState) -> int {
    if t.offset == 0 {
        min(t.length as int, INIT_PAYLOAD_SIZE as int)
    } else {
        min(t.length - t.offset, CONT_PAYLOAD_SIZE as int)
    }
}

impl HidModel {
    /// Size of the request and response buffers.
    pub open spec fn capacity(self) -> nat {
        self.request.len()
    }

    /// The invariants every reachable state keeps, for buffers of `n` bytes.
    pub open spec fn wf(self, n: nat) -> bool {
        &&& 17 <= n <= MAX_CTAPHID_MESSAGE_SIZE
        &&& self.request.len() == n
        &&& self.response.len() == n
        &&& self.errors.len() == ERROR_CAPACITY
        &&& errors_in_order(self.errors)
        &&& (self.receive matches Some(r) ==> {
            &&& INIT_PAYLOAD_SIZE <= r.received < r.length <= n
            &&& r.received == INIT_PAYLOAD_SIZE + CONT_PAYLOAD_SIZE * r.next_sequence
        })
        &&& (self.app_request matches Some(a) ==> a.length <= n)
        &&& (self.transmit matches Some(t) ==> {
            &&& t.offset <= t.length <= n
            &&& t.offset == 0 ==> t.next_sequence == 0
            &&& t.offset > 0 ==> t.offset < t.length && t.offset == INIT_PAYLOAD_SIZE
                + CONT_PAYLOAD_SIZE * t.next_sequence
        })
    }

    /// The channel of the transaction in progress, if any.
    pub open spec fn active_channel(self) -> Option<u32> {
        match self.receive {
            Some(r) => Some(r.channel),
            None => match self.app_request {
                Some(a) => Some(a.channel),
                None => match self.transmit {
                    Some(t) => Some(t.channel),
                    None => None,
                },
            },
        }
    }

    pub open spec fn is_allocated(self, channel: u32) -> bool {
        channel != RESERVED_CHANNEL && channel != BROADCAST_CHANNEL && channel
            <= self.last_channel
    }

    pub open spec fn clear_request(self) -> HidModel {
        HidModel { request: zeros(self.capacity()), ..self }
    }

    pub open spec fn clear_response(self) -> HidModel {
        HidModel { response: zeros(self.response.len()), ..self }
    }

    /// Drops every transaction and clears both buffers.
    pub open spec fn abort_transaction(self) -> HidModel {
        HidModel {
            request: zeros(self.request.len()),
            response: zeros(self.response.len()),
            receive: None,
            app_request: None,
            transmit: None,
            keepalive: None,
            ..self
        }
    }

    /// Queues an error for `channel` unless one is already pending for it or
    /// every slot is taken.
    pub open spec fn queue_error(self, channel: u32, error: TransportError) -> HidModel {
        if exists|i: int| 0 <= i < self.errors.len() && #[trigger] slot_holds(self.errors[i], channel) {
            self
        } else if exists|k: int| is_first_free(self.errors, k) {
            let k = choose|k: int| is_first_free(self.errors, k);
            HidModel {
                errors: self.errors.update(k, Some(PendingError { channel, error })),
                ..self
            }
        } else {
            self
        }
    }

    pub open spec fn start_transmit(self, channel: u32, command: Command, length: usize) -> HidModel {
        HidModel {
            transmit: Some(
                TransmitState { channel, command, length, offset: 0, next_sequence: 0 },
            ),
            ..self
        }
    }

    /// Clears the request and reports `error` on `channel`.
    pub open spec fn reject(self, channel: u32, error: TransportError) -> HidModel {
        self.clear_request().queue_error(channel, error)
    }

    /// Handles a complete INIT request.
    pub open spec fn dispatch_init(self, channel: u32, length: usize) -> (HidModel, Event) {
        if channel == RESERVED_CHANNEL {
            (self.reject(channel, TransportError::InvalidChannel), Event::Nothing)
        } else if length != 8 {
            (self.reject(channel, TransportError::InvalidLength), Event::Nothing)
        } else if channel != BROADCAST_CHANNEL && !self.is_allocated(channel) {
            (self.reject(channel, TransportError::InvalidChannel), Event::Nothing)
        } else {
            let last = if channel == BROADCAST_CHANNEL {
                next_channel(self.last_channel)
            } else {
                self.last_channel
            };
            let assigned = if channel == BROADCAST_CHANNEL {
                last
            } else {
                channel
            };
            let payload = init_response_bytes(
                self.request.subrange(0, 8),
                assigned,
                self.version,
                self.capabilities,
            );
            let s = HidModel {
                last_channel: last,
                response: payload + zeros((self.response.len() - 17) as nat),
                request: zeros(self.request.len()),
                ..self
            };
            (s.start_transmit(channel, Command::Init, 17), Event::Nothing)
        }
    }

    /// Handles a complete request.
    pub open spec fn dispatch(self, channel: u32, command: Command, length: usize) -> (HidModel, Event) {
        if command == Command::Init {
            self.dispatch_init(channel, length)
        } else if channel == RESERVED_CHANNEL || channel == BROADCAST_CHANNEL || !self.is_allocated(
            channel,
        ) {
            (self.reject(channel, TransportError::InvalidChannel), Event::Nothing)
        } else {
            match command {
                Command::Ping => {
                    let s = HidModel {
                        response: self.request.subrange(0, length as int) + zeros(
                            (self.response.len() - length) as nat,
                        ),
                        request: zeros(self.request.len()),
                        ..self
                    };
                    (s.start_transmit(channel, command, length), Event::Nothing)
                },
                Command::Cbor => (
                    HidModel {
                        app_request: Some(AppRequest { channel, command, length }),
                        ..self
                    },
                    Event::Cbor { channel, length },
                ),
                Command::Update => (
                    HidModel {
                        app_request: Some(AppRequest { channel, command, length }),
                        ..self
                    },
                    Event::Update { channel, length },
                ),
                Command::Cancel => (self.clear_request(), Event::Nothing),
                _ => (self.reject(channel, TransportError::InvalidCommand), Event::Nothing),
            }
        }
    }

    /// Handles a continuation packet.
    pub open spec fn ingest_continuation(self, channel: u32, packet: Seq<u8>, now_ms: u32) -> (
        HidModel,
        Event,
    ) {
        match self.receive {
            None => (self, Event::Nothing),
            Some(r) => if channel != r.channel {
                (self, Event::Nothing)
            } else if packet[4] != r.next_sequence {
                (HidModel { receive: None, ..self }.reject(channel, TransportError::InvalidSequence), Event::Nothing)
            } else {
                let count = min(r.length - r.received, CONT_PAYLOAD_SIZE as int);
                let request = splice(self.request, r.received as int, packet.subrange(5, 5 + count));
                let received = (r.received + count) as usize;
                if received == r.length {
                    HidModel { receive: None, request, ..self }.dispatch(r.channel, r.command, r.length)
                } else {
                    (
                        HidModel {
                            receive: Some(
                                ReceiveState {
                                    received,
                                    next_sequence: (r.next_sequence + 1) as u8,
                                    last_activity_ms: now_ms,
                                    ..r
                                },
                            ),
                            request,
                            ..self
                        },
                        Event::Nothing,
                    )
                }
            },
        }
    }

    /// Handles an initialization packet once any transaction in progress has
    /// been dealt with.
    pub open spec fn ingest_initial(self, channel: u32, packet: Seq<u8>, now_ms: u32) -> (
        HidModel,
        Event,
    ) {
        let number = (packet[4] - 0x80) as u8;
        let length = be_u16_at(packet, 5);
        let s = self.clear_request();
        match command_from_number(number) {
            None => (s.queue_error(channel, TransportError::InvalidCommand), Event::Nothing),
            Some(command) => if length > self.capacity() {
                (s.queue_error(channel, TransportError::InvalidLength), Event::Nothing)
            } else if (command == Command::Init && length != 8) || (command == Command::Cancel
                && length != 0) {
                (s.queue_error(channel, TransportError::InvalidLength), Event::Nothing)
            } else {
                let copied = min(length as int, INIT_PAYLOAD_SIZE as int);
                let s2 = HidModel { request: splice(s.request, 0, packet.subrange(7, 7 + copied)), ..s };
                if length > INIT_PAYLOAD_SIZE {
                    (
                        HidModel {
                            receive: Some(
                                ReceiveState {
                                    channel,
                                    command,
                                    length: length as usize,
                                    received: INIT_PAYLOAD_SIZE,
                                    next_sequence: 0,
                                    last_activity_ms: now_ms,
                                },
                            ),
                            ..s2
                        },
                        Event::Nothing,
                    )
                } else {
                    s2.dispatch(channel, command, length as usize)
                }
            },
        }
    }

    /// Handles one 64-byte report.
    pub open spec fn ingest(self, packet: Seq<u8>, now_ms: u32) -> (HidModel, Event) {
        let channel = be_u32_at(packet, 0);
        if packet[4] < 0x80 {
            self.ingest_continuation(channel, packet, now_ms)
        } else {
            let number = (packet[4] - 0x80) as u8;
            let length = be_u16_at(packet, 5);
            let is_cancel = number == command_number(Command::Cancel);
            match self.active_channel() {
                None => self.ingest_initial(channel, packet, now_ms),
                Some(active) => if is_cancel && channel != active {
                    (self, Event::Nothing)
                } else if channel != active {
                    (self.queue_error(channel, TransportError::ChannelBusy), Event::Nothing)
                } else if number == command_number(Command::Init) {
                    self.abort_transaction().ingest_initial(channel, packet, now_ms)
                } else if is_cancel {
                    if length != 0 {
                        (self.queue_error(channel, TransportError::InvalidLength), Event::Nothing)
                    } else if self.app_request is Some {
                        (HidModel { keepalive: None, ..self }, Event::Cancelled { channel })
                    } else {
                        (self, Event::Nothing)
                    }
                } else {
                    (
                        self.abort_transaction().queue_error(
                            channel,
                            TransportError::InvalidSequence,
                        ),
                        Event::Nothing,
                    )
                },
            }
        }
    }

    /// Answers the pending application request with `payload`.
    pub open spec fn reply(self, payload: Seq<u8>) -> (HidModel, Result<(), ReplyError>) {
        match self.app_request {
            None => (self, Err(ReplyError::NoPendingRequest)),
            Some(a) => {
                let s = HidModel { app_request: None, ..self.clear_request() };
                if payload.len() > self.capacity() {
                    (s.queue_error(a.channel, TransportError::InvalidLength), Err(ReplyError::ResponseTooLong))
                } else {
                    (
                        HidModel {
                            response: payload + zeros((self.response.len() - payload.len()) as nat),
                            ..s
                        }.start_transmit(a.channel, a.command, payload.len() as usize),
                        Ok(()),
                    )
                }
            },
        }
    }

    pub open spec fn keepalive(self, status: KeepaliveStatus) -> (HidModel, bool) {
        match self.app_request {
            None => (self, false),
            Some(a) => (HidModel { keepalive: Some((a.channel, status)), ..self }, true),
        }
    }

    pub open spec fn expire(self, now_ms: u32) -> HidModel {
        match self.receive {
            None => self,
            Some(r) => if vstd::wrapping::u32_specs::wrapping_sub(now_ms, r.last_activity_ms) > RECEIVE_TIMEOUT_MS {
                HidModel { receive: None, ..self }.reject(r.channel, TransportError::Timeout)
            } else {
                self
            },
        }
    }

    /// The report the engine would send next.
    pub open spec fn next_packet(self) -> Option<Seq<u8>> {
        if self.errors[0] is Some {
            let e = self.errors[0]->0;
            Some(
                initial_packet_bytes(e.channel, Command::Error, 1).update(
                    7,
                    transport_error_code(e.error),
                ),
            )
        } else if self.keepalive is Some {
            let (channel, status) = self.keepalive->0;
            Some(initial_packet_bytes(channel, Command::Keepalive, 1).update(7, keepalive_code(status)))
        } else {
            match self.transmit {
                None => None,
                Some(t) => {
                    let count = transmit_chunk(t);
                    if t.offset == 0 {
                        Some(
                            splice(
                                initial_packet_bytes(t.channel, t.command, t.length as nat),
                                7,
                                self.response.subrange(0, count),
                            ),
                        )
                    } else {
                        Some(
                            be_bytes_u32(t.channel) + seq![t.next_sequence] + self.response.subrange(
                                t.offset as int,
                                t.offset + count,
                            ) + zeros((59 - count) as nat),
                        )
                    }
                },
            }
        }
    }

    /// The state after the report from `next_packet` reached the host.
    pub open spec fn packet_sent(self) -> HidModel {
        if self.errors[0] is Some {
            HidModel { errors: self.errors.drop_first().push(None), ..self }
        } else if self.keepalive is Some {
            HidModel { keepalive: None, ..self }
        } else {
            match self.transmit {
                None => self,
                Some(t) => {
                    let offset = t.offset + transmit_chunk(t);
                    if offset >= t.length {
                        HidModel { transmit: None, ..self.clear_response() }
                    } else {
                        let next_sequence = if offset > INIT_PAYLOAD_SIZE {
                            (t.next_sequence + 1) as u8
                        } else {
                            t.next_sequence
                        };
                        HidModel {
                            transmit: Some(
                                TransmitState { offset: offset as usize, next_sequence, ..t },
                            ),
                            ..self
                        }
                    }
                },
            }
        }
    }

    /// The payload of the pending application request.
    pub open spec fn request_payload(self) -> Option<Seq<u8>> {
        match self.app_request {
            Some(a) => Some(self.request.subrange(0, a.length as int)),
            None => None,
        }
    }

    /// A malformed USB transfer: every transaction and every queued error go.
    pub open spec fn transport_error(self) -> HidModel {
        HidModel {
            errors: Seq::new(ERROR_CAPACITY as nat, |_i: int| None),
            ..self.abort_transaction()
        }
    }
}

/// Fixed-memory CTAPHID transport engine.
///
/// `N` is the maximum accepted CTAPHID message size and therefore also the
/// size of each request and response buffer.
pub struct CtapHid<const N: usize> {
    request: [u8; N],
    response: [u8; N],
    receive: Option<ReceiveState>,
    app_request: Option<AppRequest>,
    transmit: Option<TransmitState>,
    keepalive: Option<(u32, KeepaliveStatus)>,
    errors: [Option<PendingError>; ERROR_CAPACITY],
    last_channel: u32,
    version: DeviceVersion,
    capabilities: u8,
}

impl<const N: usize> View for CtapHid<N> {
    type V = HidModel;

    closed spec fn view(&self) -> HidModel {
        HidModel {
            request: self.request@,
            response: self.response@,
            receive: self.receive,
            app_request: self.app_request,
            transmit: self.transmit,
            keepalive: self.keepalive,
            errors: self.errors@,
            last_channel: self.last_channel,
            version: self.version,
            capabilities: self.capabilities,
        }
    }
}


/// Writes `src[from..from + count]` into `dst` from index `at` on.
fn copy_into<const M: usize>(dst: &mut [u8; M], at: usize, src: &[u8], from: usize, count: usize)
    requires
        at + count <= M,
        from + count <= src@.len(),
    ensures
        final(dst)@ == splice(old(dst)@, at as int, src@.subrange(from as int, from + count)),
{
    let ghost start = dst@;
    let n = src.len();
    let mut i: usize = 0;
    while i < count
        invariant
            i <= count,
            n == src@.len(),
            at + count <= M,
            from + count <= src@.len(),
            dst@ == splice(start, at as int, src@.subrange(from as int, from + i)),
        decreases count - i,
    {
        dst[at + i] = src[from + i];
        i = i + 1;
        assert(dst@ =~= splice(start, at as int, src@.subrange(from as int, from + i)));
    }
}

/// The initialization header of a report for `command` carrying a message of
/// `length` bytes (the length is sent modulo 2^16), with an empty payload.
pub fn initial_packet(channel: u32, command: Command, length: usize) -> (r: [u8; PACKET_SIZE])
    ensures
        r@ == initial_packet_bytes(channel, command, length as nat),
{
    let mut packet = [0u8; 64];
    assert(packet@ =~= zeros(64));
    let be = crate::bytes::u32_to_be_bytes(channel);
    packet[0] = be[0];
    packet[1] = be[1];
    packet[2] = be[2];
    packet[3] = be[3];
    packet[4] = command.number() + 0x80;
    let wire = length % 0x1_0000;
    packet[5] = (wire / 0x100) as u8;
    packet[6] = (wire % 0x100) as u8;
    assert(packet@ =~= initial_packet_bytes(channel, command, length as nat));
    packet
}

impl<const N: usize> CtapHid<N> {
    /// The engine's invariants hold.
    pub open spec fn wf(&self) -> bool {
        self@.wf(N as nat)
    }

    /// The state of a freshly created engine.
    pub open spec fn initial_model(version: DeviceVersion, capabilities: u8) -> HidModel {
        HidModel {
            request: zeros(N as nat),
            response: zeros(N as nat),
            receive: None,
            app_request: None,
            transmit: None,
            keepalive: None,
            errors: Seq::new(ERROR_CAPACITY as nat, |_i: int| None),
            last_channel: RESERVED_CHANNEL,
            version,
            capabilities,
        }
    }

    /// An engine with no channel allocated. The buffers must fit an INIT
    /// response and stay within the continuation sequence space.
    pub fn new(version: DeviceVersion, capabilities: u8) -> (r: Self)
        requires
            17 <= N <= MAX_CTAPHID_MESSAGE_SIZE,
        ensures
            r.wf(),
            r@ == Self::initial_model(version, capabilities),
    {
        let r = Self {
            request: vstd::array::array_fill_for_copy_types(0u8),
            response: vstd::array::array_fill_for_copy_types(0u8),
            receive: None,
            app_request: None,
            transmit: None,
            keepalive: None,
            errors: vstd::array::array_fill_for_copy_types(None),
            last_channel: RESERVED_CHANNEL,
            version,
            capabilities,
        };
        assert(r@.request =~= zeros(N as nat));
        assert(r@.response =~= zeros(N as nat));
        assert(r@.errors =~= Seq::new(ERROR_CAPACITY as nat, |_i: int| None));
        r
    }

    fn clear_request(&mut self)
        ensures
            final(self)@ == old(self)@.clear_request(),
    {
        zeroize_array(&mut self.request);
        assert(self@ == old(self)@.clear_request());
    }

    fn clear_response(&mut self)
        ensures
            final(self)@ == old(self)@.clear_response(),
    {
        zeroize_array(&mut self.response);
        assert(self@ == old(self)@.clear_response());
    }

    fn queue_error(&mut self, channel: u32, error: TransportError)
        ensures
            final(self)@ == old(self)@.queue_error(channel, error),
            errors_in_order(old(self)@.errors) ==> errors_in_order(final(self)@.errors),
    {
        let ghost errors = self@.errors;
        let mut i: usize = 0;
        while i < ERROR_CAPACITY
            invariant
                i <= ERROR_CAPACITY,
                self@ == old(self)@,
                errors == self@.errors,
                errors.len() == ERROR_CAPACITY,
                forall|j: int| 0 <= j < i ==> !#[trigger] slot_holds(errors[j], channel),
            decreases ERROR_CAPACITY - i,
        {
            if let Some(pending) = self.errors[i] {
                if pending.channel == channel {
                    assert(slot_holds(errors[i as int], channel));
                    return;
                }
            }
            i = i + 1;
        }
        assert(!exists|i: int| 0 <= i < errors.len() && #[trigger] slot_holds(errors[i], channel));
        let mut k: usize = 0;
        while k < ERROR_CAPACITY
            invariant
                k <= ERROR_CAPACITY,
                i == ERROR_CAPACITY,
                self@ == old(self)@,
                errors == self@.errors,
                errors.len() == ERROR_CAPACITY,
                forall|j: int| 0 <= j < i ==> !#[trigger] slot_holds(errors[j], channel),
                forall|j: int| 0 <= j < k ==> (#[trigger] errors[j]) is Some,
            decreases ERROR_CAPACITY - k,
        {
            if self.errors[k].is_none() {
                assert(is_first_free(errors, k as int));
                proof {
                    let c = choose|c: int| is_first_free(errors, c);
                    if c < k {
                        assert(errors[c] is Some);
                    } else if c > k {
                        assert(errors[k as int] is Some);
                    }
                }
                self.errors[k] = Some(PendingError { channel, error });
                assert(self@.errors =~= errors.update(k as int, Some(PendingError { channel, error })));
                proof {
                    lemma_queue_error_keeps_order(old(self)@, channel, error);
                }
                return;
            }
            k = k + 1;
        }
        assert(!exists|c: int| is_first_free(errors, c));
    }

    fn abort_transaction(&mut self)
        ensures
            final(self)@ == old(self)@.abort_transaction(),
    {
        zeroize_array(&mut self.request);
        zeroize_array(&mut self.response);
        self.receive = None;
        self.app_request = None;
        self.transmit = None;
        self.keepalive = None;
        assert(self@ == old(self)@.abort_transaction());
    }

    fn start_transmit(&mut self, channel: u32, command: Command, length: usize)
        ensures
            final(self)@ == old(self)@.start_transmit(channel, command, length),
    {
        self.transmit = Some(
            TransmitState { channel, command, length, offset: 0, next_sequence: 0 },
        );
    }

    fn is_allocated(&self, channel: u32) -> (r: bool)
        ensures
            r == self@.is_allocated(channel),
    {
        channel != RESERVED_CHANNEL && channel != BROADCAST_CHANNEL && channel <= self.last_channel
    }

    fn active_channel(&self) -> (r: Option<u32>)
        ensures
            r == self@.active_channel(),
    {
        match self.receive {
            Some(state) => Some(state.channel),
            None => match self.app_request {
                Some(request) => Some(request.channel),
                None => match self.transmit {
                    Some(state) => Some(state.channel),
                    None => None,
                },
            },
        }
    }

    fn allocate_channel(&mut self) -> (r: u32)
        ensures
            r == next_channel(old(self)@.last_channel),
            final(self)@ == (HidModel { last_channel: r, ..old(self)@ }),
    {
        let ghost original = self.last_channel;
        loop
            invariant
                self@ == (HidModel { last_channel: self.last_channel, ..old(self)@ }),
                original == old(self)@.last_channel,
                self.last_channel == original || (original == 0xffff_fffe && self.last_channel
                    == 0xffff_ffff) || (original >= 0xffff_fffe && self.last_channel == 0),
            decreases (if self.last_channel == 0xffff_fffe {
                2int
            } else if self.last_channel == 0xffff_ffff {
                1int
            } else {
                0int
            }),
        {
            self.last_channel = self.last_channel.wrapping_add(1);
            if self.last_channel != RESERVED_CHANNEL && self.last_channel != BROADCAST_CHANNEL {
                return self.last_channel;
            }
        }
    }

    /// Clears the request and queues `error` for `channel`.
    fn reject(&mut self, channel: u32, error: TransportError)
        ensures
            final(self)@ == old(self)@.reject(channel, error),
            errors_in_order(old(self)@.errors) ==> errors_in_order(final(self)@.errors),
    {
        self.clear_request();
        self.queue_error(channel, error);
    }

    fn dispatch_init(&mut self, channel: u32, length: usize) -> (r: Event)
        requires
            old(self).wf(),
        ensures
            final(self)@ == old(self)@.dispatch_init(channel, length).0,
            r == old(self)@.dispatch_init(channel, length).1,
            final(self).wf(),
    {
        if channel == RESERVED_CHANNEL {
            self.reject(channel, TransportError::InvalidChannel);
            return Event::Nothing;
        }
        if length != 8 {
            self.reject(channel, TransportError::InvalidLength);
            return Event::Nothing;
        }
        let assigned = if channel == BROADCAST_CHANNEL {
            self.allocate_channel()
        } else if self.is_allocated(channel) {
            channel
        } else {
            self.reject(channel, TransportError::InvalidChannel);
            return Event::Nothing;
        };
        let ghost before = self@;
        self.clear_response();
        copy_into(&mut self.response, 0, self.request.as_slice(), 0, 8);
        let be = crate::bytes::u32_to_be_bytes(assigned);
        self.response[8] = be[0];
        self.response[9] = be[1];
        self.response[10] = be[2];
        self.response[11] = be[3];
        self.response[12] = PROTOCOL_VERSION;
        self.response[13] = self.version.major;
        self.response[14] = self.version.minor;
        self.response[15] = self.version.build;
        self.response[16] = self.capabilities;
        assert(self@.response =~= init_response_bytes(
            before.request.subrange(0, 8),
            assigned,
            before.version,
            before.capabilities,
        ) + zeros((N - 17) as nat));
        self.clear_request();
        self.start_transmit(channel, Command::Init, 17);
        assert(self@ =~= old(self)@.dispatch_init(channel, length).0);
        Event::Nothing
    }

    fn dispatch(&mut self, channel: u32, command: Command, length: usize) -> (r: Event)
        requires
            old(self).wf(),
            length <= N,
        ensures
            final(self)@ == old(self)@.dispatch(channel, command, length).0,
            r == old(self)@.dispatch(channel, command, length).1,
            final(self).wf(),
    {
        if command == Command::Init {
            return self.dispatch_init(channel, length);
        }
        if channel == RESERVED_CHANNEL || channel == BROADCAST_CHANNEL || !self.is_allocated(
            channel,
        ) {
            self.reject(channel, TransportError::InvalidChannel);
            return Event::Nothing;
        }
        match command {
            Command::Ping => {
                let ghost before = self@;
                self.clear_response();
                copy_into(&mut self.response, 0, self.request.as_slice(), 0, length);
                assert(self@.response =~= before.request.subrange(0, length as int) + zeros(
                    (N - length) as nat,
                ));
                self.clear_request();
                self.start_transmit(channel, command, length);
                assert(self@ =~= old(self)@.dispatch(channel, command, length).0);
                Event::Nothing
            },
            Command::Cbor => {
                self.app_request = Some(AppRequest { channel, command, length });
                Event::Cbor { channel, length }
            },
            Command::Update => {
                self.app_request = Some(AppRequest { channel, command, length });
                Event::Update { channel, length }
            },
            Command::Cancel => {
                self.clear_request();
                Event::Nothing
            },
            _ => {
                self.reject(channel, TransportError::InvalidCommand);
                Event::Nothing
            },
        }
    }

    fn ingest_continuation(&mut self, channel: u32, packet: &[u8], now_ms: u32) -> (r: Event)
        requires
            old(self).wf(),
            packet@.len() == PACKET_SIZE,
        ensures
            final(self)@ == old(self)@.ingest_continuation(channel, packet@, now_ms).0,
            r == old(self)@.ingest_continuation(channel, packet@, now_ms).1,
            final(self).wf(),
    {
        let mut receive = match self.receive {
            Some(receive) => receive,
            None => return Event::Nothing,
        };
        if channel != receive.channel {
            return Event::Nothing;
        }
        if packet[4] != receive.next_sequence {
            self.receive = None;
            self.reject(channel, TransportError::InvalidSequence);
            return Event::Nothing;
        }
        let remaining = receive.length - receive.received;
        let count = if remaining < CONT_PAYLOAD_SIZE {
            remaining
        } else {
            CONT_PAYLOAD_SIZE
        };
        copy_into(&mut self.request, receive.received, packet, 5, count);
        receive.received = receive.received + count;
        receive.next_sequence = receive.next_sequence.wrapping_add(1);
        receive.last_activity_ms = now_ms;
        if receive.received == receive.length {
            self.receive = None;
            self.dispatch(receive.channel, receive.command, receive.length)
        } else {
            self.receive = Some(receive);
            assert(self@ =~= old(self)@.ingest_continuation(channel, packet@, now_ms).0);
            Event::Nothing
        }
    }

    fn ingest_initial(&mut self, channel: u32, packet: &[u8], now_ms: u32) -> (r: Event)
        requires
            old(self).wf(),
            packet@.len() == PACKET_SIZE,
            packet@[4] >= 0x80,
        ensures
            final(self)@ == old(self)@.ingest_initial(channel, packet@, now_ms).0,
            r == old(self)@.ingest_initial(channel, packet@, now_ms).1,
            final(self).wf(),
    {
        let number = packet[4] - 0x80;
        let length = (packet[5] as usize) * 0x100 + packet[6] as usize;
        self.clear_request();
        let command = match Command::from_number(number) {
            Some(command) => command,
            None => {
                self.queue_error(channel, TransportError::InvalidCommand);
                return Event::Nothing;
            },
        };
        if length > N {
            self.queue_error(channel, TransportError::InvalidLength);
            return Event::Nothing;
        }
        if (command == Command::Init && length != 8) || (command == Command::Cancel && length
            != 0) {
            self.queue_error(channel, TransportError::InvalidLength);
            return Event::Nothing;
        }
        let copied = if length < INIT_PAYLOAD_SIZE {
            length
        } else {
            INIT_PAYLOAD_SIZE
        };
        copy_into(&mut self.request, 0, packet, 7, copied);
        if length > INIT_PAYLOAD_SIZE {
            self.receive = Some(
                ReceiveState {
                    channel,
                    command,
                    length,
                    received: INIT_PAYLOAD_SIZE,
                    next_sequence: 0,
                    last_activity_ms: now_ms,
                },
            );
            assert(self@ =~= old(self)@.ingest_initial(channel, packet@, now_ms).0);
            Event::Nothing
        } else {
            self.dispatch(channel, command, length)
        }
    }

    fn ingest_packet(&mut self, packet: &[u8], now_ms: u32) -> (r: Event)
        requires
            old(self).wf(),
            packet@.len() == PACKET_SIZE,
        ensures
            final(self)@ == old(self)@.ingest(packet@, now_ms).0,
            r == old(self)@.ingest(packet@, now_ms).1,
            final(self).wf(),
    {
        let channel = (packet[0] as u32) * 0x100_0000 + (packet[1] as u32) * 0x1_0000 + (
        packet[2] as u32) * 0x100 + packet[3] as u32;
        assert(channel == be_u32_at(packet@, 0));
        if packet[4] < 0x80 {
            return self.ingest_continuation(channel, packet, now_ms);
        }
        let number = packet[4] - 0x80;
        let length = (packet[5] as usize) * 0x100 + packet[6] as usize;
        let is_cancel = number == Command::Cancel.number();
        if let Some(active) = self.active_channel() {
            if is_cancel && channel != active {
                return Event::Nothing;
            }
            if channel != active {
                self.queue_error(channel, TransportError::ChannelBusy);
                return Event::Nothing;
            }
            if number == Command::Init.number() {
                self.abort_transaction();
            } else if is_cancel {
                if length != 0 {
                    self.queue_error(channel, TransportError::InvalidLength);
                    return Event::Nothing;
                }
                return if self.cancel_application_request() {
                    Event::Cancelled { channel }
                } else {
                    Event::Nothing
                };
            } else {
                self.abort_transaction();
                self.queue_error(channel, TransportError::InvalidSequence);
                return Event::Nothing;
            }
        }
        self.ingest_initial(channel, packet, now_ms)
    }

    /// CTAPHID_CANCEL has no response of its own: keep the original
    /// application request until it returns its cancellation response.
    fn cancel_application_request(&mut self) -> (r: bool)
        ensures
            r == old(self)@.app_request is Some,
            final(self)@ == (if r {
                HidModel { keepalive: None, ..old(self)@ }
            } else {
                old(self)@
            }),
    {
        if self.app_request.is_none() {
            return false;
        }
        self.keepalive = None;
        true
    }

    /// Discard an untrustworthy USB transfer and any transaction it interrupted.
    /// No channel can be trusted in a truncated report.
    pub fn transport_error(&mut self)
        requires
            old(self).wf(),
        ensures
            final(self)@ == old(self)@.transport_error(),
            final(self).wf(),
    {
        self.abort_transaction();
        self.errors = vstd::array::array_fill_for_copy_types(None);
        assert(self@ =~= old(self)@.transport_error());
    }

    /// Ingest a USB report of any size: only a full 64-byte report is a
    /// CTAPHID packet; anything else is a transport error that interrupts the
    /// application.
    pub fn ingest_report(&mut self, report: &[u8], now_ms: u32) -> (r: (Event, bool))
        requires
            old(self).wf(),
        ensures
            final(self).wf(),
            report@.len() != PACKET_SIZE ==> final(self)@ == old(self)@.transport_error() && r == (
            Event::Nothing, true),
            report@.len() == PACKET_SIZE ==> {
                &&& final(self)@ == old(self)@.ingest(report@, now_ms).0
                &&& r.0 == old(self)@.ingest(report@, now_ms).1
                &&& r.1 == interrupted(old(self)@, final(self)@, r.0)
            },
    {
        if report.len() != PACKET_SIZE {
            self.transport_error();
            return (Event::Nothing, true);
        }
        self.ingest_slice_with_interruption(report, now_ms)
    }

    /// Ingest one 64-byte report.
    pub fn ingest(&mut self, packet: &[u8; PACKET_SIZE], now_ms: u32) -> (r: Event)
        requires
            old(self).wf(),
        ensures
            final(self)@ == old(self)@.ingest(packet@, now_ms).0,
            r == old(self)@.ingest(packet@, now_ms).1,
            final(self).wf(),
    {
        self.ingest_packet(packet.as_slice(), now_ms)
    }

    /// The payload of the request the application is working on.
    pub fn request_payload(&self) -> (r: Option<&[u8]>)
        requires
            self.wf(),
        ensures
            r matches Some(payload) ==> self@.request_payload() == Some(payload@),
            r is None <==> self@.request_payload() is None,
    {
        match self.app_request {
            Some(request) => Some(
                vstd::slice::slice_subrange(self.request.as_slice(), 0, request.length),
            ),
            None => None,
        }
    }

    fn ingest_slice_with_interruption(&mut self, packet: &[u8], now_ms: u32) -> (r: (
        Event,
        bool,
    ))
        requires
            old(self).wf(),
            packet@.len() == PACKET_SIZE,
        ensures
            final(self)@ == old(self)@.ingest(packet@, now_ms).0,
            r.0 == old(self)@.ingest(packet@, now_ms).1,
            r.1 == interrupted(old(self)@, final(self)@, r.0),
            final(self).wf(),
    {
        let application_was_running = self.app_request.is_some();
        let event = self.ingest_packet(packet, now_ms);
        let interrupted = (application_was_running && self.app_request.is_none())
            || matches!(event, Event::Cancelled { .. });
        (event, interrupted)
    }

    /// Ingest a report while an application may be waiting for user presence.
    /// The boolean reports both CANCEL and transport aborts, including INIT
    /// resynchronization, so neither can leave an application wait running.
    pub fn ingest_with_interruption(&mut self, packet: &[u8; PACKET_SIZE], now_ms: u32) -> (r: (
        Event,
        bool,
    ))
        requires
            old(self).wf(),
        ensures
            final(self)@ == old(self)@.ingest(packet@, now_ms).0,
            r.0 == old(self)@.ingest(packet@, now_ms).1,
            r.1 == interrupted(old(self)@, final(self)@, r.0),
            final(self).wf(),
    {
        self.ingest_slice_with_interruption(packet.as_slice(), now_ms)
    }

    /// Answer a pending CBOR request.
    pub fn reply_cbor(&mut self, payload: &[u8]) -> (r: Result<(), ReplyError>)
        requires
            old(self).wf(),
        ensures
            final(self)@ == old(self)@.reply(payload@).0,
            r == old(self)@.reply(payload@).1,
            final(self).wf(),
    {
        self.reply(payload)
    }

    /// Answer a pending update request.
    pub fn reply_update(&mut self, payload: &[u8]) -> (r: Result<(), ReplyError>)
        requires
            old(self).wf(),
        ensures
            final(self)@ == old(self)@.reply(payload@).0,
            r == old(self)@.reply(payload@).1,
            final(self).wf(),
    {
        self.reply(payload)
    }

    fn reply(&mut self, payload: &[u8]) -> (r: Result<(), ReplyError>)
        requires
            old(self).wf(),
        ensures
            final(self)@ == old(self)@.reply(payload@).0,
            r == old(self)@.reply(payload@).1,
            final(self).wf(),
    {
        let request = match self.app_request {
            Some(request) => request,
            None => return Err(ReplyError::NoPendingRequest),
        };
        self.app_request = None;
        self.clear_request();
        if payload.len() > N {
            self.queue_error(request.channel, TransportError::InvalidLength);
            return Err(ReplyError::ResponseTooLong);
        }
        let ghost before = self@;
        self.clear_response();
        copy_into(&mut self.response, 0, payload, 0, payload.len());
        assert(self@.response =~= payload@ + zeros((N - payload@.len()) as nat));
        self.start_transmit(request.channel, request.command, payload.len());
        assert(self@ =~= old(self)@.reply(payload@).0);
        Ok(())
    }

    /// Queue a CTAPHID_KEEPALIVE packet while a CBOR request is pending.
    pub fn keepalive(&mut self, status: KeepaliveStatus) -> (r: bool)
        requires
            old(self).wf(),
        ensures
            final(self)@ == old(self)@.keepalive(status).0,
            r == old(self)@.keepalive(status).1,
            final(self).wf(),
    {
        let request = match self.app_request {
            Some(request) => request,
            None => return false,
        };
        self.keepalive = Some((request.channel, status));
        true
    }

    /// Drop a fragmented request that has been silent for longer than the
    /// receive timeout and report the timeout on its channel.
    pub fn expire(&mut self, now_ms: u32)
        requires
            old(self).wf(),
        ensures
            final(self)@ == old(self)@.expire(now_ms),
            final(self).wf(),
    {
        let receive = match self.receive {
            Some(receive) => receive,
            None => return ,
        };
        if now_ms.wrapping_sub(receive.last_activity_ms) > RECEIVE_TIMEOUT_MS {
            self.receive = None;
            self.reject(receive.channel, TransportError::Timeout);
        }
    }

    /// Build the next fixed-size HID input report without advancing state.
    pub fn next_packet(&self) -> (r: Option<[u8; PACKET_SIZE]>)
        requires
            self.wf(),
        ensures
            r matches Some(packet) ==> self@.next_packet() == Some(packet@),
            r is None <==> self@.next_packet() is None,
    {
        if let Some(error) = self.errors[0] {
            let mut packet = initial_packet(error.channel, Command::Error, 1);
            packet[7] = error.error.number();
            assert(self@.next_packet() == Some(packet@));
            return Some(packet);
        }
        if let Some((channel, status)) = self.keepalive {
            let mut packet = initial_packet(channel, Command::Keepalive, 1);
            packet[7] = status.number();
            assert(self@.next_packet() == Some(packet@));
            return Some(packet);
        }
        let transmit = match self.transmit {
            Some(transmit) => transmit,
            None => return None,
        };
        if transmit.offset == 0 {
            let mut packet = initial_packet(transmit.channel, transmit.command, transmit.length);
            let count = if transmit.length < INIT_PAYLOAD_SIZE {
                transmit.length
            } else {
                INIT_PAYLOAD_SIZE
            };
            let ghost header = packet@;
            copy_into(&mut packet, 7, self.response.as_slice(), 0, count);
            assert(self@.next_packet() == Some(packet@));
            Some(packet)
        } else {
            let mut packet = [0u8; 64];
            let be = crate::bytes::u32_to_be_bytes(transmit.channel);
            packet[0] = be[0];
            packet[1] = be[1];
            packet[2] = be[2];
            packet[3] = be[3];
            packet[4] = transmit.next_sequence;
            let remaining = transmit.length - transmit.offset;
            let count = if remaining < CONT_PAYLOAD_SIZE {
                remaining
            } else {
                CONT_PAYLOAD_SIZE
            };
            let ghost header = packet@;
            copy_into(&mut packet, 5, self.response.as_slice(), transmit.offset, count);
            assert(packet@ =~= be_bytes_u32(transmit.channel) + seq![transmit.next_sequence]
                + self@.response.subrange(transmit.offset as int, transmit.offset + count) + zeros(
                (59 - count) as nat,
            ));
            Some(packet)
        }
    }

    /// Confirm that the packet returned by `next_packet` reached the USB host.
    pub fn packet_sent(&mut self)
        requires
            old(self).wf(),
        ensures
            final(self)@ == old(self)@.packet_sent(),
            final(self).wf(),
    {
        if self.errors[0].is_some() {
            let ghost errors = self@.errors;
            let mut i: usize = 0;
            while i < ERROR_CAPACITY - 1
                invariant
                    i <= ERROR_CAPACITY - 1,
                    self@ == (HidModel { errors: self@.errors, ..old(self)@ }),
                    self@.errors.len() == ERROR_CAPACITY,
                    errors == old(self)@.errors,
                    forall|j: int| 0 <= j < i ==> self@.errors[j] == errors[j + 1],
                    forall|j: int| i <= j < ERROR_CAPACITY ==> self@.errors[j] == errors[j],
                decreases ERROR_CAPACITY - 1 - i,
            {
                self.errors[i] = self.errors[i + 1];
                i = i + 1;
            }
            self.errors[ERROR_CAPACITY - 1] = None;
            assert(self@.errors =~= errors.drop_first().push(None));
            assert(self@ =~= old(self)@.packet_sent());
            return;
        }
        if self.keepalive.is_some() {
            self.keepalive = None;
            return;
        }
        let mut transmit = match self.transmit {
            Some(transmit) => transmit,
            None => return ,
        };
        let count = if transmit.offset == 0 {
            if transmit.length < INIT_PAYLOAD_SIZE {
                transmit.length
            } else {
                INIT_PAYLOAD_SIZE
            }
        } else {
            let remaining = transmit.length - transmit.offset;
            if remaining < CONT_PAYLOAD_SIZE {
                remaining
            } else {
                CONT_PAYLOAD_SIZE
            }
        };
        transmit.offset = transmit.offset + count;
        if transmit.offset >= transmit.length {
            self.transmit = None;
            self.clear_response();
        } else {
            if transmit.offset > INIT_PAYLOAD_SIZE {
                transmit.next_sequence = transmit.next_sequence.wrapping_add(1);
            }
            self.transmit = Some(transmit);
            assert(self@ =~= old(self)@.packet_sent());
        }
    }
}

/// A report interrupts an application wait when it ends the pending
/// application request or cancels it.
pub open spec fn interrupted(before: HidModel, after: HidModel, event: Event) -> bool {
    (before.app_request is Some && after.app_request is None) || event is Cancelled
}

impl<const N: usize> CtapHid<N> {
    /// The whole request buffer.
    pub fn request_buffer(&self) -> (r: &[u8])
        ensures
            r@ == self@.request,
    {
        self.request.as_slice()
    }

    /// The whole response buffer.
    pub fn response_buffer(&self) -> (r: &[u8])
        ensures
            r@ == self@.response,
    {
        self.response.as_slice()
    }

    /// Bytes received so far and total length of the request being
    /// reassembled, if any.
    pub fn receive_progress(&self) -> (r: Option<(usize, usize)>)
        ensures
            r == (match self@.receive {
                Some(state) => Some((state.received, state.length)),
                None => None,
            }),
    {
        match self.receive {
            Some(state) => Some((state.received, state.length)),
            None => None,
        }
    }

    /// Bytes sent so far and total length of the response being sent, if any.
    pub fn transmit_progress(&self) -> (r: Option<(usize, usize)>)
        ensures
            r == (match self@.transmit {
                Some(state) => Some((state.offset, state.length)),
                None => None,
            }),
    {
        match self.transmit {
            Some(state) => Some((state.offset, state.length)),
            None => None,
        }
    }
}

/// The channel allocator never hands out the reserved or the broadcast
/// channel, and it counts upwards until the channel space wraps.
pub proof fn lemma_allocated_channels_are_assignable(last: u32)
    ensures
        next_channel(last) != RESERVED_CHANNEL,
        next_channel(last) != BROADCAST_CHANNEL,
        last < 0xffff_fffe ==> next_channel(last) == last + 1,
{
}

/// A broadcast INIT with an 8-byte nonce allocates a fresh channel and answers
/// on the broadcast channel with the nonce, the new channel and the device
/// description; the new channel is then allocated.
pub proof fn lemma_broadcast_init_allocates(s: HidModel, n: nat)
    requires
        s.wf(n),
    ensures
        ({
            let (t, event) = s.dispatch_init(BROADCAST_CHANNEL, 8);
            let channel = next_channel(s.last_channel);
            &&& event == Event::Nothing
            &&& t.last_channel == channel
            &&& t.is_allocated(channel)
            &&& t.response.subrange(0, 17) == init_response_bytes(
                s.request.subrange(0, 8),
                channel,
                s.version,
                s.capabilities,
            )
            &&& t.transmit == Some(
                TransmitState {
                    channel: BROADCAST_CHANNEL,
                    command: Command::Init,
                    length: 17,
                    offset: 0,
                    next_sequence: 0,
                },
            )
            &&& t.request == zeros(n)
        }),
{
    let (t, _) = s.dispatch_init(BROADCAST_CHANNEL, 8);
    let channel = next_channel(s.last_channel);
    let payload = init_response_bytes(s.request.subrange(0, 8), channel, s.version, s.capabilities);
    assert(t.response.subrange(0, 17) =~= payload);
}

/// Answering the application clears the request buffer, whether or not the
/// reply fits.
pub proof fn lemma_reply_clears_request(s: HidModel, payload: Seq<u8>)
    requires
        s.app_request is Some,
    ensures
        s.reply(payload).0.request == zeros(s.request.len()),
        s.reply(payload).0.app_request is None,
{
}

/// A reply that fits is sent next: once no error or keepalive is waiting, the
/// next report is the initialization packet of the request's channel and
/// command, carrying the reply's length and first bytes.
pub proof fn lemma_reply_is_sent_next(s: HidModel, n: nat, payload: Seq<u8>)
    requires
        s.wf(n),
        s.app_request is Some,
        payload.len() <= n,
        forall|i: int| 0 <= i < ERROR_CAPACITY ==> (#[trigger] s.errors[i]) is None,
        s.keepalive is None,
    ensures
        ({
            let a = s.app_request->0;
            let (t, result) = s.reply(payload);
            &&& result == Ok::<(), ReplyError>(())
            &&& t.wf(n)
            &&& t.next_packet() == Some(
                splice(
                    initial_packet_bytes(a.channel, a.command, payload.len()),
                    7,
                    payload.subrange(0, min(payload.len() as int, INIT_PAYLOAD_SIZE as int)),
                ),
            )
        }),
{
    let a = s.app_request->0;
    let (t, _) = s.reply(payload);
    assert(s.errors[0] is None);
    let count = min(payload.len() as int, INIT_PAYLOAD_SIZE as int);
    assert(t.response.subrange(0, count) =~= payload.subrange(0, count));
}

/// When the last chunk of a response has reached the host, the transmission
/// ends and the response buffer is cleared.
pub proof fn lemma_finished_transmission_clears_response(s: HidModel, n: nat)
    requires
        s.wf(n),
        s.errors[0] is None,
        s.keepalive is None,
        s.transmit matches Some(t) && t.offset + transmit_chunk(t) >= t.length,
    ensures
        s.packet_sent().transmit is None,
        s.packet_sent().response == zeros(n),
{
}

/// A continuation out of sequence ends the reassembly, clears the request and
/// reports the sequence error on its channel.
pub proof fn lemma_sequence_error_clears_request(s: HidModel, n: nat, packet: Seq<u8>, now_ms: u32)
    requires
        s.wf(n),
        packet.len() == PACKET_SIZE,
        packet[4] < 0x80,
        s.receive matches Some(r) && r.channel == be_u32_at(packet, 0) && packet[4]
            != r.next_sequence,
    ensures
        s.ingest(packet, now_ms).0.receive is None,
        s.ingest(packet, now_ms).0.request == zeros(n),
        s.ingest(packet, now_ms).1 == Event::Nothing,
{
}

/// A request that stays silent past the timeout is dropped and its buffer
/// cleared.
pub proof fn lemma_timeout_clears_request(s: HidModel, n: nat, now_ms: u32)
    requires
        s.wf(n),
        s.receive matches Some(r) && vstd::wrapping::u32_specs::wrapping_sub(
            now_ms,
            r.last_activity_ms,
        ) > RECEIVE_TIMEOUT_MS,
    ensures
        s.expire(now_ms).receive is None,
        s.expire(now_ms).request == zeros(n),
{
}

/// An initialization packet on another channel never disturbs the transaction
/// in progress or its buffers; at most an error is queued for the intruder.
pub proof fn lemma_other_channel_cannot_disturb(s: HidModel, packet: Seq<u8>, now_ms: u32)
    requires
        packet.len() == PACKET_SIZE,
        packet[4] >= 0x80,
        s.active_channel() matches Some(active) && active != be_u32_at(packet, 0),
    ensures
        ({
            let (t, event) = s.ingest(packet, now_ms);
            &&& event == Event::Nothing
            &&& t.request == s.request
            &&& t.response == s.response
            &&& t.receive == s.receive
            &&& t.app_request == s.app_request
            &&& t.transmit == s.transmit
            &&& t.keepalive == s.keepalive
        }),
{
}

/// CTAPHID_CANCEL on the channel of a pending application request keeps the
/// request (its own reply answers the cancellation), stops any keepalive, and
/// reports the cancellation as an interruption.
pub proof fn lemma_cancel_keeps_application_request(s: HidModel, packet: Seq<u8>, now_ms: u32)
    requires
        packet.len() == PACKET_SIZE,
        packet[4] == command_number(Command::Cancel) + 0x80,
        be_u16_at(packet, 5) == 0,
        s.receive is None,
        s.app_request matches Some(a) && a.channel == be_u32_at(packet, 0),
    ensures
        ({
            let (t, event) = s.ingest(packet, now_ms);
            &&& event == Event::Cancelled { channel: be_u32_at(packet, 0) }
            &&& t.app_request == s.app_request
            &&& t.request == s.request
            &&& t.keepalive is None
            &&& interrupted(s, t, event)
        }),
{
}

/// CTAPHID_INIT on the channel of a pending application request discards the
/// request, which counts as an interruption.
pub proof fn lemma_init_interrupts_application(s: HidModel, packet: Seq<u8>, now_ms: u32)
    requires
        packet.len() == PACKET_SIZE,
        packet[4] == command_number(Command::Init) + 0x80,
        s.receive is None,
        s.app_request matches Some(a) && a.channel == be_u32_at(packet, 0),
    ensures
        ({
            let (t, event) = s.ingest(packet, now_ms);
            &&& t.app_request is None
            &&& interrupted(s, t, event)
        }),
{
}

/// After a malformed USB transfer nothing is pending: no request for the
/// application, no report to send and no reassembly in progress.
pub proof fn lemma_transport_error_resets(s: HidModel)
    requires
        s.errors.len() == ERROR_CAPACITY,
    ensures
        s.transport_error().request_payload() is None,
        s.transport_error().next_packet() is None,
        s.transport_error().receive is None,
        s.transport_error().last_channel == s.last_channel,
{
}

/// The number of reports a message of `length` bytes takes: one
/// initialization report, then continuations of 59 bytes each.
pub open spec fn packet_count(length: nat) -> nat {
    if length <= INIT_PAYLOAD_SIZE {
        1
    } else {
        1 + ((length - INIT_PAYLOAD_SIZE + CONT_PAYLOAD_SIZE - 1) / CONT_PAYLOAD_SIZE as int) as nat
    }
}

/// The payload area of report `i` of a message: bytes 7.. of the
/// initialization report, bytes 5.. of a continuation.
pub open spec fn payload_area(packets: Seq<Seq<u8>>, i: int) -> Seq<u8> {
    if i == 0 {
        packets[0].subrange(7, 64)
    } else {
        packets[i].subrange(5, 64)
    }
}

/// The payload areas of the first `count` reports, joined in order.
pub open spec fn carried(packets: Seq<Seq<u8>>, count: nat) -> Seq<u8>
    decreases count,
{
    if count == 0 {
        Seq::empty()
    } else {
        carried(packets, (count - 1) as nat) + payload_area(packets, count - 1)
    }
}

/// `packets` are the reports of one message of `length` bytes for `command`
/// on `channel`, in order: the initialization report carrying the command and
/// the length, then the continuations numbered from zero.
pub open spec fn message_reports(
    packets: Seq<Seq<u8>>,
    channel: u32,
    command: Command,
    length: nat,
) -> bool {
    &&& packets.len() == packet_count(length)
    &&& forall|i: int|
        0 <= i < packets.len() ==> (#[trigger] packets[i]).len() == PACKET_SIZE && be_u32_at(
            packets[i],
            0,
        ) == channel
    &&& packets[0][4] == command_number(command) + 0x80
    &&& be_u16_at(packets[0], 5) == length
    &&& forall|i: int| 1 <= i < packets.len() ==> (#[trigger] packets[i])[4] == i - 1
}

/// The engine after ingesting the first `count` reports in order, with the
/// event of the last one.
pub open spec fn ingest_reports(s: HidModel, packets: Seq<Seq<u8>>, count: nat, now_ms: u32) -> (
    HidModel,
    Event,
)
    decreases count,
{
    if count == 0 {
        (s, Event::Nothing)
    } else {
        ingest_reports(s, packets, (count - 1) as nat, now_ms).0.ingest(packets[count - 1], now_ms)
    }
}

proof fn lemma_packet_count_bounds(length: nat)
    requires
        length > INIT_PAYLOAD_SIZE,
    ensures
        INIT_PAYLOAD_SIZE + CONT_PAYLOAD_SIZE * (packet_count(length) - 2) < length,
        length <= INIT_PAYLOAD_SIZE + CONT_PAYLOAD_SIZE * (packet_count(length) - 1),
{
    let x = length - INIT_PAYLOAD_SIZE + CONT_PAYLOAD_SIZE - 1;
    vstd::arithmetic::div_mod::lemma_fundamental_div_mod(x, 59);
    vstd::arithmetic::div_mod::lemma_remainder(x, 59);
}

/// While a message of more than one report arrives, after its first `i`
/// reports the engine reassembles it on its channel with the payload carried
/// so far at the start of the request buffer.
proof fn lemma_reassembly_progress(
    s: HidModel,
    n: nat,
    packets: Seq<Seq<u8>>,
    channel: u32,
    command: Command,
    length: usize,
    now_ms: u32,
    i: nat,
)
    requires
        s.wf(n),
        s.active_channel() is None,
        command != Command::Init,
        command != Command::Cancel,
        INIT_PAYLOAD_SIZE < length <= n,
        message_reports(packets, channel, command, length as nat),
        1 <= i < packets.len(),
    ensures
        ({
            let t = ingest_reports(s, packets, i, now_ms).0;
            &&& t.receive == Some(
                ReceiveState {
                    channel,
                    command,
                    length,
                    received: (INIT_PAYLOAD_SIZE + CONT_PAYLOAD_SIZE * (i - 1)) as usize,
                    next_sequence: (i - 1) as u8,
                    last_activity_ms: now_ms,
                },
            )
            &&& t.request.len() == n
            &&& t.request.subrange(0, INIT_PAYLOAD_SIZE + CONT_PAYLOAD_SIZE * (i - 1)) == carried(
                packets,
                i,
            )
            &&& t.response == s.response
            &&& t.app_request is None
            &&& t.transmit is None
            &&& t.keepalive == s.keepalive
            &&& t.errors == s.errors
            &&& t.last_channel == s.last_channel
            &&& t.version == s.version
            &&& t.capabilities == s.capabilities
        }),
    decreases i,
{
    lemma_packet_count_bounds(length as nat);
    lemma_command_number_round_trip(command, 0);
    assert(carried(packets, 0) =~= Seq::<u8>::empty());
    if i == 1 {
        let p = packets[0];
        assert(p.len() == PACKET_SIZE);
        let t = ingest_reports(s, packets, 1, now_ms).0;
        assert(ingest_reports(s, packets, 0, now_ms).0 == s);
        assert(t.request.subrange(0, 57) =~= p.subrange(7, 64));
        assert(carried(packets, 1) =~= p.subrange(7, 64));
    } else {
        lemma_reassembly_progress(s, n, packets, channel, command, length, now_ms, (i - 1) as nat);
        let before = ingest_reports(s, packets, (i - 1) as nat, now_ms).0;
        let p = packets[i - 1];
        assert(p.len() == PACKET_SIZE);
        assert(p[4] == i - 2);
        let received = INIT_PAYLOAD_SIZE + CONT_PAYLOAD_SIZE * (i - 2);
        let t = ingest_reports(s, packets, i, now_ms).0;
        assert(received + 59 < length);
        assert(t.request =~= splice(before.request, received, p.subrange(5, 64)));
        assert(t.request.subrange(0, received + 59) =~= before.request.subrange(0, received)
            + p.subrange(5, 64));
    }
}

/// The request a complete message leaves for dispatch: its first `length`
/// bytes are the payload carried by the reports in arrival order, and
/// nothing else of the engine moved.
proof fn lemma_reassembled(
    s: HidModel,
    n: nat,
    packets: Seq<Seq<u8>>,
    channel: u32,
    command: Command,
    length: usize,
    now_ms: u32,
) -> (u: HidModel)
    requires
        s.wf(n),
        s.active_channel() is None,
        command != Command::Init,
        command != Command::Cancel,
        length <= n,
        message_reports(packets, channel, command, length as nat),
    ensures
        ingest_reports(s, packets, packets.len(), now_ms) == u.dispatch(channel, command, length),
        u.request.len() == n,
        u.request.subrange(0, length as int) == carried(packets, packets.len()).subrange(
            0,
            length as int,
        ),
        u == (HidModel { request: u.request, ..s }),
{
    lemma_command_number_round_trip(command, 0);
    let count = packets.len();
    assert(carried(packets, 0) =~= Seq::<u8>::empty());
    assert(ingest_reports(s, packets, 0, now_ms).0 == s);
    if length <= INIT_PAYLOAD_SIZE {
        let p = packets[0];
        assert(p.len() == PACKET_SIZE);
        let u = HidModel {
            request: splice(zeros(n), 0, p.subrange(7, 7 + length as int)),
            ..s
        };
        assert(carried(packets, 1) =~= p.subrange(7, 64));
        assert(u.request.subrange(0, length as int) =~= p.subrange(7, 64).subrange(
            0,
            length as int,
        ));
        assert(s.clear_request() == HidModel { request: zeros(n), ..s });
        u
    } else {
        lemma_packet_count_bounds(length as nat);
        lemma_reassembly_progress(s, n, packets, channel, command, length, now_ms, (count - 1) as nat);
        let before = ingest_reports(s, packets, (count - 1) as nat, now_ms).0;
        let p = packets[count - 1];
        assert(p.len() == PACKET_SIZE);
        assert(p[4] == count - 2);
        let received = INIT_PAYLOAD_SIZE + CONT_PAYLOAD_SIZE * (count - 2);
        let rest = length - received;
        let request = splice(before.request, received, p.subrange(5, 5 + rest));
        let u = HidModel { request, ..s };
        assert(carried(packets, count) == carried(packets, (count - 1) as nat) + p.subrange(5, 64));
        assert(u.request.subrange(0, length as int) =~= carried(packets, count).subrange(
            0,
            length as int,
        ));
        u
    }
}

/// A CTAPHID_CBOR or update request, sent as an initialization report and its
/// continuations in order on an allocated channel while no transaction is in
/// progress, is announced with its channel and length by the last report, and
/// its payload is then the bytes the reports carried, in arrival order, cut
/// to the announced length.
pub proof fn lemma_reassembly_in_arrival_order(
    s: HidModel,
    n: nat,
    packets: Seq<Seq<u8>>,
    channel: u32,
    command: Command,
    length: usize,
    now_ms: u32,
)
    requires
        s.wf(n),
        s.active_channel() is None,
        s.is_allocated(channel),
        command == Command::Cbor || command == Command::Update,
        length <= n,
        message_reports(packets, channel, command, length as nat),
    ensures
        ({
            let (t, event) = ingest_reports(s, packets, packets.len(), now_ms);
            &&& event == (if command == Command::Cbor {
                Event::Cbor { channel, length }
            } else {
                Event::Update { channel, length }
            })
            &&& t.app_request == Some(AppRequest { channel, command, length })
            &&& t.request_payload() == Some(
                carried(packets, packets.len()).subrange(0, length as int),
            )
        }),
{
    let u = lemma_reassembled(s, n, packets, channel, command, length, now_ms);
}

/// The engine after `k` of its reports reached the host.
pub open spec fn send_rounds(s: HidModel, k: nat) -> HidModel
    decreases k,
{
    if k == 0 {
        s
    } else {
        send_rounds(s, (k - 1) as nat).packet_sent()
    }
}

/// The first `k` reports the engine sends, each taken from `next_packet`
/// before it is marked sent.
pub open spec fn sent_reports(s: HidModel, k: nat) -> Seq<Seq<u8>> {
    Seq::new(k, |i: int| send_rounds(s, i as nat).next_packet()->Some_0)
}

/// Where round `k` of a transmission starts in the response.
pub open spec fn round_offset(k: int) -> int {
    if k == 0 {
        0
    } else {
        INIT_PAYLOAD_SIZE + CONT_PAYLOAD_SIZE * (k - 1)
    }
}

proof fn lemma_be_u16_round_trip(length: nat)
    requires
        length < 0x1_0000,
    ensures
        be_u16_at(be_bytes_u16(length), 0) == length,
{
    vstd::arithmetic::div_mod::lemma_fundamental_div_mod(length as int, 256);
    vstd::arithmetic::div_mod::lemma_remainder(length as int, 256);
}

/// While a response of `length` bytes is sent, round `k` finds the
/// transmission at `round_offset(k)` and sends the initialization report or
/// continuation `k - 1` with the next bytes of the response.
proof fn lemma_fragment_progress(
    s: HidModel,
    n: nat,
    channel: u32,
    command: Command,
    length: usize,
    k: nat,
)
    requires
        s.wf(n),
        forall|i: int| 0 <= i < ERROR_CAPACITY ==> (#[trigger] s.errors[i]) is None,
        s.keepalive is None,
        s.transmit == Some(
            TransmitState { channel, command, length, offset: 0, next_sequence: 0 },
        ),
        k < packet_count(length as nat),
    ensures
        ({
            let t = send_rounds(s, k);
            let offset = round_offset(k as int);
            let count = min(length - offset, if k == 0 {
                INIT_PAYLOAD_SIZE as int
            } else {
                CONT_PAYLOAD_SIZE as int
            });
            &&& t.wf(n)
            &&& forall|i: int| 0 <= i < ERROR_CAPACITY ==> (#[trigger] t.errors[i]) is None
            &&& t.keepalive is None
            &&& t.response == s.response
            &&& t.transmit == Some(
                TransmitState {
                    channel,
                    command,
                    length,
                    offset: offset as usize,
                    next_sequence: if k == 0 {
                        0u8
                    } else {
                        (k - 1) as u8
                    },
                },
            )
            &&& t.next_packet() == Some(
                if k == 0 {
                    splice(
                        initial_packet_bytes(channel, command, length as nat),
                        7,
                        s.response.subrange(0, count),
                    )
                } else {
                    be_bytes_u32(channel) + seq![(k - 1) as u8] + s.response.subrange(
                        offset,
                        offset + count,
                    ) + zeros((59 - count) as nat)
                },
            )
        }),
    decreases k,
{
    if k > 0 {
        lemma_fragment_progress(s, n, channel, command, length, (k - 1) as nat);
        let before = send_rounds(s, (k - 1) as nat);
        if length > INIT_PAYLOAD_SIZE {
            lemma_packet_count_bounds(length as nat);
        }
        assert(before.errors[0] is None);
        let t = send_rounds(s, k);
        assert forall|i: int| 0 <= i < ERROR_CAPACITY implies (#[trigger] t.errors[i]) is None by {
            assert(before.errors[i] is None);
        }
    } else {
        assert(s.errors[0] is None);
    }
}

/// The payload the first `k` sent reports carry is the start of the response.
proof fn lemma_fragments_carry_response(
    s: HidModel,
    n: nat,
    channel: u32,
    command: Command,
    length: usize,
    reports: Seq<Seq<u8>>,
    k: nat,
)
    requires
        s.wf(n),
        forall|i: int| 0 <= i < ERROR_CAPACITY ==> (#[trigger] s.errors[i]) is None,
        s.keepalive is None,
        s.transmit == Some(
            TransmitState { channel, command, length, offset: 0, next_sequence: 0 },
        ),
        reports == sent_reports(s, packet_count(length as nat)),
        k <= packet_count(length as nat),
    ensures
        carried(reports, k).len() == round_offset(k as int),
        carried(reports, k).subrange(0, min(length as int, round_offset(k as int)))
            == s.response.subrange(0, min(length as int, round_offset(k as int))),
    decreases k,
{
    if k > 0 {
        let j = (k - 1) as nat;
        lemma_fragments_carry_response(s, n, channel, command, length, reports, j);
        lemma_fragment_progress(s, n, channel, command, length, j);
        if length > INIT_PAYLOAD_SIZE {
            lemma_packet_count_bounds(length as nat);
        }
        let packet = reports[j as int];
        assert(packet == send_rounds(s, j).next_packet()->Some_0);
        let previous = carried(reports, j);
        let whole = carried(reports, k);
        assert(whole == previous + payload_area(reports, j as int));
        let end = min(length as int, round_offset(k as int));
        assert(whole.subrange(0, end) =~= s.response.subrange(0, end)) by {
            assert forall|i: int| 0 <= i < end implies whole[i] == s.response[i] by {
                if i < round_offset(j as int) {
                    assert(previous.subrange(0, min(length as int, round_offset(j as int)))[i]
                        == s.response.subrange(0, min(length as int, round_offset(j as int)))[i]);
                }
            }
        }
    }
}

proof fn lemma_fragment_reports_shape(
    s: HidModel,
    n: nat,
    channel: u32,
    command: Command,
    length: usize,
)
    requires
        s.wf(n),
        forall|i: int| 0 <= i < ERROR_CAPACITY ==> (#[trigger] s.errors[i]) is None,
        s.keepalive is None,
        s.transmit == Some(
            TransmitState { channel, command, length, offset: 0, next_sequence: 0 },
        ),
    ensures
        message_reports(sent_reports(s, packet_count(length as nat)), channel, command, length as nat),
{
    let count = packet_count(length as nat);
    let reports = sent_reports(s, count);
    assert forall|i: int| 0 <= i < reports.len() implies (#[trigger] reports[i]).len() == PACKET_SIZE
        && be_u32_at(reports[i], 0) == channel by {
        lemma_fragment_progress(s, n, channel, command, length, i as nat);
        if i > 0 {
            assert(reports[i].subrange(0, 4) =~= be_bytes_u32(channel));
        }
    }
    assert forall|i: int| 1 <= i < reports.len() implies (#[trigger] reports[i])[4] == i - 1 by {
        lemma_fragment_progress(s, n, channel, command, length, i as nat);
    }
    lemma_fragment_progress(s, n, channel, command, length, 0);
    lemma_command_number_round_trip(command, 0);
    lemma_be_u16_round_trip(length as nat);
}

proof fn lemma_fragment_ends(s: HidModel, n: nat, channel: u32, command: Command, length: usize)
    requires
        s.wf(n),
        forall|i: int| 0 <= i < ERROR_CAPACITY ==> (#[trigger] s.errors[i]) is None,
        s.keepalive is None,
        s.transmit == Some(
            TransmitState { channel, command, length, offset: 0, next_sequence: 0 },
        ),
    ensures
        send_rounds(s, packet_count(length as nat)).transmit is None,
        send_rounds(s, packet_count(length as nat)).next_packet() is None,
{
    let count = packet_count(length as nat);
    if length > INIT_PAYLOAD_SIZE {
        lemma_packet_count_bounds(length as nat);
    }
    lemma_fragment_progress(s, n, channel, command, length, (count - 1) as nat);
    let last = send_rounds(s, (count - 1) as nat);
    assert(last.errors[0] is None);
}

/// A response of `length` bytes, with no error or keepalive waiting, goes out
/// in `packet_count(length)` reports: the initialization report with its
/// channel, command and length, then continuations numbered from zero on the
/// same channel. The payload they carry, cut to the length, is the response;
/// afterwards the transmission is over and nothing more is sent.
pub proof fn lemma_fragmentation(s: HidModel, n: nat, channel: u32, command: Command, length: usize)
    requires
        s.wf(n),
        forall|i: int| 0 <= i < ERROR_CAPACITY ==> (#[trigger] s.errors[i]) is None,
        s.keepalive is None,
        s.transmit == Some(
            TransmitState { channel, command, length, offset: 0, next_sequence: 0 },
        ),
    ensures
        ({
            let count = packet_count(length as nat);
            let reports = sent_reports(s, count);
            &&& forall|k: int|
                0 <= k < count ==> (#[trigger] send_rounds(s, k as nat)).next_packet() is Some
            &&& message_reports(reports, channel, command, length as nat)
            &&& carried(reports, count).subrange(0, length as int) == s.response.subrange(
                0,
                length as int,
            )
            &&& send_rounds(s, count).transmit is None
            &&& send_rounds(s, count).next_packet() is None
        }),
{
    let count = packet_count(length as nat);
    let reports = sent_reports(s, count);
    assert forall|k: int| 0 <= k < count implies (#[trigger] send_rounds(
        s,
        k as nat,
    )).next_packet() is Some by {
        lemma_fragment_progress(s, n, channel, command, length, k as nat);
    }
    lemma_fragment_reports_shape(s, n, channel, command, length);
    lemma_fragments_carry_response(s, n, channel, command, length, reports, count);
    if length > INIT_PAYLOAD_SIZE {
        lemma_packet_count_bounds(length as nat);
    }
    lemma_fragment_ends(s, n, channel, command, length);
}

/// A CTAPHID_PING, sent as an initialization report and its continuations in
/// order on an allocated channel while no transaction is in progress and no
/// error or keepalive waits, is echoed: the engine answers on the same
/// channel with as many reports, numbered the same way, carrying the same
/// payload, and then sends nothing more.
pub proof fn lemma_ping_round_trip(
    s: HidModel,
    n: nat,
    packets: Seq<Seq<u8>>,
    channel: u32,
    length: usize,
    now_ms: u32,
)
    requires
        s.wf(n),
        s.active_channel() is None,
        s.is_allocated(channel),
        forall|i: int| 0 <= i < ERROR_CAPACITY ==> (#[trigger] s.errors[i]) is None,
        s.keepalive is None,
        length <= n,
        message_reports(packets, channel, Command::Ping, length as nat),
    ensures
        ({
            let (t, event) = ingest_reports(s, packets, packets.len(), now_ms);
            let count = packet_count(length as nat);
            let replies = sent_reports(t, count);
            &&& event == Event::Nothing
            &&& forall|k: int|
                0 <= k < count ==> (#[trigger] send_rounds(t, k as nat)).next_packet() is Some
            &&& message_reports(replies, channel, Command::Ping, length as nat)
            &&& carried(replies, count).subrange(0, length as int) == carried(
                packets,
                count,
            ).subrange(0, length as int)
            &&& send_rounds(t, count).next_packet() is None
        }),
{
    let u = lemma_reassembled(s, n, packets, channel, Command::Ping, length, now_ms);
    let t = ingest_reports(s, packets, packets.len(), now_ms).0;
    assert(t.response.subrange(0, length as int) =~= u.request.subrange(0, length as int));
    assert forall|i: int| 0 <= i < ERROR_CAPACITY implies (#[trigger] t.errors[i]) is None by {
        assert(s.errors[i] is None);
    }
    lemma_fragmentation(t, n, channel, Command::Ping, length);
}

/// The pending errors fill the first `k` slots, the other slots are free, and
/// no two pending errors are for the same channel.
pub open spec fn errors_packed(errors: Seq<Option<PendingError>>, k: int) -> bool {
    &&& 0 <= k <= errors.len()
    &&& forall|j: int| 0 <= j < k ==> (#[trigger] errors[j]) is Some
    &&& forall|j: int| k <= j < errors.len() ==> (#[trigger] errors[j]) is None
    &&& forall|i: int, j: int|
        0 <= i < j < k ==> (#[trigger] errors[i])->0.channel != (#[trigger] errors[j])->0.channel
}

/// Queuing an error keeps the pending errors packed with distinct channels.
/// When an error for the channel is already pending, or all eight slots are
/// taken, nothing changes: the first error for a channel wins and an overflow
/// is dropped. Otherwise the new error takes the slot after the pending ones
/// and nothing else changes.
pub proof fn lemma_queue_error_appends(s: HidModel, k: int, channel: u32, error: TransportError)
    requires
        s.errors.len() == ERROR_CAPACITY,
        errors_packed(s.errors, k),
    ensures
        (exists|i: int| 0 <= i < k && #[trigger] slot_holds(s.errors[i], channel)) || k
            == ERROR_CAPACITY ==> s.queue_error(channel, error) == s,
        !(exists|i: int| 0 <= i < k && #[trigger] slot_holds(s.errors[i], channel)) && k
            < ERROR_CAPACITY ==> {
            &&& s.queue_error(channel, error) == (HidModel {
                errors: s.errors.update(k, Some(PendingError { channel, error })),
                ..s
            })
            &&& errors_packed(s.queue_error(channel, error).errors, k + 1)
        },
{
    let errors = s.errors;
    if exists|i: int| 0 <= i < k && #[trigger] slot_holds(errors[i], channel) {
        let i = choose|i: int| 0 <= i < k && #[trigger] slot_holds(errors[i], channel);
        assert(0 <= i < errors.len() && slot_holds(errors[i], channel));
    } else {
        assert forall|i: int| 0 <= i < errors.len() implies !#[trigger] slot_holds(
            errors[i],
            channel,
        ) by {
            if i >= k {
                assert(errors[i] is None);
            }
        }
        if k == ERROR_CAPACITY {
            assert forall|c: int| !is_first_free(errors, c) by {
                if 0 <= c < errors.len() {
                    assert(errors[c] is Some);
                }
            }
        } else {
            assert(is_first_free(errors, k));
            let c = choose|c: int| is_first_free(errors, c);
            assert(c == k) by {
                if c < k {
                    assert(errors[c] is Some);
                } else if c > k {
                    assert(errors[k] is Some);
                }
            }
            let updated = errors.update(k, Some(PendingError { channel, error }));
            assert forall|i: int, j: int| 0 <= i < j < k + 1 implies (#[trigger] updated[i])->0.channel
                != (#[trigger] updated[j])->0.channel by {
                if j == k {
                    assert(!slot_holds(errors[i], channel));
                }
            }
        }
    }
}

} // verus!
