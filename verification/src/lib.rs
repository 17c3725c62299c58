//! Tools for communicating with HART devices.
//!
//! The crate separates wire bytes, operation semantics and the decisions of an
//! exchange. Every public function states what it returns; the proofs are
//! checked by Verus.

pub mod bytes;
pub mod catalog;
pub mod channel;
pub mod counters;
pub mod device;
pub mod digits;
pub mod emulator;
pub mod float;
pub mod inspect;
pub mod ip;
pub mod mesh;
pub mod nonzero;
pub mod operation;
pub mod ordered;
pub mod package;
pub mod profile;
pub mod service;
pub mod strings;
pub mod tables;
pub mod telemetry;
pub mod time;
pub mod tool;
pub mod trace;
pub mod verification;
pub mod wire;

pub use catalog::{
    command_descriptor, request_constraint, CommandClass, CommandDescriptor, OperationSafety,
    PayloadConstraint,
};
pub use channel::{ChannelError, SerialOptions, TcpOptions};
pub use float::Float32;
pub use inspect::{
    inspect_base64, inspect_bytes, inspect_exchange, inspect_hex, ExchangeReport, FrameReport,
    InspectionIssue, MAXIMUM_INSPECTION_TEXT_BYTES,
};
pub use operation::{
    CheckedOperation, CommandCode, CommandOutcome, DeviceReply, Operation, OperationError,
    RawOperation, Request,
};
pub use service::{
    create_link, try_create_link, AdaptiveTiming, CommandContext, CommandPolicy, CommandRouting,
    DeviceHealthConfigError, DeviceHealthOptions, DeviceHealthSnapshot, DeviceSnapshot,
    ExchangeError, LinkBuildError, LinkBuilder, LinkClient, LinkConfig, LinkConfigError,
    LinkEvent, LinkRunner, LinkSnapshot, ManagedDeviceSession, ManagedSessionError, PendingReply,
    Priority, QueueScheduling, QueueSchedulingError, RetryCause, RetryPolicy, RetryPolicyError,
    SnapshotError, SnapshotField, SnapshotOptions, StartError, DEFAULT_LATE_RESPONSE_GUARD,
    MAXIMUM_LATE_RESPONSE_GUARD, MAXIMUM_LINK_DECODER_BUFFER, MAXIMUM_LINK_EVENT_CAPACITY,
    MAXIMUM_LINK_READ_BUFFER, MAXIMUM_RETRY_DURATION, MAXIMUM_TRANSMIT_PREFIX,
};
pub use time::Duration;
pub use wire::{
    Address, ChecksumPolicy, DecodeEvent, DecodeLimits, DecodeLimitsError, Frame, FrameDecoder,
    FrameKind, FrameRepair, Master, PhysicalLayer, WireError, MAXIMUM_DECODE_BUFFER_CAPACITY,
    MAXIMUM_DECODE_EVENTS_PER_PUSH, MAX_ENCODED_FRAME_SIZE,
};
