//! Capacities of a link and their validation.

use vstd::prelude::*;

use crate::service::queue_set::{QueueConfigError, MAXIMUM_QUEUE_CAPACITY};
use crate::service::retry::RetryPolicyError;
use crate::wire::{
    ChecksumPolicy, DecodeLimits, MAXIMUM_DECODE_BUFFER_CAPACITY, MAX_ENCODED_FRAME_SIZE,
};

verus! {

/// Largest transport-read allocation accepted by validated construction.
pub const MAXIMUM_LINK_READ_BUFFER: usize = 1_048_576;

/// Largest retained streaming-decoder tail accepted by validated construction.
pub const MAXIMUM_LINK_DECODER_BUFFER: usize = MAXIMUM_DECODE_BUFFER_CAPACITY;

/// Baseline settings for the default queue and streaming decoder.
#[derive(Debug, Clone, Copy, PartialEq, Eq, Structural)]
pub struct LinkConfig {
    /// Capacity used by the default one-queue layout.
    pub queue_capacity: usize,
    /// Maximum transport-read chunk.
    pub read_buffer_size: usize,
    /// Streaming-decoder limits.
    pub decoder: DecodeLimits,
}

impl Default for LinkConfig {
    fn default() -> (config: Self)
        ensures
            config == LinkConfig::standard(),
    {
        LinkConfig {
            queue_capacity: 256,
            read_buffer_size: 512,
            decoder: DecodeLimits::default(),
        }
    }
}

/// Bytes that hold the largest frame behind a number of preambles.
pub open spec fn frame_room(minimum_preambles: u8) -> usize {
    (MAX_ENCODED_FRAME_SIZE - 255 + minimum_preambles) as usize
}

fn required_decoder_capacity(minimum_preambles: u8) -> (required: usize)
    ensures
        required == frame_room(minimum_preambles),
        required <= MAX_ENCODED_FRAME_SIZE,
{
    MAX_ENCODED_FRAME_SIZE - 255 + minimum_preambles as usize
}

/// A checksum policy without a source address that cannot occur.
pub open spec fn normal_checksum_policy(policy: ChecksumPolicy) -> ChecksumPolicy {
    match policy {
        ChecksumPolicy::KnownGateway { delimiter_bit, checksum_source_node: Some(node) } => if node
            > 63 {
            ChecksumPolicy::KnownGateway { delimiter_bit, checksum_source_node: None }
        } else {
            policy
        },
        _ => policy,
    }
}

fn normalized_checksum_policy(policy: ChecksumPolicy) -> (normal: ChecksumPolicy)
    ensures
        normal == normal_checksum_policy(policy),
{
    match policy {
        ChecksumPolicy::KnownGateway { delimiter_bit, checksum_source_node: Some(node) } => if node
            > 63 {
            ChecksumPolicy::KnownGateway { delimiter_bit, checksum_source_node: None }
        } else {
            policy
        },
        _ => policy,
    }
}

/// A number held within bounds.
pub open spec fn held_within(value: usize, least: usize, most: usize) -> usize {
    if value < least {
        least
    } else if value > most {
        most
    } else {
        value
    }
}

pub(crate) fn hold_within(value: usize, least: usize, most: usize) -> (held: usize)
    ensures
        held == held_within(value, least, most),
{
    if value < least {
        least
    } else if value > most {
        most
    } else {
        value
    }
}

impl LinkConfig {
    /// The settings of a link that is not configured.
    pub open spec fn standard() -> LinkConfig {
        LinkConfig {
            queue_capacity: 256,
            read_buffer_size: 512,
            decoder: DecodeLimits {
                buffer_capacity: 4096,
                minimum_preambles: 2,
                checksum_policy: ChecksumPolicy::Strict,
            },
        }
    }

    /// What is wrong with the settings, if anything.
    pub open spec fn violation(self) -> Option<LinkConfigError> {
        if self.queue_capacity == 0 {
            Some(LinkConfigError::QueueCapacity)
        } else if self.queue_capacity > MAXIMUM_QUEUE_CAPACITY {
            Some(LinkConfigError::QueueCapacityLimit(self.queue_capacity))
        } else if self.read_buffer_size == 0 {
            Some(LinkConfigError::ReadBufferSize)
        } else if self.read_buffer_size > MAXIMUM_LINK_READ_BUFFER {
            Some(LinkConfigError::ReadBufferLimit(self.read_buffer_size))
        } else if self.decoder.buffer_capacity == 0 {
            Some(LinkConfigError::DecoderCapacity)
        } else if self.decoder.minimum_preambles == 0 {
            Some(LinkConfigError::MinimumPreambles)
        } else if normal_checksum_policy(self.decoder.checksum_policy)
            != self.decoder.checksum_policy {
            Some(LinkConfigError::ChecksumSourceNode)
        } else if self.decoder.buffer_capacity > MAXIMUM_LINK_DECODER_BUFFER {
            Some(LinkConfigError::DecoderCapacityLimit(self.decoder.buffer_capacity))
        } else if self.decoder.buffer_capacity < frame_room(self.decoder.minimum_preambles) {
            Some(
                LinkConfigError::DecoderFrameCapacity {
                    actual: self.decoder.buffer_capacity,
                    required: frame_room(self.decoder.minimum_preambles),
                },
            )
        } else {
            None
        }
    }

    /// The nearest settings that a link can work with.
    pub open spec fn normal(self) -> LinkConfig {
        let preambles = if self.decoder.minimum_preambles == 0 {
            1
        } else {
            self.decoder.minimum_preambles
        };
        LinkConfig {
            queue_capacity: held_within(self.queue_capacity, 1, MAXIMUM_QUEUE_CAPACITY),
            read_buffer_size: held_within(self.read_buffer_size, 64, MAXIMUM_LINK_READ_BUFFER),
            decoder: DecodeLimits {
                buffer_capacity: held_within(
                    self.decoder.buffer_capacity,
                    frame_room(preambles),
                    MAXIMUM_LINK_DECODER_BUFFER,
                ),
                minimum_preambles: preambles,
                checksum_policy: normal_checksum_policy(self.decoder.checksum_policy),
            },
        }
    }

    /// Verifies that every capacity and decoder limit is explicit and usable.
    pub fn validate(&self) -> (result: Result<(), LinkConfigError>)
        ensures
            result == match self.violation() {
                Some(error) => Err::<(), LinkConfigError>(error),
                None => Ok::<(), LinkConfigError>(()),
            },
    {
        if self.queue_capacity == 0 {
            return Err(LinkConfigError::QueueCapacity);
        }
        if self.queue_capacity > MAXIMUM_QUEUE_CAPACITY {
            return Err(LinkConfigError::QueueCapacityLimit(self.queue_capacity));
        }
        if self.read_buffer_size == 0 {
            return Err(LinkConfigError::ReadBufferSize);
        }
        if self.read_buffer_size > MAXIMUM_LINK_READ_BUFFER {
            return Err(LinkConfigError::ReadBufferLimit(self.read_buffer_size));
        }
        if self.decoder.buffer_capacity == 0 {
            return Err(LinkConfigError::DecoderCapacity);
        }
        if self.decoder.minimum_preambles == 0 {
            return Err(LinkConfigError::MinimumPreambles);
        }
        if normalized_checksum_policy(self.decoder.checksum_policy)
            != self.decoder.checksum_policy {
            return Err(LinkConfigError::ChecksumSourceNode);
        }
        if self.decoder.buffer_capacity > MAXIMUM_LINK_DECODER_BUFFER {
            return Err(LinkConfigError::DecoderCapacityLimit(self.decoder.buffer_capacity));
        }
        let required: usize = required_decoder_capacity(self.decoder.minimum_preambles);
        if self.decoder.buffer_capacity < required {
            return Err(
                LinkConfigError::DecoderFrameCapacity {
                    actual: self.decoder.buffer_capacity,
                    required,
                },
            );
        }
        Ok(())
    }

    /// Clamps every setting to the nearest one that a link can work with.
    pub fn normalized(self) -> (config: Self)
        ensures
            config == self.normal(),
            config.violation() is None,
    {
        let preambles: u8 = if self.decoder.minimum_preambles == 0 {
            1
        } else {
            self.decoder.minimum_preambles
        };
        LinkConfig {
            queue_capacity: hold_within(self.queue_capacity, 1, MAXIMUM_QUEUE_CAPACITY),
            read_buffer_size: hold_within(self.read_buffer_size, 64, MAXIMUM_LINK_READ_BUFFER),
            decoder: DecodeLimits {
                buffer_capacity: hold_within(
                    self.decoder.buffer_capacity,
                    required_decoder_capacity(preambles),
                    MAXIMUM_LINK_DECODER_BUFFER,
                ),
                minimum_preambles: preambles,
                checksum_policy: normalized_checksum_policy(self.decoder.checksum_policy),
            },
        }
    }

    /// Sets the capacity used by the default one-queue layout.
    pub fn with_queue_capacity(self, capacity: usize) -> (config: Self)
        ensures
            config == (LinkConfig { queue_capacity: capacity, ..self }),
    {
        LinkConfig { queue_capacity: capacity, ..self }
    }

    /// Sets the maximum size of one transport read.
    pub fn with_read_buffer_size(self, bytes: usize) -> (config: Self)
        ensures
            config == (LinkConfig { read_buffer_size: bytes, ..self }),
    {
        LinkConfig { read_buffer_size: bytes, ..self }
    }

    /// Replaces streaming decoder limits.
    pub fn with_decoder(self, decoder: DecodeLimits) -> (config: Self)
        ensures
            config == (LinkConfig { decoder, ..self }),
    {
        LinkConfig { decoder, ..self }
    }
}

/// Settings of which nothing is wrong are left as they are, except for a read
/// buffer below the smallest one.
pub proof fn lemma_valid_config_is_normal(config: LinkConfig)
    requires
        config.violation() is None,
        config.read_buffer_size >= 64,
    ensures
        config.normal() == config,
{
}

/// A decoder that keeps to accepted settings can hold the largest frame.
pub proof fn lemma_largest_frame_fits(config: LinkConfig)
    requires
        config.violation() is None,
    ensures
        config.decoder.usable(),
        config.decoder.buffer_capacity + 255 - config.decoder.minimum_preambles
            >= MAX_ENCODED_FRAME_SIZE,
{
}

/// Invalid queue or streaming-decoder configuration.
#[derive(Debug, Clone, Copy, PartialEq, Eq, Structural)]
pub enum LinkConfigError {
    /// The default queue cannot have zero capacity.
    QueueCapacity,
    /// The default queue is implausibly large and could exhaust runtime resources.
    QueueCapacityLimit(usize),
    /// A transport read must have at least one output byte.
    ReadBufferSize,
    /// A single transport-read allocation is too large.
    ReadBufferLimit(usize),
    /// The streaming decoder must be able to retain input.
    DecoderCapacity,
    /// A decoder tail is too large for accidental-allocation protection.
    DecoderCapacityLimit(usize),
    /// A decoder tail cannot hold the largest legal frame at the configured preamble count.
    DecoderFrameCapacity {
        /// Configured size.
        actual: usize,
        /// Smallest complete-frame size.
        required: usize,
    },
    /// A HART candidate must require at least one preamble.
    MinimumPreambles,
    /// A compatibility checksum source must be a valid short address.
    ChecksumSourceNode,
}

/// Complete construction error for a configured link.
#[derive(Debug, Clone, Copy, PartialEq, Eq, Structural)]
pub enum LinkBuildError {
    /// Queue or decoder configuration is invalid.
    Config(LinkConfigError),
    /// The queue layout is empty, ambiguous, or exceeds a safety bound.
    Queues(QueueConfigError),
    /// Default retry configuration is invalid.
    RetryPolicy(RetryPolicyError),
    /// The event broadcast channel cannot have zero capacity.
    EventCapacity,
    /// The observer channel is implausibly large.
    EventCapacityLimit(usize),
    /// A post-timeout quarantine longer than this would stall the complete queue.
    LateResponseGuard,
}

/// A configuration is accepted exactly when its queue and its read buffer have
/// room within the limits, the decoder asks for at least one preamble, repairs
/// at most the address of a polling node, and holds the largest frame with as
/// many preambles as it asks for.
pub proof fn lemma_valid_config(config: LinkConfig)
    ensures
        config.violation() is None <==> 1 <= config.queue_capacity <= MAXIMUM_QUEUE_CAPACITY && 1
            <= config.read_buffer_size <= MAXIMUM_LINK_READ_BUFFER
            && config.decoder.minimum_preambles >= 1 && !(config.decoder.checksum_policy matches
            ChecksumPolicy::KnownGateway { checksum_source_node: Some(node), .. } && node > 63)
            && 267 + config.decoder.minimum_preambles <= config.decoder.buffer_capacity
            <= MAXIMUM_LINK_DECODER_BUFFER,
        config.normal().violation() is None,
        config.normal().normal() == config.normal(),
{
}

} // verus!
