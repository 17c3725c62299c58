//! Settings and errors of byte channels with no HART-specific logic.

use vstd::prelude::*;

use crate::time::Duration;

verus! {

/// Default upper bound in nanoseconds for establishing a transparent TCP connection.
pub const DEFAULT_CONNECT_TIMEOUT: u128 = 10_000_000_000;

/// Hard upper bound in nanoseconds for connect and keepalive configuration durations.
pub const MAXIMUM_TCP_CONFIGURATION_DURATION: u128 = 86_400_000_000_000;

/// Transport-channel error.
#[derive(Debug, Clone, PartialEq, Eq)]
pub enum ChannelError {
    /// The operating system returned an I/O error.
    Io {
        /// Whether the error is the expiry of an operating-system timeout.
        timed_out: bool,
        /// What the operating system said.
        message: String,
    },
    /// The serial-port driver rejected the operation.
    Serial(String),
    /// The connection closed before the exchange completed.
    Closed,
    /// A transport operation exceeded its explicit deadline.
    Timeout(&'static str),
    /// The channel rejected an invalid configuration.
    Configuration(&'static str),
    /// A transport-specific protocol rejected a packet or session transition.
    Protocol(String),
}

impl ChannelError {
    /// Whether the error says that a deadline passed.
    pub open spec fn timed_out(self) -> bool {
        match self {
            ChannelError::Timeout(_) => true,
            ChannelError::Io { timed_out, .. } => timed_out,
            _ => false,
        }
    }

    /// The diagnostic text of the error.
    pub open spec fn text(self) -> Seq<char> {
        match self {
            ChannelError::Io { message, .. } => "I/O error: "@ + message@,
            ChannelError::Serial(message) => "serial-port error: "@ + message@,
            ChannelError::Closed => "channel closed by the remote peer"@,
            ChannelError::Timeout(operation) => "channel "@ + operation@ + " timeout expired"@,
            ChannelError::Configuration(reason) => "invalid channel configuration: "@ + reason@,
            ChannelError::Protocol(reason) => "transport protocol error: "@ + reason@,
        }
    }

    /// Renders the error for a diagnostic.
    pub fn message(&self) -> (rendered: String)
        ensures
            rendered@ == self.text(),
    {
        match self {
            ChannelError::Io { message, .. } => {
                let mut rendered = String::from_str("I/O error: ");
                rendered.append(message.as_str());
                rendered
            },
            ChannelError::Serial(message) => {
                let mut rendered = String::from_str("serial-port error: ");
                rendered.append(message.as_str());
                rendered
            },
            ChannelError::Closed => String::from_str("channel closed by the remote peer"),
            ChannelError::Timeout(operation) => {
                let mut rendered = String::from_str("channel ");
                rendered.append(operation);
                rendered.append(" timeout expired");
                rendered
            },
            ChannelError::Configuration(reason) => {
                let mut rendered = String::from_str("invalid channel configuration: ");
                rendered.append(reason);
                rendered
            },
            ChannelError::Protocol(reason) => {
                let mut rendered = String::from_str("transport protocol error: ");
                rendered.append(reason.as_str());
                rendered
            },
        }
    }

    /// Reports whether the error says that a deadline passed.
    pub fn is_timeout(&self) -> (expired: bool)
        ensures
            expired == self.timed_out(),
    {
        match self {
            ChannelError::Timeout(_) => true,
            ChannelError::Io { timed_out, .. } => *timed_out,
            _ => false,
        }
    }
}

/// HART serial-modem settings.
#[derive(Debug, Clone, PartialEq, Eq)]
pub struct SerialOptions {
    /// Serial-port path.
    pub path: String,
    /// Link speed.
    pub baud_rate: u32,
}

impl SerialOptions {
    /// Creates settings using the standard HART FSK speed.
    pub fn new(path: String) -> (options: Self)
        ensures
            options == (SerialOptions { path, baud_rate: 1200 }),
    {
        SerialOptions { path, baud_rate: 1200 }
    }

    /// Overrides the serial rate for a confirmed modem or gateway mode.
    pub fn with_baud_rate(self, baud_rate: u32) -> (options: Self)
        ensures
            options == (SerialOptions { baud_rate, ..self }),
    {
        SerialOptions { baud_rate, ..self }
    }
}

/// Settings for a transparent TCP-to-serial gateway.
#[derive(Debug, Clone, Copy, PartialEq, Eq, Structural)]
pub struct TcpOptions {
    /// Allows small packets without Nagle delay.
    pub no_delay: bool,
    /// TCP keepalive interval when supported by the system.
    pub keepalive: Option<Duration>,
}

impl Default for TcpOptions {
    fn default() -> (options: Self)
        ensures
            options.no_delay,
            options.keepalive == Some(Duration { nanos: 30_000_000_000 }),
    {
        TcpOptions { no_delay: true, keepalive: Some(Duration::from_secs(30)) }
    }
}

impl TcpOptions {
    /// What is wrong with the settings, if anything.
    pub open spec fn violation(self) -> Option<ChannelError> {
        match self.keepalive {
            Some(keepalive) => if keepalive.nanos == 0 {
                Some(
                    ChannelError::Configuration("TCP keepalive interval must be greater than zero"),
                )
            } else if keepalive.nanos > MAXIMUM_TCP_CONFIGURATION_DURATION {
                Some(
                    ChannelError::Configuration(
                        "TCP keepalive interval exceeds the supported limit",
                    ),
                )
            } else {
                None
            },
            None => None,
        }
    }

    /// What is wrong with opening a connection with the settings, if anything.
    pub open spec fn connect_violation(self, connect_timeout: Duration) -> Option<ChannelError> {
        if self.violation() is Some {
            self.violation()
        } else if connect_timeout.nanos == 0 {
            Some(ChannelError::Configuration("TCP connect timeout must be greater than zero"))
        } else if connect_timeout.nanos > MAXIMUM_TCP_CONFIGURATION_DURATION {
            Some(ChannelError::Configuration("TCP connect timeout exceeds the supported limit"))
        } else {
            None
        }
    }

    /// Enables or disables the Nagle algorithm.
    pub fn with_no_delay(self, no_delay: bool) -> (options: Self)
        ensures
            options == (TcpOptions { no_delay, ..self }),
    {
        TcpOptions { no_delay, ..self }
    }

    /// Sets the TCP keepalive interval, or disables keepalive with `None`.
    pub fn with_keepalive(self, keepalive: Option<Duration>) -> (options: Self)
        ensures
            options == (TcpOptions { keepalive, ..self }),
    {
        TcpOptions { keepalive, ..self }
    }

    /// Rejects keepalive settings that are zero or implausibly large.
    pub fn validate(self) -> (result: Result<(), ChannelError>)
        ensures
            result == match self.violation() {
                Some(error) => Err::<(), ChannelError>(error),
                None => Ok(()),
            },
    {
        if let Some(keepalive) = self.keepalive {
            if keepalive.is_zero() {
                return Err(
                    ChannelError::Configuration("TCP keepalive interval must be greater than zero"),
                );
            }
            if keepalive.nanos > MAXIMUM_TCP_CONFIGURATION_DURATION {
                return Err(
                    ChannelError::Configuration(
                        "TCP keepalive interval exceeds the supported limit",
                    ),
                );
            }
        }
        Ok(())
    }

    /// Rejects settings or an end-to-end connect timeout with which no
    /// connection is opened.
    pub fn validate_connect(self, connect_timeout: Duration) -> (result: Result<(), ChannelError>)
        ensures
            result == match self.connect_violation(connect_timeout) {
                Some(error) => Err::<(), ChannelError>(error),
                None => Ok(()),
            },
    {
        self.validate()?;
        if connect_timeout.is_zero() {
            return Err(
                ChannelError::Configuration("TCP connect timeout must be greater than zero"),
            );
        }
        if connect_timeout.nanos > MAXIMUM_TCP_CONFIGURATION_DURATION {
            return Err(
                ChannelError::Configuration("TCP connect timeout exceeds the supported limit"),
            );
        }
        Ok(())
    }
}

/// Only an expired time counts as a timeout, whether the channel or the
/// operating system reports it. A keepalive interval and a connect timeout are
/// taken from one nanosecond up to one day, and no keepalive at all is.
pub proof fn lemma_channel_rules(
    options: TcpOptions,
    connect_timeout: Duration,
    operation: &'static str,
    message: String,
    expired: bool,
)
    ensures
        ChannelError::Timeout(operation).timed_out(),
        (ChannelError::Io { timed_out: expired, message }).timed_out() == expired,
        !ChannelError::Closed.timed_out(),
        !ChannelError::Serial(message).timed_out(),
        !ChannelError::Configuration(operation).timed_out(),
        !ChannelError::Protocol(message).timed_out(),
        options.violation() is None <==> (options.keepalive matches Some(keepalive) ==> 0
            < keepalive.nanos <= 24 * 3600 * 1_000_000_000),
        options.connect_violation(connect_timeout) is None <==> options.violation() is None && 0
            < connect_timeout.nanos <= 24 * 3600 * 1_000_000_000,
{
}

} // verus!
