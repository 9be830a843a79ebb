//! The relay's settings and the course of its revocation list.

use core::time::Duration;

use vstd::prelude::*;

use crate::bytes::bytes_equal;
use crate::identity::text_view;
use crate::service::NativeServiceLimits;
use crate::store_model::NativeStoreLimits;
use crate::text::texts_equal;
use crate::time::duration_nanos;

verus! {

/// Bytes that are retained of a stream by default.
pub const DEFAULT_RETENTION_BYTES: u64 = 104_857_600;

/// Seconds for which a stream is retained by default.
pub const DEFAULT_RETENTION_SECONDS: u64 = 86_400;

/// Connections that a relay may be configured for.
pub const MAX_CONNECTIONS: usize = 65_536;

/// Bytes that public key material may have.
pub const MAX_PUBLIC_MATERIAL_BYTES: u64 = 4_194_304;

/// The address for viewers by default.
pub fn default_viewer_addr() -> (address: &'static str)
    ensures
        address@ == "0.0.0.0:8899"@,
{
    "0.0.0.0:8899"
}

/// The address for publishers by default.
pub fn default_publisher_addr() -> (address: &'static str)
    ensures
        address@ == "0.0.0.0:8900"@,
{
    "0.0.0.0:8900"
}

/// Why a relay does not start.
#[derive(Clone, Copy, Debug, PartialEq, Eq, Structural)]
pub enum RuntimeError {
    /// Retention limits must be positive or omitted.
    RetentionNotPositive,
    /// Limits must be positive, within bounds and fit each other.
    LimitsInvalid,
}

/// How much is retained of a stream.
#[derive(Clone, Copy, Debug, PartialEq, Eq, Structural)]
pub struct RetentionConfig {
    /// Bytes.
    pub bytes_per_stream: Option<u64>,
    /// Seconds.
    pub seconds_per_stream: Option<u64>,
}

impl Default for RetentionConfig {
    fn default() -> (config: RetentionConfig)
        ensures
            config == (RetentionConfig {
                bytes_per_stream: Some(DEFAULT_RETENTION_BYTES),
                seconds_per_stream: Some(DEFAULT_RETENTION_SECONDS),
            }),
    {
        RetentionConfig {
            bytes_per_stream: Some(DEFAULT_RETENTION_BYTES),
            seconds_per_stream: Some(DEFAULT_RETENTION_SECONDS),
        }
    }
}

/// Configured limits.
#[derive(Clone, Copy, Debug, PartialEq, Eq, Structural)]
pub struct LimitConfig {
    /// Connections at one time.
    pub max_connections: usize,
    /// Seconds for a handshake.
    pub handshake_seconds: u64,
    /// Seconds without a message.
    pub idle_seconds: u64,
    /// Items that wait for a slow viewer.
    pub live_channel_items: usize,
    /// Limits of the store.
    pub store: NativeStoreLimits,
}

impl Default for LimitConfig {
    fn default() -> (config: LimitConfig)
        ensures
            config.max_connections == 256,
            config.handshake_seconds == 10,
            config.idle_seconds == 120,
            config.live_channel_items == 32,
            config.store.max_streams == 1_024,
            config.store.max_streams_per_publisher == 16,
            config.store.max_objects_per_group == 4_096,
            config.store.max_group_bytes == 64 * 1024 * 1024,
            config.store.max_envelopes_per_group == 128,
            config.store.max_total_bytes == 10 * 1024 * 1024 * 1024,
            config.store.max_publisher_bytes == 1024 * 1024 * 1024,
            config.are_valid(),
    {
        LimitConfig {
            max_connections: 256,
            handshake_seconds: 10,
            idle_seconds: 120,
            live_channel_items: 32,
            store: NativeStoreLimits::default(),
        }
    }
}

impl LimitConfig {
    /// Whether limits are positive, within bounds and fit each other.
    pub open spec fn are_valid(self) -> bool {
        &&& 1 <= self.max_connections <= MAX_CONNECTIONS
        &&& 1 <= self.handshake_seconds <= 300
        &&& 1 <= self.idle_seconds <= 3_600
        &&& 1 <= self.live_channel_items <= 4_096
        &&& self.store.consistent()
    }

    fn check(&self) -> (valid: bool)
        ensures
            valid == self.are_valid(),
    {
        self.max_connections >= 1 && self.max_connections <= MAX_CONNECTIONS
            && self.handshake_seconds >= 1 && self.handshake_seconds <= 300 && self.idle_seconds
            >= 1 && self.idle_seconds <= 3_600 && self.live_channel_items >= 1
            && self.live_channel_items <= 4_096 && self.store.max_streams_per_publisher > 0
            && self.store.max_streams_per_publisher <= self.store.max_streams
            && self.store.max_objects_per_group > 0 && self.store.max_group_bytes > 0
            && self.store.max_envelopes_per_group > 0 && self.store.max_publisher_bytes > 0
            && self.store.max_publisher_bytes <= self.store.max_total_bytes
    }
}

/// What a relay runs with.
#[derive(Clone, Copy, Debug)]
pub struct RelaySettings {
    /// Bytes that are retained of a stream.
    pub retention_bytes: Option<u64>,
    /// How long a stream is retained.
    pub retention_age: Option<Duration>,
    /// Limits of the store.
    pub store: NativeStoreLimits,
    /// Limits of the service.
    pub service: NativeServiceLimits,
}

/// The setting of the command line, else that of the configuration.
pub open spec fn either(option: Option<u64>, config: Option<u64>) -> Option<u64> {
    match option {
        Some(value) => Some(value),
        None => config,
    }
}

/// Settles what a relay runs with. Retention is checked before the limits.
pub fn resolve_settings(
    option_bytes: Option<u64>,
    option_seconds: Option<u64>,
    retention: &RetentionConfig,
    limits: &LimitConfig,
) -> (result: Result<RelaySettings, RuntimeError>)
    ensures
        ({
            let bytes = either(option_bytes, retention.bytes_per_stream);
            let seconds = either(option_seconds, retention.seconds_per_stream);
            let positive = bytes != Some(0u64) && seconds != Some(0u64);
            match result {
                Err(error) => {
                    ||| !positive && error == RuntimeError::RetentionNotPositive
                    ||| positive && !limits.are_valid() && error == RuntimeError::LimitsInvalid
                },
                Ok(settings) => {
                    &&& positive
                    &&& limits.are_valid()
                    &&& settings.retention_bytes == bytes
                    &&& match seconds {
                        None => settings.retention_age is None,
                        Some(seconds) => settings.retention_age matches Some(age)
                            && duration_nanos(age) == seconds * 1_000_000_000,
                    }
                    &&& settings.store == limits.store
                    &&& settings.service.max_connections == limits.max_connections
                    &&& duration_nanos(settings.service.handshake_timeout)
                        == limits.handshake_seconds * 1_000_000_000
                    &&& duration_nanos(settings.service.idle_timeout) == limits.idle_seconds
                        * 1_000_000_000
                    &&& settings.service.live_channel_capacity == limits.live_channel_items
                    &&& settings.service.positive()
                },
            }
        }),
{
    let retention_bytes: Option<u64> = match option_bytes {
        Some(bytes) => Some(bytes),
        None => retention.bytes_per_stream,
    };
    let retention_seconds: Option<u64> = match option_seconds {
        Some(seconds) => Some(seconds),
        None => retention.seconds_per_stream,
    };
    match retention_bytes {
        Some(bytes) => {
            if bytes == 0 {
                return Err(RuntimeError::RetentionNotPositive);
            }
        },
        None => {},
    }
    let retention_age: Option<Duration> = match retention_seconds {
        Some(seconds) => {
            if seconds == 0 {
                return Err(RuntimeError::RetentionNotPositive);
            }
            Some(Duration::from_secs(seconds))
        },
        None => None,
    };
    if !limits.check() {
        return Err(RuntimeError::LimitsInvalid);
    }
    Ok(
        RelaySettings {
            retention_bytes,
            retention_age,
            store: limits.store,
            service: NativeServiceLimits {
                max_connections: limits.max_connections,
                handshake_timeout: Duration::from_secs(limits.handshake_seconds),
                idle_timeout: Duration::from_secs(limits.idle_seconds),
                live_channel_capacity: limits.live_channel_items,
            },
        },
    )
}

/// What is remembered of a revocation list that is read again and again.
#[derive(Debug)]
pub struct AccessReload {
    /// The bytes that are in force.
    pub last_bytes: Option<Vec<u8>>,
    /// The failure that was reported last.
    pub last_error: Option<String>,
}

/// What comes of reading a revocation list.
#[derive(Clone, Copy, Debug, PartialEq, Eq, Structural)]
pub enum ReloadReport {
    /// It is the one in force.
    Unchanged,
    /// It is in force now.
    Reloaded,
    /// It failed, and that is news; the one in force stays.
    Failed,
    /// It failed as before; the one in force stays.
    StillFailing,
}

/// Bytes that may be absent, as a mathematical value.
pub open spec fn bytes_view(bytes: Option<Vec<u8>>) -> Option<Seq<u8>> {
    match bytes {
        Some(bytes) => Some(bytes@),
        None => None,
    }
}

impl AccessReload {
    /// Nothing was read.
    pub fn new() -> (reload: Self)
        ensures
            reload.last_bytes is None,
            reload.last_error is None,
    {
        AccessReload { last_bytes: None, last_error: None }
    }

    /// Whether bytes differ from those in force and are to be decoded.
    pub fn is_news(&self, bytes: &Vec<u8>) -> (news: bool)
        ensures
            news == (bytes_view(self.last_bytes) != Some(bytes@)),
    {
        match &self.last_bytes {
            Some(last) => !bytes_equal(last.as_slice(), bytes.as_slice()),
            None => true,
        }
    }

    /// Takes note of a list that was read, and accepted where it is news, or of the failure.
    pub fn take(&mut self, outcome: Result<Vec<u8>, String>) -> (report: ReloadReport)
        ensures
            match outcome {
                Ok(bytes) => if bytes_view(old(self).last_bytes) == Some(bytes@) {
                    &&& report == ReloadReport::Unchanged
                    &&& bytes_view(final(self).last_bytes) == bytes_view(old(self).last_bytes)
                    &&& text_view(final(self).last_error) == text_view(old(self).last_error)
                } else {
                    &&& report == ReloadReport::Reloaded
                    &&& bytes_view(final(self).last_bytes) == Some(bytes@)
                    &&& final(self).last_error is None
                },
                Err(detail) => {
                    &&& report == if text_view(old(self).last_error) == Some(detail@) {
                        ReloadReport::StillFailing
                    } else {
                        ReloadReport::Failed
                    }
                    &&& bytes_view(final(self).last_bytes) == bytes_view(old(self).last_bytes)
                    &&& text_view(final(self).last_error) == Some(detail@)
                },
            },
    {
        match outcome {
            Ok(bytes) => {
                if !self.is_news(&bytes) {
                    return ReloadReport::Unchanged;
                }
                self.last_bytes = Some(bytes);
                self.last_error = None;
                ReloadReport::Reloaded
            },
            Err(detail) => {
                let same = match &self.last_error {
                    Some(last) => texts_equal(last.as_str(), detail.as_str()),
                    None => false,
                };
                if same {
                    return ReloadReport::StillFailing;
                }
                self.last_error = Some(detail);
                ReloadReport::Failed
            },
        }
    }
}

} // verus!
