//! The logging feature: the level gate and the messages it lets through.

use vstd::prelude::*;
use vstd::string::StringExecFns;
use crate::json::{Json, JsonVal};
use crate::types::LoggingLevel;
use crate::error::{McpError, McpResult};

verus! {

/// The numeric rank of a severity: higher means more important.
pub open spec fn spec_level_priority(level: LoggingLevel) -> nat {
    match level {
        LoggingLevel::Emergency => 8,
        LoggingLevel::Alert => 7,
        LoggingLevel::Critical => 6,
        LoggingLevel::Error => 5,
        LoggingLevel::Warning => 4,
        LoggingLevel::Notice => 3,
        LoggingLevel::Info => 2,
        LoggingLevel::Debug => 1,
    }
}

/// One log record: a severity, an optional logger name, a payload, and the
/// caller's clock reading.
#[derive(Debug)]
pub struct LogMessage {
    pub level: LoggingLevel,
    pub logger: Option<String>,
    pub data: Json,
    pub timestamp: u64,
}

impl LogMessage {
    /// A record with no logger name.
    pub fn new(level: LoggingLevel, data: Json, timestamp: u64) -> (r: Self)
        ensures
            r.level == level,
            r.logger is None,
            r.data == data,
            r.timestamp == timestamp,
    {
        LogMessage { level, logger: None, data, timestamp }
    }

    /// A record carrying a logger name.
    pub fn with_logger(level: LoggingLevel, logger: String, data: Json, timestamp: u64) -> (r: Self)
        ensures
            r.level == level,
            r.logger matches Some(l) && l@ == logger@,
            r.data == data,
            r.timestamp == timestamp,
    {
        LogMessage { level, logger: Some(logger), data, timestamp }
    }

    /// A record whose payload is plain text.
    pub fn text(level: LoggingLevel, message: String, timestamp: u64) -> (r: Self)
        ensures
            r.level == level,
            r.logger is None,
            r.data@ matches JsonVal::Str(s) && s == message@,
            r.timestamp == timestamp,
    {
        LogMessage { level, logger: None, data: Json::Str(message), timestamp }
    }
}

/// A step-by-step construction of a log record.
pub struct LogMessageBuilder {
    pub level: LoggingLevel,
    pub logger: Option<String>,
    pub data: Json,
}

impl LogMessageBuilder {
    /// Start a record at a severity with a null payload.
    pub fn new(level: LoggingLevel) -> (r: Self)
        ensures
            r.level == level,
            r.logger is None,
            r.data@ is Null,
    {
        LogMessageBuilder { level, logger: None, data: Json::Null }
    }

    /// Name the logger.
    pub fn logger(self, logger: String) -> (r: Self)
        ensures
            r.level == self.level,
            r.logger matches Some(l) && l@ == logger@,
            r.data == self.data,
    {
        LogMessageBuilder { logger: Some(logger), ..self }
    }

    /// Set the payload.
    pub fn data(self, data: Json) -> (r: Self)
        ensures
            r.level == self.level,
            r.logger == self.logger,
            r.data == data,
    {
        LogMessageBuilder { data, ..self }
    }

    /// Set a plain text payload.
    pub fn message(self, message: String) -> (r: Self)
        ensures
            r.level == self.level,
            r.logger == self.logger,
            r.data@ matches JsonVal::Str(s) && s == message@,
    {
        LogMessageBuilder { data: Json::Str(message), ..self }
    }

    /// Finish the record at the caller's clock reading.
    pub fn build(self, timestamp: u64) -> (r: LogMessage)
        ensures
            r.level == self.level,
            r.logger == self.logger,
            r.data == self.data,
            r.timestamp == timestamp,
    {
        LogMessage { level: self.level, logger: self.logger, data: self.data, timestamp }
    }
}

/// The logging feature: the current level and the records it let through,
/// oldest first, for the transport to forward.
pub struct LoggingManager {
    pub level: LoggingLevel,
    pub sink: Vec<LogMessage>,
    pub enabled: bool,
}

impl LoggingManager {
    /// A manager at informational level with an empty sink.
    pub fn new() -> (r: Self)
        ensures
            r.level == LoggingLevel::Info,
            r.sink@.len() == 0,
            r.enabled,
    {
        LoggingManager { level: LoggingLevel::Info, sink: Vec::new(), enabled: true }
    }

    /// Set the level. Fails only while the feature is disabled.
    pub fn set_level(&mut self, level: LoggingLevel) -> (r: McpResult<()>)
        ensures
            !old(self).enabled ==> (r matches Err(e) && e is Resource && *final(self) == *old(self)),
            old(self).enabled ==> (r is Ok && final(self).level == level && final(self).sink
                == old(self).sink && final(self).enabled),
    {
        if !self.enabled {
            return Err(McpError::Resource(String::from_str("Logging feature is disabled")));
        }
        self.level = level;
        Ok(())
    }

    /// The current level.
    pub fn get_level(&self) -> (r: LoggingLevel)
        ensures
            r == self.level,
    {
        self.level
    }

    /// The numeric rank of a severity.
    pub fn level_priority(&self, level: LoggingLevel) -> (r: u8)
        ensures
            r as nat == spec_level_priority(level),
    {
        match level {
            LoggingLevel::Emergency => 8,
            LoggingLevel::Alert => 7,
            LoggingLevel::Critical => 6,
            LoggingLevel::Error => 5,
            LoggingLevel::Warning => 4,
            LoggingLevel::Notice => 3,
            LoggingLevel::Info => 2,
            LoggingLevel::Debug => 1,
        }
    }

    /// Whether a record at this severity passes the current level.
    pub fn should_log(&self, message_level: LoggingLevel) -> (r: bool)
        ensures
            r == (spec_level_priority(message_level) >= spec_level_priority(self.level)),
    {
        self.level_priority(message_level) >= self.level_priority(self.level)
    }

    /// Log a record: while enabled and at or above the level, it joins the
    /// sink; otherwise it is dropped silently.
    pub fn log(&mut self, level: LoggingLevel, logger: Option<String>, data: Json, timestamp: u64)
        -> (r: McpResult<()>)
        ensures
            r is Ok,
            final(self).level == old(self).level,
            final(self).enabled == old(self).enabled,
            (old(self).enabled && spec_level_priority(level) >= spec_level_priority(
                old(self).level,
            )) ==> final(self).sink@.len() == old(self).sink@.len() + 1 && final(self).sink@.last().level == level && final(self).sink@.last().timestamp == timestamp
                && final(self).sink@.subrange(0, old(self).sink@.len() as int) == old(self).sink@,
            !(old(self).enabled && spec_level_priority(level) >= spec_level_priority(
                old(self).level,
            )) ==> final(self).sink == old(self).sink,
    {
        if !self.enabled {
            return Ok(());
        }
        if !self.should_log(level) {
            return Ok(());
        }
        let message = LogMessage { level, logger, data, timestamp };
        let ghost pre = self.sink@;
        self.sink.push(message);
        proof {
            assert(self.sink@.subrange(0, pre.len() as int) =~= pre);
        }
        Ok(())
    }
}

} // verus!
