//! Log severities and sources, and the tags that log lines carry.

use vstd::prelude::*;

verus! {

#[derive(Debug, Clone, Copy, PartialEq, Eq, Structural)]
pub enum LogLevel {
    Debug,
    Info,
    Warning,
    Error,
    Success,
}

#[derive(Debug, Clone, Copy, PartialEq, Eq, Structural)]
pub enum LogType {
    Master,
    Cluster,
    Client,
    System,
}

impl LogLevel {
    /// The tag of a log line of this severity.
    pub fn tag(&self) -> (r: &'static str)
        ensures
            *self == LogLevel::Debug ==> r@ == "[DEBUG]"@,
            *self == LogLevel::Info ==> r@ == "[INFO]"@,
            *self == LogLevel::Warning ==> r@ == "[WARNING]"@,
            *self == LogLevel::Error ==> r@ == "[ERROR]"@,
            *self == LogLevel::Success ==> r@ == "[SUCCESS]"@,
    {
        match self {
            LogLevel::Debug => "[DEBUG]",
            LogLevel::Info => "[INFO]",
            LogLevel::Warning => "[WARNING]",
            LogLevel::Error => "[ERROR]",
            LogLevel::Success => "[SUCCESS]",
        }
    }
}

impl LogType {
    /// The tag of a log line from this source.
    pub fn tag(&self) -> (r: &'static str)
        ensures
            *self == LogType::Master ==> r@ == "[Master]"@,
            *self == LogType::Cluster ==> r@ == "[Cluster]"@,
            *self == LogType::Client ==> r@ == "[Client]"@,
            *self == LogType::System ==> r@ == "[System]"@,
    {
        match self {
            LogType::Master => "[Master]",
            LogType::Cluster => "[Cluster]",
            LogType::Client => "[Client]",
            LogType::System => "[System]",
        }
    }
}

} // verus!
