//! Request logging: the severity a logging transport adapter emits its lines
//! at. The adapter that wraps the HTTP client owns the actual logging; this
//! type only carries the chosen severity.

use vstd::prelude::*;

verus! {

/// The severity of a log line, from most to least severe.
#[derive(Clone, Copy, Debug, PartialEq, Eq, Structural)]
pub enum LogLevel {
    /// A failure worth immediate attention.
    Error,
    /// A condition worth attention.
    Warn,
    /// Ordinary progress information.
    Info,
    /// Detail for troubleshooting.
    Debug,
    /// The finest detail.
    Trace,
}

/// Logs every request and its outcome at one fixed severity.
pub struct LoggingMiddleware {
    /// The severity every line of this middleware is emitted at.
    pub level: LogLevel,
}

impl LoggingMiddleware {
    /// A middleware that logs at `level`.
    pub fn new(level: LogLevel) -> (r: Self)
        ensures
            r.level == level,
    {
        LoggingMiddleware { level }
    }
}

} // verus!
