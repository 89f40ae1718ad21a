//! Log-line construction: levels, request metrics and the slow-operation
//! and cache diagnostics. This module only decides and renders; whatever
//! actually emits the lines lives outside the library.

use crate::error::{AppError, AppResult};
use crate::hashing::{dec_u64, u64_to_dec};
use crate::strutil::{ascii_lower, ascii_lower_exec, str_eq_str};
use vstd::prelude::*;
use vstd::string::StringExecFns;

verus! {

/// The logging configuration.
#[derive(Debug)]
pub struct LogConfig {
    pub log_level: String,
    pub structured_logs: bool,
    pub include_span_events: bool,
}

impl Default for LogConfig {
    /// Info level, human-readable output, span events on.
    fn default() -> (c: LogConfig)
        ensures
            c.log_level@ == "info"@,
            !c.structured_logs,
            c.include_span_events,
    {
        proof {
            reveal_strlit("info");
        }
        LogConfig {
            log_level: String::from_str("info"),
            structured_logs: false,
            include_span_events: true,
        }
    }
}

/// A verbosity level.
#[derive(Debug)]
pub enum LogLevel {
    Trace,
    Debug,
    Info,
    Warn,
    Error,
}

/// The level a name denotes, compared case-insensitively; `None` for an
/// unknown name.
pub open spec fn spec_log_level(s: Seq<char>) -> Option<LogLevel> {
    let l = ascii_lower(s);
    if l == "trace"@ {
        Some(LogLevel::Trace)
    } else if l == "debug"@ {
        Some(LogLevel::Debug)
    } else if l == "info"@ {
        Some(LogLevel::Info)
    } else if l == "warn"@ || l == "warning"@ {
        Some(LogLevel::Warn)
    } else if l == "error"@ {
        Some(LogLevel::Error)
    } else {
        None
    }
}

/// Parses a log-level name; unknown names are a validation error.
pub fn parse_log_level(level: &str) -> (r: AppResult<LogLevel>)
    ensures
        match r {
            Ok(l) => spec_log_level(level@) == Some(l),
            Err(e) => (e matches AppError::ValidationError(m) && m@ == "Invalid log level: "@
                + level@) && spec_log_level(level@) is None,
        },
{
    proof {
        reveal_strlit("trace");
        reveal_strlit("debug");
        reveal_strlit("info");
        reveal_strlit("warn");
        reveal_strlit("warning");
        reveal_strlit("error");
    }
    let low = ascii_lower_exec(level);
    let l = low.as_str();
    if str_eq_str(l, "trace") {
        Ok(LogLevel::Trace)
    } else if str_eq_str(l, "debug") {
        Ok(LogLevel::Debug)
    } else if str_eq_str(l, "info") {
        Ok(LogLevel::Info)
    } else if str_eq_str(l, "warn") || str_eq_str(l, "warning") {
        Ok(LogLevel::Warn)
    } else if str_eq_str(l, "error") {
        Ok(LogLevel::Error)
    } else {
        proof {
            reveal_strlit("Invalid log level: ");
        }
        Err(AppError::ValidationError(String::from_str("Invalid log level: ").concat(level)))
    }
}

/// One processed HTTP request, as the logging middleware records it.
#[derive(Debug)]
pub struct RequestMetrics {
    pub method: String,
    pub path: String,
    pub status: u16,
    pub duration_ms: u64,
    pub bytes_sent: Option<u64>,
    pub user_agent: Option<String>,
    pub ip_address: Option<String>,
}

impl RequestMetrics {
    /// Whether the request counts as slow: it took more than a second.
    pub open spec fn spec_slow(&self) -> bool {
        self.duration_ms > 1000
    }

    /// The log lines for this request: always the processed line, a
    /// slow-request warning when it took more than a second, and an error
    /// line when the status is an error status.
    pub fn log(&self) -> (r: Vec<String>)
        ensures
            r@.len() == 1 + (if self.spec_slow() {
                1int
            } else {
                0int
            }) + (if self.status >= 400 {
                1int
            } else {
                0int
            }),
            r@[0]@ == "HTTP request processed: "@ + self.method@ + " "@ + self.path@ + " "@
                + dec_u64(self.status as u64) + " "@ + dec_u64(self.duration_ms) + "ms"@,
            self.spec_slow() ==> r@[1]@ == "Slow request detected: "@ + self.method@ + " "@
                + self.path@,
            self.status >= 400 ==> r@[r@.len() - 1]@ == (
            if self.status >= 500 {
                "HTTP error response (error): "@ + dec_u64(self.status as u64)
            } else {
                "HTTP error response (warn): "@ + dec_u64(self.status as u64)
            }),
    {
        proof {
            reveal_strlit("HTTP request processed: ");
            reveal_strlit(" ");
            reveal_strlit("ms");
            reveal_strlit("Slow request detected: ");
            reveal_strlit("HTTP error response (error): ");
            reveal_strlit("HTTP error response (warn): ");
        }
        let mut out: Vec<String> = Vec::new();
        let line = String::from_str("HTTP request processed: ").concat(self.method.as_str()).concat(
            " ",
        ).concat(self.path.as_str()).concat(" ").concat(
            u64_to_dec(self.status as u64).as_str(),
        ).concat(" ").concat(u64_to_dec(self.duration_ms).as_str()).concat("ms");
        out.push(line);
        if self.duration_ms > 1000 {
            out.push(
                String::from_str("Slow request detected: ").concat(self.method.as_str()).concat(
                    " ",
                ).concat(self.path.as_str()),
            );
        }
        if self.status >= 400 {
            if self.status >= 500 {
                out.push(
                    String::from_str("HTTP error response (error): ").concat(
                        u64_to_dec(self.status as u64).as_str(),
                    ),
                );
            } else {
                out.push(
                    String::from_str("HTTP error response (warn): ").concat(
                        u64_to_dec(self.status as u64).as_str(),
                    ),
                );
            }
        }
        out
    }
}

/// The slow-operation warning: present exactly when the operation exceeded
/// its threshold.
pub fn log_slow_operation(operation: &str, duration_ms: u64, threshold_ms: u64) -> (r: Option<
    String,
>)
    ensures
        match r {
            Some(m) => duration_ms > threshold_ms && m@ == "Slow operation detected: "@
                + operation@,
            None => duration_ms <= threshold_ms,
        },
{
    if duration_ms > threshold_ms {
        proof {
            reveal_strlit("Slow operation detected: ");
        }
        Some(String::from_str("Slow operation detected: ").concat(operation))
    } else {
        None
    }
}

/// The line announcing a starting database query.
pub fn log_query_start(query: &str, params: Option<&str>) -> (r: String)
    ensures
        r@ == "Database query starting: "@ + query@ + (match params {
            Some(p) => " "@ + p@,
            None => Seq::<char>::empty(),
        }),
{
    proof {
        reveal_strlit("Database query starting: ");
        reveal_strlit(" ");
    }
    let base = String::from_str("Database query starting: ").concat(query);
    match params {
        Some(p) => base.concat(" ").concat(p),
        None => base,
    }
}

/// The completion line of a database query: a slow-query warning past a
/// tenth of a second, the plain completion line otherwise.
pub fn log_query_complete(query: &str, duration_ms: u64, rows_affected: Option<usize>) -> (r:
    String)
    ensures
        r@ == (if duration_ms > 100 {
            "Slow database query: "@ + query@
        } else {
            "Database query completed: "@ + query@
        }),
{
    proof {
        reveal_strlit("Slow database query: ");
        reveal_strlit("Database query completed: ");
    }
    if duration_ms > 100 {
        String::from_str("Slow database query: ").concat(query)
    } else {
        String::from_str("Database query completed: ").concat(query)
    }
}

/// The line reporting a failed database query.
pub fn log_query_error(query: &str, error: &str, duration_ms: u64) -> (r: String)
    ensures
        r@ == "Database query failed: "@ + query@ + " "@ + error@,
{
    proof {
        reveal_strlit("Database query failed: ");
        reveal_strlit(" ");
    }
    String::from_str("Database query failed: ").concat(query).concat(" ").concat(error)
}

/// The line recording a cache hit.
pub fn log_cache_hit(key: &str, cache_type: &str) -> (r: String)
    ensures
        r@ == "Cache hit: "@ + cache_type@ + " "@ + key@,
{
    proof {
        reveal_strlit("Cache hit: ");
        reveal_strlit(" ");
    }
    String::from_str("Cache hit: ").concat(cache_type).concat(" ").concat(key)
}

/// The line recording a cache miss.
pub fn log_cache_miss(key: &str, cache_type: &str) -> (r: String)
    ensures
        r@ == "Cache miss: "@ + cache_type@ + " "@ + key@,
{
    proof {
        reveal_strlit("Cache miss: ");
        reveal_strlit(" ");
    }
    String::from_str("Cache miss: ").concat(cache_type).concat(" ").concat(key)
}

/// The line recording a cache store, with the entry's time-to-live when
/// one applies.
pub fn log_cache_set(key: &str, cache_type: &str, ttl: Option<u64>) -> (r: String)
    ensures
        r@ == "Cache entry set: "@ + cache_type@ + " "@ + key@ + (match ttl {
            Some(t) => " ttl="@ + dec_u64(t),
            None => Seq::<char>::empty(),
        }),
{
    proof {
        reveal_strlit("Cache entry set: ");
        reveal_strlit(" ");
        reveal_strlit(" ttl=");
    }
    let base = String::from_str("Cache entry set: ").concat(cache_type).concat(" ").concat(key);
    match ttl {
        Some(t) => base.concat(" ttl=").concat(u64_to_dec(t).as_str()),
        None => base,
    }
}

/// The line recording a cache eviction and its reason.
pub fn log_cache_eviction(key: &str, cache_type: &str, reason: &str) -> (r: String)
    ensures
        r@ == "Cache entry evicted: "@ + cache_type@ + " "@ + key@ + " "@ + reason@,
{
    proof {
        reveal_strlit("Cache entry evicted: ");
        reveal_strlit(" ");
    }
    String::from_str("Cache entry evicted: ").concat(cache_type).concat(" ").concat(key).concat(
        " ",
    ).concat(reason)
}

} // verus!
