//! The control API's log stream: levels, and the messages streamed to
//! subscribers.

use vstd::prelude::*;
use crate::text::{
    ascii_lower, ascii_lowercase, chars_eq_ignore_ascii_case, chars_of, eq_ignore_ascii_case, owned,
    str_eq,
};

verus! {

/// Severity of a log message, from most to least verbose.
#[derive(Clone, Copy, Debug, PartialEq, Eq, PartialOrd, Ord, Structural)]
pub enum LogLevel {
    Debug,
    Info,
    Warning,
    Error,
    Silent,
}

/// Wire name of each level.
pub open spec fn log_level_name(l: LogLevel) -> Seq<char> {
    match l {
        LogLevel::Debug => "debug"@,
        LogLevel::Info => "info"@,
        LogLevel::Warning => "warning"@,
        LogLevel::Error => "error"@,
        LogLevel::Silent => "silent"@,
    }
}

/// Level named by a configuration value, regardless of ASCII case;
/// `info` and anything unrecognised mean `Info`.
pub open spec fn spec_parse_log_level(s: Seq<char>) -> LogLevel {
    if eq_ignore_ascii_case(s, "debug"@) {
        LogLevel::Debug
    } else if eq_ignore_ascii_case(s, "warning"@) || eq_ignore_ascii_case(s, "warn"@) {
        LogLevel::Warning
    } else if eq_ignore_ascii_case(s, "error"@) {
        LogLevel::Error
    } else if eq_ignore_ascii_case(s, "silent"@) {
        LogLevel::Silent
    } else {
        LogLevel::Info
    }
}

/// Texts that differ in length or in their first letter (ignoring ASCII
/// case) are not equal ignoring case.
proof fn lemma_not_eq_ignore_case(a: Seq<char>, b: Seq<char>)
    requires
        a.len() != b.len() || (a.len() > 0 && b.len() > 0 && ascii_lower(a[0]) != ascii_lower(b[0])),
    ensures
        !eq_ignore_ascii_case(a, b),
{
    if eq_ignore_ascii_case(a, b) {
        assert(ascii_lowercase(a).len() == a.len());
        assert(ascii_lowercase(b).len() == b.len());
        if a.len() == b.len() {
            assert(ascii_lowercase(a)[0] == ascii_lower(a[0]));
            assert(ascii_lowercase(b)[0] == ascii_lower(b[0]));
        }
    }
}

/// Reading a level's wire name gives the level back: `parse_log_level`
/// inverts `LogLevel::as_str`.
pub proof fn lemma_parse_log_level_inverts_name(l: LogLevel)
    ensures
        spec_parse_log_level(log_level_name(l)) == l,
{
    reveal_strlit("debug");
    reveal_strlit("info");
    reveal_strlit("warning");
    reveal_strlit("warn");
    reveal_strlit("error");
    reveal_strlit("silent");
    let n = log_level_name(l);
    match l {
        LogLevel::Debug => {},
        LogLevel::Info => {
            lemma_not_eq_ignore_case(n, "debug"@);
            lemma_not_eq_ignore_case(n, "warning"@);
            lemma_not_eq_ignore_case(n, "warn"@);
            lemma_not_eq_ignore_case(n, "error"@);
            lemma_not_eq_ignore_case(n, "silent"@);
        },
        LogLevel::Warning => {
            lemma_not_eq_ignore_case(n, "debug"@);
        },
        LogLevel::Error => {
            lemma_not_eq_ignore_case(n, "debug"@);
            lemma_not_eq_ignore_case(n, "warning"@);
            lemma_not_eq_ignore_case(n, "warn"@);
        },
        LogLevel::Silent => {
            lemma_not_eq_ignore_case(n, "debug"@);
            lemma_not_eq_ignore_case(n, "warning"@);
            lemma_not_eq_ignore_case(n, "warn"@);
            lemma_not_eq_ignore_case(n, "error"@);
        },
    }
}

/// Case does not matter when reading a level: a value reads as its ASCII
/// lower-casing does, and `warn` is another name for `warning`; a value
/// reads as a level other than `Info` only when it names that level.
pub proof fn lemma_parse_log_level_ignores_case(s: Seq<char>)
    ensures
        spec_parse_log_level(s) == spec_parse_log_level(ascii_lowercase(s)),
        spec_parse_log_level("warn"@) == LogLevel::Warning,
        spec_parse_log_level(s) != LogLevel::Info ==> eq_ignore_ascii_case(
            s,
            log_level_name(spec_parse_log_level(s)),
        ) || eq_ignore_ascii_case(s, "warn"@),
{
    let l = ascii_lowercase(s);
    assert(ascii_lowercase(l) =~= l) by {
        assert forall|i: int| 0 <= i < l.len() implies ascii_lower(#[trigger] l[i]) == l[i] by {
            let c = s[i];
            if 'A' <= c <= 'Z' {
                assert(l[i] == ((c as u32) + 32) as char);
            }
        }
    }
    reveal_strlit("warn");
    reveal_strlit("debug");
    lemma_not_eq_ignore_case("warn"@, "debug"@);
}

/// Severity of a tracing event.
#[derive(Clone, Copy, Debug, PartialEq, Eq, Structural)]
pub enum TraceLevel {
    Trace,
    Debug,
    Info,
    Warn,
    Error,
}

impl LogLevel {
    /// The wire name.
    pub fn as_str(self) -> (r: &'static str)
        ensures
            r@ == log_level_name(self),
    {
        match self {
            LogLevel::Debug => "debug",
            LogLevel::Info => "info",
            LogLevel::Warning => "warning",
            LogLevel::Error => "error",
            LogLevel::Silent => "silent",
        }
    }

    /// The level under which a tracing event is streamed: trace and debug
    /// events are both `Debug`.
    pub fn from_trace_level(t: TraceLevel) -> (r: LogLevel)
        ensures
            r == (match t {
                TraceLevel::Trace | TraceLevel::Debug => LogLevel::Debug,
                TraceLevel::Info => LogLevel::Info,
                TraceLevel::Warn => LogLevel::Warning,
                TraceLevel::Error => LogLevel::Error,
            }),
    {
        match t {
            TraceLevel::Trace | TraceLevel::Debug => LogLevel::Debug,
            TraceLevel::Info => LogLevel::Info,
            TraceLevel::Warn => LogLevel::Warning,
            TraceLevel::Error => LogLevel::Error,
        }
    }
}

/// Reads a configured log level.
pub fn parse_log_level(s: &str) -> (r: LogLevel)
    ensures
        r == spec_parse_log_level(s@),
{
    let cs = chars_of(s);
    let n = cs.len();
    proof {
        assert(cs@.subrange(0, n as int) =~= s@);
    }
    if chars_eq_ignore_ascii_case(&cs, 0, n, "debug") {
        LogLevel::Debug
    } else if chars_eq_ignore_ascii_case(&cs, 0, n, "warning") || chars_eq_ignore_ascii_case(
        &cs,
        0,
        n,
        "warn",
    ) {
        LogLevel::Warning
    } else if chars_eq_ignore_ascii_case(&cs, 0, n, "error") {
        LogLevel::Error
    } else if chars_eq_ignore_ascii_case(&cs, 0, n, "silent") {
        LogLevel::Silent
    } else {
        LogLevel::Info
    }
}

/// What `time` writes for the instant `unix_nanos` nanoseconds after the
/// epoch, in UTC, as RFC 3339 (`None` when the instant is out of its range
/// or cannot be written so).
pub uninterp spec fn spec_rfc3339_utc(unix_nanos: int) -> Option<Seq<char>>;

/// `time::OffsetDateTime::from_unix_timestamp_nanos`, then `format` with
/// the RFC 3339 description: the instant's text, or `None` when either
/// step fails.
#[verifier::external_body]
fn rfc3339_utc(unix_nanos: i128) -> (r: Option<String>)
    ensures
        r is Some <==> spec_rfc3339_utc(unix_nanos as int) is Some,
        r matches Some(t) ==> spec_rfc3339_utc(unix_nanos as int) == Some(t@),
{
    match time::OffsetDateTime::from_unix_timestamp_nanos(unix_nanos) {
        Ok(t) => t.format(&time::format_description::well_known::Rfc3339).ok(),
        Err(_) => None,
    }
}

/// The text of a message's time: RFC 3339, or empty when it cannot be
/// written.
pub open spec fn spec_time_text(unix_nanos: i128) -> Seq<char> {
    match spec_rfc3339_utc(unix_nanos as int) {
        Some(t) => t,
        None => Seq::empty(),
    }
}

/// One streamed log line: its level, its message, and when it was logged
/// (nanoseconds after the Unix epoch, UTC).
#[derive(Clone, Debug)]
pub struct LogMessage {
    pub level: LogLevel,
    pub payload: String,
    pub time_unix_nanos: i128,
}

impl LogMessage {
    /// The `type` field of the streamed object: the level's wire name.
    pub fn kind(&self) -> (r: &'static str)
        ensures
            r@ == log_level_name(self.level),
    {
        self.level.as_str()
    }

    /// The `time` field of the streamed object.
    pub fn time_text(&self) -> (r: String)
        ensures
            r@ == spec_time_text(self.time_unix_nanos),
    {
        match rfc3339_utc(self.time_unix_nanos) {
            Some(t) => t,
            None => String::new(),
        }
    }
}

/// Takes one field of a tracing event into the message being built: only
/// the field called `message` is kept, and a later one replaces an earlier.
pub fn record_field(payload: &mut String, field: &str, value: &str)
    ensures
        field@ == "message"@ ==> final(payload)@ == value@,
        field@ != "message"@ ==> final(payload)@ == old(payload)@,
{
    if str_eq(field, "message") {
        *payload = owned(value);
    }
}

} // verus!
