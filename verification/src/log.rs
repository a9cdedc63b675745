use vstd::prelude::*;

use crate::numfmt::{append_padded, dec, pad_zeros};

verus! {

/// Severity of a log message, from least to most severe.
#[derive(Debug, Clone, Copy, PartialEq, Eq, PartialOrd, Ord, Structural)]
pub enum LogLevel {
    Debug,
    Info,
    Warn,
    Error,
}

/// The rank of a level in the order `Debug < Info < Warn < Error`.
pub open spec fn level_rank(l: LogLevel) -> nat {
    match l {
        LogLevel::Debug => 0,
        LogLevel::Info => 1,
        LogLevel::Warn => 2,
        LogLevel::Error => 3,
    }
}

/// The five-character label of a level.
pub open spec fn level_text(l: LogLevel) -> Seq<char> {
    match l {
        LogLevel::Debug => "DEBUG"@,
        LogLevel::Info => "INFO "@,
        LogLevel::Warn => "WARN "@,
        LogLevel::Error => "ERROR"@,
    }
}

impl LogLevel {
    /// The rank of the level (see `level_rank`).
    pub fn rank(&self) -> (r: u8)
        ensures
            r == level_rank(*self),
    {
        match self {
            LogLevel::Debug => 0,
            LogLevel::Info => 1,
            LogLevel::Warn => 2,
            LogLevel::Error => 3,
        }
    }

    /// The five-character label: `DEBUG`, `INFO `, `WARN ` or `ERROR`.
    pub fn to_string(&self) -> (r: String)
        ensures
            r@ == level_text(*self),
    {
        match self {
            LogLevel::Debug => String::from_str("DEBUG"),
            LogLevel::Info => String::from_str("INFO "),
            LogLevel::Warn => String::from_str("WARN "),
            LogLevel::Error => String::from_str("ERROR"),
        }
    }
}

/// A log message: a level and its text.
#[derive(Debug, Clone)]
pub struct LogMessage {
    level: LogLevel,
    text: String,
}

impl LogMessage {
    /// The message's level.
    pub closed spec fn level_spec(&self) -> LogLevel {
        self.level
    }

    /// The message's text.
    pub closed spec fn text_spec(&self) -> Seq<char> {
        self.text@
    }

    /// A message at `Debug` level.
    pub fn debug(text: &str) -> (r: Self)
        ensures
            r.level_spec() == LogLevel::Debug,
            r.text_spec() == text@,
    {
        LogMessage { level: LogLevel::Debug, text: String::from_str(text) }
    }

    /// A message at `Info` level.
    pub fn info(text: &str) -> (r: Self)
        ensures
            r.level_spec() == LogLevel::Info,
            r.text_spec() == text@,
    {
        LogMessage { level: LogLevel::Info, text: String::from_str(text) }
    }

    /// A message at `Warn` level.
    pub fn warn(text: &str) -> (r: Self)
        ensures
            r.level_spec() == LogLevel::Warn,
            r.text_spec() == text@,
    {
        LogMessage { level: LogLevel::Warn, text: String::from_str(text) }
    }

    /// A message at `Error` level.
    pub fn error(text: &str) -> (r: Self)
        ensures
            r.level_spec() == LogLevel::Error,
            r.text_spec() == text@,
    {
        LogMessage { level: LogLevel::Error, text: String::from_str(text) }
    }

    /// The message's level.
    pub fn level(&self) -> (r: LogLevel)
        ensures
            r == self.level_spec(),
    {
        self.level
    }

    /// The message's text.
    pub fn text(&self) -> (r: &str)
        ensures
            r@ == self.text_spec(),
    {
        self.text.as_str()
    }
}

/// The rules of a log sink: messages below `min_level` are dropped, the
/// others become lines `<timestamp> [<LEVEL>] <text>`.
#[derive(Debug, Clone, Copy)]
pub struct LogHandler {
    min_level: LogLevel,
}

/// The line written for a message.
pub open spec fn log_line(timestamp: Seq<char>, level: LogLevel, text: Seq<char>) -> Seq<char> {
    timestamp + " ["@ + level_text(level) + "] "@ + text
}

impl LogHandler {
    /// The lowest level written.
    pub closed spec fn min_level_spec(&self) -> LogLevel {
        self.min_level
    }

    /// A handler that writes every level.
    pub fn new() -> (r: Self)
        ensures
            r.min_level_spec() == LogLevel::Debug,
    {
        LogHandler { min_level: LogLevel::Debug }
    }

    /// The same handler writing only `level` and above.
    pub fn with_min_level(self, level: LogLevel) -> (r: Self)
        ensures
            r.min_level_spec() == level,
    {
        LogHandler { min_level: level }
    }

    /// The lowest level written.
    pub fn min_level(&self) -> (r: LogLevel)
        ensures
            r == self.min_level_spec(),
    {
        self.min_level
    }

    /// Whether a message at `level` is written.
    pub fn accepts(&self, level: LogLevel) -> (r: bool)
        ensures
            r <==> level_rank(level) >= level_rank(self.min_level_spec()),
    {
        level.rank() >= self.min_level.rank()
    }

    /// The line to write for `msg` stamped `timestamp`, or `None` when its
    /// level is below the minimum.
    pub fn line_for(&self, timestamp: &str, msg: &LogMessage) -> (r: Option<String>)
        ensures
            match r {
                Some(line) => level_rank(msg.level_spec()) >= level_rank(self.min_level_spec())
                    && line@ == log_line(timestamp@, msg.level_spec(), msg.text_spec()),
                None => level_rank(msg.level_spec()) < level_rank(self.min_level_spec()),
            },
    {
        if !self.accepts(msg.level()) {
            return None;
        }
        let mut line = String::from_str(timestamp);
        line.append(" [");
        let label = msg.level().to_string();
        line.append(label.as_str());
        line.append("] ");
        line.append(msg.text());
        proof {
            assert(line@ =~= log_line(timestamp@, msg.level_spec(), msg.text_spec()));
        }
        Some(line)
    }
}

/// The proleptic Gregorian date `(year, month, day)` that lies `days` days
/// after 1970-01-01 (the civil-from-days conversion by eras of 400 years,
/// with years counted from March).
pub open spec fn civil_from_days(days: nat) -> (int, int, int) {
    let z: int = days as int + 719468;
    let era: int = z / 146097;
    let doe: int = z - era * 146097;
    let yoe: int = year_of_era(doe);
    let doy: int = doe - (365 * yoe + yoe / 4 - yoe / 100);
    let mp: int = (5 * doy + 2) / 153;
    let d: int = doy - (153 * mp + 2) / 5 + 1;
    let m: int = if mp < 10 { mp + 3 } else { mp - 9 };
    let y: int = yoe + era * 400;
    (if m <= 2 { y + 1 } else { y }, m, d)
}

/// The year of its era in which day `doe` of a 400-year era falls.
pub open spec fn year_of_era(doe: int) -> int {
    (doe - doe / 1460 + doe / 36524 - doe / 146096) / 365
}

/// Bounds of the year of era and the day of year.
proof fn lemma_doy_range(doe: int)
    requires
        0 <= doe < 146097,
    ensures
        0 <= year_of_era(doe) <= 399,
        0 <= doe - (365 * year_of_era(doe) + year_of_era(doe) / 4 - year_of_era(doe) / 100) <= 365,
{
}

/// Every day maps to a real month and day of month.
pub proof fn law_civil_date_valid(days: nat)
    ensures
        1 <= civil_from_days(days).1 <= 12,
        1 <= civil_from_days(days).2 <= 31,
{
    let z: int = days as int + 719468;
    let era: int = z / 146097;
    let doe: int = z - era * 146097;
    lemma_doy_range(doe);
}

/// The civil date `days` days after 1970-01-01 (see `civil_from_days`).
pub fn civil_from_days_exec(days: u64) -> (r: (u64, u64, u64))
    requires
        days <= u64::MAX / 86400,
    ensures
        (r.0 as int, r.1 as int, r.2 as int) == civil_from_days(days as nat),
{
    let z: u64 = days + 719468;
    let era: u64 = z / 146097;
    let doe: u64 = z - era * 146097;
    proof {
        lemma_doy_range(doe as int);
    }
    let yoe: u64 = (doe - doe / 1460 + doe / 36524 - doe / 146096) / 365;
    let doy: u64 = doe - (365 * yoe + yoe / 4 - yoe / 100);
    let mp: u64 = (5 * doy + 2) / 153;
    let d: u64 = doy - (153 * mp + 2) / 5 + 1;
    let m: u64 = if mp < 10 { mp + 3 } else { mp - 9 };
    let y: u64 = yoe + era * 400;
    let y: u64 = if m <= 2 { y + 1 } else { y };
    (y, m, d)
}

/// The timestamp text `YYYY-MM-DDTHH:MM:SS.mmmZ` for `secs` seconds and
/// `millis` milliseconds after the epoch; fields are zero-padded and a year
/// past 9999 is written in full.
pub open spec fn timestamp_text(secs: u64, millis: u32) -> Seq<char> {
    let date = civil_from_days((secs / 86400) as nat);
    let day_secs = secs % 86400;
    pad_zeros(dec(date.0 as nat), 4) + "-"@ + pad_zeros(dec(date.1 as nat), 2) + "-"@
        + pad_zeros(dec(date.2 as nat), 2) + "T"@ + pad_zeros(dec((day_secs / 3600) as nat), 2) + ":"@
        + pad_zeros(dec(((day_secs % 3600) / 60) as nat), 2) + ":"@ + pad_zeros(dec((day_secs % 60) as nat), 2)
        + "."@ + pad_zeros(dec(millis as nat), 3) + "Z"@
}

/// Formats the instant `secs` seconds and `millis` milliseconds after the
/// Unix epoch as `YYYY-MM-DDTHH:MM:SS.mmmZ` (UTC).
pub fn format_timestamp(secs: u64, millis: u32) -> (r: String)
    ensures
        r@ == timestamp_text(secs, millis),
{
    let days = secs / 86400;
    let day_secs = secs % 86400;
    let hours = day_secs / 3600;
    let minutes = (day_secs % 3600) / 60;
    let seconds = day_secs % 60;
    let (y, m, d) = civil_from_days_exec(days);
    let mut s = String::new();
    append_padded(&mut s, y, 4);
    s.append("-");
    append_padded(&mut s, m, 2);
    s.append("-");
    append_padded(&mut s, d, 2);
    s.append("T");
    append_padded(&mut s, hours, 2);
    s.append(":");
    append_padded(&mut s, minutes, 2);
    s.append(":");
    append_padded(&mut s, seconds, 2);
    s.append(".");
    append_padded(&mut s, millis as u64, 3);
    s.append("Z");
    proof {
        assert(s@ =~= timestamp_text(secs, millis));
    }
    s
}

} // verus!
