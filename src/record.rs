//! Turning lines into records, and the counts of a run.

use vstd::prelude::*;
use crate::attributes::{Attributes, extract, extract_spec};
use crate::classify::{Level, classify, classify_spec};
use crate::timestamp::{Timestamp, fields_valid, parse_raw_spec, reconstruct, stamp};

verus! {

/// A parsed log line.
pub struct LogRecord {
    pub level: Level,
    pub timestamp: Timestamp,
    /// The message as written, attributes included.
    pub message: String,
    pub attributes: Attributes,
}

/// The line is of the expected shape and its timestamp names a date and time
/// of day in the given year.
pub open spec fn line_well_formed(line: Seq<char>, year: i32) -> bool {
    classify_spec(line) matches Some(c) && parse_raw_spec(c.1) matches Some(f) && fields_valid(
        year,
        f,
    )
}

/// What holds of the outcome of parsing `line` in `year`: a line that is not
/// well formed gives no record; a record carries the line's level, message and
/// attributes, and a timestamp of the given year with the written fields. A
/// well-formed line gives no record only where the local time zone gives its
/// moment two offsets or none.
pub open spec fn parsed_line(line: Seq<char>, year: i32, r: Option<LogRecord>) -> bool {
    &&& !line_well_formed(line, year) ==> r is None
    &&& r matches Some(rec) ==> {
        let c = classify_spec(line)->0;
        let f = parse_raw_spec(c.1)->0;
        &&& line_well_formed(line, year)
        &&& rec.level == c.0
        &&& rec.message@ == c.2
        &&& rec.attributes.wf()
        &&& rec.attributes@ == extract_spec(c.2)
        &&& rec.timestamp == stamp(year, f, rec.timestamp.offset_seconds)
        &&& -86_400 < rec.timestamp.offset_seconds < 86_400
    }
}

/// Parses one line into a record, or gives `None` for a line that is not of the
/// shape `LEVEL [MM-DD|HH:MM:SS] message` or whose timestamp cannot be
/// reconstructed in `year`.
pub fn parse_line(line: &str, year: i32) -> (r: Option<LogRecord>)
    ensures
        parsed_line(line@, year, r),
{
    let c = match classify(line) {
        Some(c) => c,
        None => {
            return None;
        },
    };
    let timestamp = match reconstruct(c.timestamp.as_str(), year) {
        Ok(t) => t,
        Err(_) => {
            return None;
        },
    };
    let attributes = extract(c.message.as_str());
    Some(LogRecord { level: c.level, timestamp, message: c.message, attributes })
}

/// The counts of a run: lines seen, and records produced from them.
pub struct RunSummary {
    pub total_lines: u64,
    pub valid_lines: u64,
}

/// Invalid lines as hundredths of a percent of all lines, rounded half up; zero
/// when there are no lines.
pub open spec fn invalid_hundredths(total: int, valid: int) -> int {
    if total == 0 {
        0
    } else {
        (20000 * (total - valid) + total) / (2 * total)
    }
}

impl RunSummary {
    /// No more records than lines.
    pub open spec fn wf(&self) -> bool {
        self.valid_lines <= self.total_lines
    }

    /// The counts before the first line.
    pub fn new() -> (r: RunSummary)
        ensures
            r.wf(),
            r.total_lines == 0,
            r.valid_lines == 0,
    {
        RunSummary { total_lines: 0, valid_lines: 0 }
    }

    /// Parses the next line of the run and counts it, as valid where it gives a
    /// record and as invalid otherwise.
    pub fn process_line(&mut self, line: &str, year: i32) -> (r: Option<LogRecord>)
        requires
            old(self).wf(),
            old(self).total_lines < u64::MAX,
        ensures
            final(self).wf(),
            parsed_line(line@, year, r),
            final(self).total_lines == old(self).total_lines + 1,
            final(self).valid_lines == old(self).valid_lines + if r is Some {
                1int
            } else {
                0int
            },
    {
        let r = parse_line(line, year);
        self.total_lines = self.total_lines + 1;
        if r.is_some() {
            self.valid_lines = self.valid_lines + 1;
        }
        r
    }

    /// Lines that gave no record.
    pub fn invalid_lines(&self) -> (r: u64)
        requires
            self.wf(),
        ensures
            r == self.total_lines - self.valid_lines,
    {
        self.total_lines - self.valid_lines
    }

    /// Invalid lines as hundredths of a percent of all lines, rounded half up;
    /// zero, not a division by zero, when there were no lines.
    pub fn invalid_percent_hundredths(&self) -> (r: u64)
        requires
            self.wf(),
        ensures
            r == invalid_hundredths(self.total_lines as int, self.valid_lines as int),
            r <= 10000,
    {
        if self.total_lines == 0 {
            return 0;
        }
        let t = self.total_lines as u128;
        let inv = (self.total_lines - self.valid_lines) as u128;
        proof {
            assert(20000 * inv + t < (2 * t) * 10001) by (nonlinear_arith)
                requires
                    inv <= t,
                    0 < t,
            ;
            vstd::arithmetic::div_mod::lemma_multiply_divide_lt(
                (20000 * inv + t) as int,
                (2 * t) as int,
                10001,
            );
            vstd::arithmetic::div_mod::lemma_div_pos_is_pos((20000 * inv + t) as int, (2 * t) as int);
        }
        ((20000 * inv + t) / (2 * t)) as u64
    }
}

/// Why a path cannot be read as a log file.
#[derive(Clone, Copy, Debug, PartialEq, Eq, Structural)]
pub enum PathError {
    NotFound,
    NotAFile,
}

/// Decides whether a path can be processed, from whether it exists and whether
/// it names a regular file.
pub fn validate_path(exists: bool, is_file: bool) -> (r: Result<(), PathError>)
    ensures
        !exists ==> r == Err::<(), PathError>(PathError::NotFound),
        exists && !is_file ==> r == Err::<(), PathError>(PathError::NotAFile),
        exists && is_file ==> r is Ok,
{
    if !exists {
        Err(PathError::NotFound)
    } else if !is_file {
        Err(PathError::NotAFile)
    } else {
        Ok(())
    }
}

} // verus!
