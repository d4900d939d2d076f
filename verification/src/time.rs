//! Publishing times of versions, parsed by the `chrono` crate, and their UTC dates.

use vstd::prelude::*;
use chrono::Datelike;
use crate::colors::decimal_text;
use crate::text::decimal;

verus! {

/// The UTC instant (seconds since the Unix epoch and nanoseconds within the second)
/// that `chrono::DateTime::parse_from_rfc3339` reads from a text, converted to UTC.
pub uninterp spec fn rfc3339_instant(text: Seq<char>) -> Option<(i64, u32)>;

/// The proleptic Gregorian (year, month, day) of the day that lies `days` days after
/// 1970-01-01 (before it where negative).
pub open spec fn civil_from_days(days: int) -> (int, int, int) {
    let z = days + 719468;
    let era = z / 146097;
    let doe = z - era * 146097;
    let yoe = (doe - doe / 1460 + doe / 36524 - doe / 146096) / 365;
    let doy = doe - (365 * yoe + yoe / 4 - yoe / 100);
    let mp = (5 * doy + 2) / 153;
    let d = doy - (153 * mp + 2) / 5 + 1;
    let m = if mp < 10 { mp + 3 } else { mp - 9 };
    (yoe + era * 400 + (if m <= 2 { 1int } else { 0int }), m, d)
}

/// `s` with `0`s put before it until it is `w` characters long.
pub open spec fn zero_pad(s: Seq<char>, w: nat) -> Seq<char>
    decreases w - s.len(),
{
    if s.len() >= w {
        s
    } else {
        zero_pad(seq!['0'] + s, w)
    }
}

/// A year as `%Y` writes it: four digits, zero-padded, for 0 to 9999; otherwise a sign
/// and at least four digits.
pub open spec fn year_text(y: int) -> Seq<char> {
    if 0 <= y <= 9999 {
        zero_pad(decimal(y as nat), 4)
    } else if y < 0 {
        seq!['-'] + zero_pad(decimal((-y) as nat), 4)
    } else {
        seq!['+'] + zero_pad(decimal(y as nat), 4)
    }
}

/// A date as `%Y-%m-%d` writes it.
pub open spec fn date_text(y: int, m: int, d: int) -> Seq<char> {
    year_text(y) + seq!['-'] + zero_pad(decimal(m as nat), 2) + seq!['-'] + zero_pad(
        decimal(d as nat),
        2,
    )
}

/// The `%Y-%m-%d` text of the UTC day that holds an instant.
pub open spec fn utc_date(secs: i64) -> Seq<char> {
    let c = civil_from_days(secs / 86400);
    date_text(c.0, c.1, c.2)
}

/// A publishing time: the UTC instant and its calendar date, which is always the
/// `%Y-%m-%d` text of the instant's UTC day.
pub struct PublishTime {
    secs: i64,
    nanos: u32,
    date: String,
}

/// The view of a publishing time.
pub struct PublishTimeModel {
    pub secs: i64,
    pub nanos: u32,
    pub date: Seq<char>,
}

impl View for PublishTime {
    type V = PublishTimeModel;

    closed spec fn view(&self) -> PublishTimeModel {
        PublishTimeModel { secs: self.secs, nanos: self.nanos, date: self.date@ }
    }
}

/// Whether `t` is the publishing time written as `text`.
pub open spec fn time_read_from(text: Seq<char>, t: PublishTimeModel) -> bool {
    &&& rfc3339_instant(text) == Some((t.secs, t.nanos))
    &&& t.date == utc_date(t.secs)
}

/// `chrono::DateTime::parse_from_rfc3339`, then `to_utc`, read as the instant
/// (`timestamp`, `timestamp_subsec_nanos`) and the UTC calendar date (`year`, `month`,
/// `day`). The instant is named by `rfc3339_instant`; the date is the proleptic
/// Gregorian date of the instant's day, counted in whole days from the epoch.
#[verifier::external_body]
fn chrono_parse_rfc3339(text: &str) -> (r: Option<(i64, u32, i32, u32, u32)>)
    ensures
        match r {
            Some((secs, nanos, y, m, d)) => {
                &&& rfc3339_instant(text@) == Some((secs, nanos))
                &&& civil_from_days(secs / 86400) == (y as int, m as int, d as int)
            },
            None => rfc3339_instant(text@) is None,
        },
{
    match chrono::DateTime::parse_from_rfc3339(text) {
        Ok(t) => {
            let u = t.to_utc();
            Some((u.timestamp(), u.timestamp_subsec_nanos(), u.year(), u.month(), u.day()))
        },
        Err(_) => None,
    }
}

/// The decimal text of `n`, zero-padded to `w` characters.
fn padded(n: u64, w: usize) -> (r: String)
    ensures
        r@ == zero_pad(decimal(n as nat), w as nat),
{
    let mut r = decimal_text(n);
    while r.as_str().unicode_len() < w
        invariant
            zero_pad(r@, w as nat) == zero_pad(decimal(n as nat), w as nat),
        decreases w - r@.len(),
    {
        let mut t = "0".to_owned();
        t.append(r.as_str());
        proof {
            reveal_strlit("0");
        }
        assert(t@ =~= seq!['0'] + r@);
        r = t;
    }
    r
}

/// Writes a date as `%Y-%m-%d` does.
fn format_date(y: i32, m: u32, d: u32) -> (r: String)
    ensures
        r@ == date_text(y as int, m as int, d as int),
{
    let mut r = String::new();
    if 0 <= y && y <= 9999 {
        let t = padded(y as u64, 4);
        r.append(t.as_str());
    } else if y < 0 {
        let a: i64 = -(y as i64);
        let t = padded(a as u64, 4);
        r.append("-");
        r.append(t.as_str());
    } else {
        let t = padded(y as u64, 4);
        r.append("+");
        r.append(t.as_str());
    }
    let ms = padded(m as u64, 2);
    let ds = padded(d as u64, 2);
    r.append("-");
    r.append(ms.as_str());
    r.append("-");
    r.append(ds.as_str());
    proof {
        reveal_strlit("-");
        reveal_strlit("+");
    }
    assert(r@ =~= date_text(y as int, m as int, d as int));
    r
}

impl PublishTime {
    #[verifier::type_invariant]
    spec fn date_of_instant(self) -> bool {
        self.date@ == utc_date(self.secs)
    }

    /// Seconds since the Unix epoch.
    pub fn secs(&self) -> (r: i64)
        ensures
            r == self@.secs,
    {
        self.secs
    }

    /// Nanoseconds within the second.
    pub fn nanos(&self) -> (r: u32)
        ensures
            r == self@.nanos,
    {
        self.nanos
    }

    /// The UTC date, as `%Y-%m-%d` writes it.
    pub fn date(&self) -> (r: &String)
        ensures
            r@ == self@.date,
            r@ == utc_date(self@.secs),
    {
        proof {
            use_type_invariant(self);
        }
        &self.date
    }

    /// Reads an RFC 3339 date and time, such as `2024-02-29T10:00:00.000Z`, and the
    /// `%Y-%m-%d` date of its UTC day.
    pub fn parse(text: &str) -> (r: Option<PublishTime>)
        ensures
            match r {
                Some(t) => time_read_from(text@, t@),
                None => rfc3339_instant(text@) is None,
            },
    {
        match chrono_parse_rfc3339(text) {
            Some((secs, nanos, y, m, d)) => {
                let date = format_date(y, m, d);
                Some(PublishTime { secs, nanos, date })
            },
            None => None,
        }
    }

    /// A copy of the time.
    pub fn duplicate(&self) -> (r: PublishTime)
        ensures
            r@ == self@,
    {
        proof {
            use_type_invariant(self);
        }
        PublishTime { secs: self.secs, nanos: self.nanos, date: self.date.clone() }
    }
}

} // verus!
