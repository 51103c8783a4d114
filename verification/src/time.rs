//! Calendar output for timestamp variables and the time pre-pass. A Unix
//! time, shifted by the context's zone offset, is broken into civil fields,
//! and a compact set of strftime-style directives renders them; unknown
//! directives pass through unchanged.

use vstd::prelude::*;
use vstd::string::StringSliceAdditionalSpecFns;
use crate::bytes::{lit, append_bytes};
use crate::nums::{spec_u64_dec, u64_dec};

verus! {

/// Highest timestamp handled: the last second of year 9999.
pub const TIME_MAX: i64 = 253402300799;

/// Broken-down time.
pub struct Tm {
    pub year: u64,
    /// 1 to 12.
    pub mon: u64,
    /// 1 to 31.
    pub day: u64,
    pub hour: u64,
    pub min: u64,
    pub sec: u64,
    /// 0 is Sunday.
    pub wday: u64,
}

/// Ghost image of a broken-down time.
pub struct TmSpec {
    pub year: int,
    pub mon: int,
    pub day: int,
    pub hour: int,
    pub min: int,
    pub sec: int,
    pub wday: int,
}

impl View for Tm {
    type V = TmSpec;

    open spec fn view(&self) -> TmSpec {
        TmSpec {
            year: self.year as int,
            mon: self.mon as int,
            day: self.day as int,
            hour: self.hour as int,
            min: self.min as int,
            sec: self.sec as int,
            wday: self.wday as int,
        }
    }
}

/// Civil date of a day count since 1970-01-01, by era decomposition; each
/// field is pinned at zero from below, though the algorithm never goes
/// negative for day counts in range.
pub open spec fn spec_civil(days: int) -> (int, int, int) {
    let z = days + 719468;
    let era = z / 146097;
    let doe = z % 146097;
    let yoe = (doe - doe / 1460 + doe / 36524 - doe / 146096) / 365;
    let doy = doe - (365 * yoe + yoe / 4 - yoe / 100);
    let mp = (5 * doy + 2) / 153;
    let d = doy - (153 * mp + 2) / 5 + 1;
    let m = if mp < 10 {
        mp + 3
    } else {
        mp - 9
    };
    let y = if m <= 2 {
        era * 400 + yoe + 1
    } else {
        era * 400 + yoe
    };
    (clamp0(y), clamp0(m), clamp0(d))
}

pub open spec fn clamp0(v: int) -> int {
    if v < 0 {
        0
    } else {
        v
    }
}

/// All fields of the local time `t + tz_offset`.
pub open spec fn spec_tm(t: int, tz_offset: int) -> TmSpec {
    let lt = t + tz_offset;
    let days = lt / 86400;
    let secs = lt % 86400;
    let (y, m, d) = spec_civil(days);
    TmSpec {
        year: y,
        mon: m,
        day: d,
        hour: secs / 3600,
        min: (secs / 60) % 60,
        sec: secs % 60,
        wday: (days + 4) % 7,
    }
}

/// Break a timestamp down. Times before 1970 or after year 9999 are out of
/// range for the calendar output.
#[verifier::rlimit(100)]
#[verifier::spinoff_prover]
pub fn time_tm(t: i64, tz_offset: i64) -> (r: Tm)
    requires
        0 <= t + tz_offset <= TIME_MAX as int,
    ensures
        r@ == spec_tm(t as int, tz_offset as int),
{
    let lt: i64 = t + tz_offset;
    let days: i64 = lt / 86400;
    let secs: i64 = lt % 86400;
    let z: i64 = days + 719468;
    let era: i64 = z / 146097;
    let doe: i64 = z % 146097;
    let yoe: i64 = (doe - doe / 1460 + doe / 36524 - doe / 146096) / 365;
    let doy: i64 = doe - (365 * yoe + yoe / 4 - yoe / 100);
    let mp: i64 = (5 * doy + 2) / 153;
    let d: i64 = doy - (153 * mp + 2) / 5 + 1;
    let m: i64 = if mp < 10 {
        mp + 3
    } else {
        mp - 9
    };
    let y: i64 = if m <= 2 {
        era * 400 + yoe + 1
    } else {
        era * 400 + yoe
    };
    Tm {
        year: if y >= 0 {
            y as u64
        } else {
            0
        },
        mon: if m >= 0 {
            m as u64
        } else {
            0
        },
        day: if d >= 0 {
            d as u64
        } else {
            0
        },
        hour: (secs / 3600) as u64,
        min: ((secs / 60) % 60) as u64,
        sec: (secs % 60) as u64,
        wday: ((days + 4) % 7) as u64,
    }
}

/// Three-letter weekday name.
pub open spec fn spec_wday_name(w: int) -> Seq<u8> {
    if w == 0 {
        ("Sun").spec_bytes()
    } else if w == 1 {
        ("Mon").spec_bytes()
    } else if w == 2 {
        ("Tue").spec_bytes()
    } else if w == 3 {
        ("Wed").spec_bytes()
    } else if w == 4 {
        ("Thu").spec_bytes()
    } else if w == 5 {
        ("Fri").spec_bytes()
    } else {
        ("Sat").spec_bytes()
    }
}

fn wday_name(w: u64) -> (r: Vec<u8>)
    ensures
        r@ == spec_wday_name(w as int),
{
    if w == 0 {
        lit("Sun")
    } else if w == 1 {
        lit("Mon")
    } else if w == 2 {
        lit("Tue")
    } else if w == 3 {
        lit("Wed")
    } else if w == 4 {
        lit("Thu")
    } else if w == 5 {
        lit("Fri")
    } else {
        lit("Sat")
    }
}

/// Three-letter month name; months count from one.
pub open spec fn spec_mon_name(m: int) -> Seq<u8> {
    if m == 1 {
        ("Jan").spec_bytes()
    } else if m == 2 {
        ("Feb").spec_bytes()
    } else if m == 3 {
        ("Mar").spec_bytes()
    } else if m == 4 {
        ("Apr").spec_bytes()
    } else if m == 5 {
        ("May").spec_bytes()
    } else if m == 6 {
        ("Jun").spec_bytes()
    } else if m == 7 {
        ("Jul").spec_bytes()
    } else if m == 8 {
        ("Aug").spec_bytes()
    } else if m == 9 {
        ("Sep").spec_bytes()
    } else if m == 10 {
        ("Oct").spec_bytes()
    } else if m == 11 {
        ("Nov").spec_bytes()
    } else {
        ("Dec").spec_bytes()
    }
}

fn mon_name(m: u64) -> (r: Vec<u8>)
    ensures
        r@ == spec_mon_name(m as int),
{
    if m == 1 {
        lit("Jan")
    } else if m == 2 {
        lit("Feb")
    } else if m == 3 {
        lit("Mar")
    } else if m == 4 {
        lit("Apr")
    } else if m == 5 {
        lit("May")
    } else if m == 6 {
        lit("Jun")
    } else if m == 7 {
        lit("Jul")
    } else if m == 8 {
        lit("Aug")
    } else if m == 9 {
        lit("Sep")
    } else if m == 10 {
        lit("Oct")
    } else if m == 11 {
        lit("Nov")
    } else {
        lit("Dec")
    }
}

/// Two digits, zero padded.
pub open spec fn spec_pad2(n: int) -> Seq<u8> {
    seq![(48 + (n / 10) % 10) as u8, (48 + n % 10) as u8]
}

fn pad2(n: u64) -> (r: Vec<u8>)
    ensures
        r@ == spec_pad2(n as int),
{
    let mut v: Vec<u8> = Vec::new();
    v.push(48 + (((n / 10) % 10) as u8));
    v.push(48 + ((n % 10) as u8));
    proof {
        assert(v@ =~= spec_pad2(n as int));
    }
    v
}

/// Day of the month padded with a space, as `%e` prints it.
pub open spec fn spec_pad2_space(n: int) -> Seq<u8> {
    if n < 10 {
        seq![' ' as u8, (48 + n % 10) as u8]
    } else {
        spec_pad2(n)
    }
}

fn pad2_space(n: u64) -> (r: Vec<u8>)
    ensures
        r@ == spec_pad2_space(n as int),
{
    if n < 10 {
        let mut v: Vec<u8> = Vec::new();
        v.push(' ' as u8);
        v.push(48 + ((n % 10) as u8));
        proof {
            assert(v@ =~= spec_pad2_space(n as int));
        }
        v
    } else {
        pad2(n)
    }
}

/// What one directive character expands to; `None` passes `%c` through.
pub open spec fn spec_directive(c: u8, tm: TmSpec) -> Option<Seq<u8>> {
    if c == 'a' as u8 {
        Some(spec_wday_name(tm.wday))
    } else if c == 'b' as u8 || c == 'h' as u8 {
        Some(spec_mon_name(tm.mon))
    } else if c == 'd' as u8 {
        Some(spec_pad2(tm.day))
    } else if c == 'e' as u8 {
        Some(spec_pad2_space(tm.day))
    } else if c == 'H' as u8 {
        Some(spec_pad2(tm.hour))
    } else if c == 'I' as u8 {
        Some(
            spec_pad2(
                if tm.hour % 12 == 0 {
                    12
                } else {
                    tm.hour % 12
                },
            ),
        )
    } else if c == 'm' as u8 {
        Some(spec_pad2(tm.mon))
    } else if c == 'M' as u8 {
        Some(spec_pad2(tm.min))
    } else if c == 'p' as u8 {
        Some(
            if tm.hour < 12 {
                ("AM").spec_bytes()
            } else {
                ("PM").spec_bytes()
            },
        )
    } else if c == 'S' as u8 {
        Some(spec_pad2(tm.sec))
    } else if c == 'y' as u8 {
        Some(spec_pad2(tm.year % 100))
    } else if c == 'Y' as u8 {
        Some(spec_u64_dec(tm.year as nat))
    } else if c == 'R' as u8 {
        Some(spec_pad2(tm.hour) + seq![':' as u8] + spec_pad2(tm.min))
    } else if c == 'T' as u8 {
        Some(
            spec_pad2(tm.hour) + seq![':' as u8] + spec_pad2(tm.min) + seq![':' as u8] + spec_pad2(
                tm.sec,
            ),
        )
    } else if c == 'D' as u8 {
        Some(
            spec_pad2(tm.mon) + seq!['/' as u8] + spec_pad2(tm.day) + seq!['/' as u8] + spec_pad2(
                tm.year % 100,
            ),
        )
    } else if c == 'F' as u8 {
        Some(
            spec_u64_dec(tm.year as nat) + seq!['-' as u8] + spec_pad2(tm.mon) + seq![
                '-' as u8,
            ] + spec_pad2(tm.day),
        )
    } else if c == '%' as u8 {
        Some(seq!['%' as u8])
    } else {
        None
    }
}

fn directive(c: u8, tm: &Tm) -> (r: Option<Vec<u8>>)
    ensures
        match r {
            Some(v) => spec_directive(c, tm@) == Some(v@),
            None => spec_directive(c, tm@) is None,
        },
{
    if c == 'a' as u8 {
        Some(wday_name(tm.wday))
    } else if c == 'b' as u8 || c == 'h' as u8 {
        Some(mon_name(tm.mon))
    } else if c == 'd' as u8 {
        Some(pad2(tm.day))
    } else if c == 'e' as u8 {
        Some(pad2_space(tm.day))
    } else if c == 'H' as u8 {
        Some(pad2(tm.hour))
    } else if c == 'I' as u8 {
        let h = tm.hour % 12;
        Some(pad2(if h == 0 {
            12
        } else {
            h
        }))
    } else if c == 'm' as u8 {
        Some(pad2(tm.mon))
    } else if c == 'M' as u8 {
        Some(pad2(tm.min))
    } else if c == 'p' as u8 {
        Some(if tm.hour < 12 {
            lit("AM")
        } else {
            lit("PM")
        })
    } else if c == 'S' as u8 {
        Some(pad2(tm.sec))
    } else if c == 'y' as u8 {
        Some(pad2(tm.year % 100))
    } else if c == 'Y' as u8 {
        Some(u64_dec(tm.year))
    } else if c == 'R' as u8 {
        let mut v = pad2(tm.hour);
        v.push(':' as u8);
        let mm = pad2(tm.min);
        append_bytes(&mut v, mm.as_slice());
        proof {
            assert(v@ =~= spec_pad2(tm@.hour) + seq![':' as u8] + spec_pad2(tm@.min));
        }
        Some(v)
    } else if c == 'T' as u8 {
        let mut v = pad2(tm.hour);
        v.push(':' as u8);
        let mm = pad2(tm.min);
        append_bytes(&mut v, mm.as_slice());
        v.push(':' as u8);
        let ss = pad2(tm.sec);
        append_bytes(&mut v, ss.as_slice());
        proof {
            assert(v@ =~= spec_pad2(tm@.hour) + seq![':' as u8] + spec_pad2(tm@.min) + seq![
                ':' as u8,
            ] + spec_pad2(tm@.sec));
        }
        Some(v)
    } else if c == 'D' as u8 {
        let mut v = pad2(tm.mon);
        v.push('/' as u8);
        let dd = pad2(tm.day);
        append_bytes(&mut v, dd.as_slice());
        v.push('/' as u8);
        let yy = pad2(tm.year % 100);
        append_bytes(&mut v, yy.as_slice());
        proof {
            assert(v@ =~= spec_pad2(tm@.mon) + seq!['/' as u8] + spec_pad2(tm@.day) + seq![
                '/' as u8,
            ] + spec_pad2(tm@.year % 100));
        }
        Some(v)
    } else if c == 'F' as u8 {
        let mut v = u64_dec(tm.year);
        v.push('-' as u8);
        let mm = pad2(tm.mon);
        append_bytes(&mut v, mm.as_slice());
        v.push('-' as u8);
        let dd = pad2(tm.day);
        append_bytes(&mut v, dd.as_slice());
        proof {
            assert(v@ =~= spec_u64_dec(tm@.year as nat) + seq!['-' as u8] + spec_pad2(tm@.mon)
                + seq!['-' as u8] + spec_pad2(tm@.day));
        }
        Some(v)
    } else if c == '%' as u8 {
        let mut v: Vec<u8> = Vec::new();
        v.push('%' as u8);
        proof {
            assert(v@ =~= seq!['%' as u8]);
        }
        Some(v)
    } else {
        None
    }
}

/// The whole format rendered against a broken-down time, from `i` on.
pub open spec fn strftime_rec(fmt: Seq<u8>, tm: TmSpec, i: int) -> Seq<u8>
    decreases fmt.len() - i,
{
    if i < 0 || i >= fmt.len() {
        Seq::empty()
    } else if fmt[i] == '%' as u8 && i + 1 < fmt.len() {
        match spec_directive(fmt[i + 1], tm) {
            Some(v) => v + strftime_rec(fmt, tm, i + 2),
            None => seq![fmt[i], fmt[i + 1]] + strftime_rec(fmt, tm, i + 2),
        }
    } else {
        seq![fmt[i]] + strftime_rec(fmt, tm, i + 1)
    }
}

/// Render `fmt` against the time; unknown `%x` pairs stay as they are.
pub fn format_strftime(fmt: &[u8], tm: &Tm) -> (r: Vec<u8>)
    ensures
        r@ == strftime_rec(fmt@, tm@, 0),
{
    let mut out: Vec<u8> = Vec::new();
    let mut i: usize = 0;
    while i < fmt.len()
        invariant
            i <= fmt@.len(),
            out@ + strftime_rec(fmt@, tm@, i as int) == strftime_rec(fmt@, tm@, 0),
        decreases fmt@.len() - i,
    {
        let ghost pre = out@;
        let c = fmt[i];
        if c == '%' as u8 && i + 1 < fmt.len() {
            let d = fmt[i + 1];
            match directive(d, tm) {
                Some(v) => {
                    append_bytes(&mut out, v.as_slice());
                    proof {
                        assert(out@ + strftime_rec(fmt@, tm@, i + 2) =~= pre + strftime_rec(
                            fmt@,
                            tm@,
                            i as int,
                        ));
                    }
                },
                None => {
                    out.push(c);
                    out.push(d);
                    proof {
                        assert(out@ + strftime_rec(fmt@, tm@, i + 2) =~= pre + strftime_rec(
                            fmt@,
                            tm@,
                            i as int,
                        ));
                    }
                },
            }
            i = i + 2;
        } else {
            out.push(c);
            proof {
                assert(out@ + strftime_rec(fmt@, tm@, i + 1) =~= pre + strftime_rec(
                    fmt@,
                    tm@,
                    i as int,
                ));
            }
            i = i + 1;
        }
    }
    proof {
        assert(out@ + strftime_rec(fmt@, tm@, i as int) =~= out@);
    }
    out
}

/// The default time rendering, as `ctime` prints it without the newline.
pub open spec fn spec_ctime(tm: TmSpec) -> Seq<u8> {
    spec_wday_name(tm.wday) + seq![' ' as u8] + spec_mon_name(tm.mon) + seq![
        ' ' as u8,
    ] + spec_pad2_space(tm.day) + seq![' ' as u8] + spec_pad2(tm.hour) + seq![
        ':' as u8,
    ] + spec_pad2(tm.min) + seq![':' as u8] + spec_pad2(tm.sec) + seq![' ' as u8] + spec_u64_dec(
        tm.year as nat,
    )
}

pub fn format_ctime(tm: &Tm) -> (r: Vec<u8>)
    ensures
        r@ == spec_ctime(tm@),
{
    let mut v = wday_name(tm.wday);
    v.push(' ' as u8);
    let mn = mon_name(tm.mon);
    append_bytes(&mut v, mn.as_slice());
    v.push(' ' as u8);
    let dd = pad2_space(tm.day);
    append_bytes(&mut v, dd.as_slice());
    v.push(' ' as u8);
    let hh = pad2(tm.hour);
    append_bytes(&mut v, hh.as_slice());
    v.push(':' as u8);
    let mm = pad2(tm.min);
    append_bytes(&mut v, mm.as_slice());
    v.push(':' as u8);
    let ss = pad2(tm.sec);
    append_bytes(&mut v, ss.as_slice());
    v.push(' ' as u8);
    let yy = u64_dec(tm.year);
    append_bytes(&mut v, yy.as_slice());
    proof {
        assert(v@ =~= spec_ctime(tm@));
    }
    v
}

/// The short relative form of a past time: clock time within a day, weekday
/// and day within a month, day and month within a year, month and year
/// beyond that.
pub open spec fn spec_pretty_time(t: int, now: int, tz: int, seconds: bool) -> Seq<u8> {
    let now2 = if now < t {
        t
    } else {
        now
    };
    let age = now2 - t;
    let tm = spec_tm(t, tz);
    let now_tm = spec_tm(now2, tz);
    if age < 24 * 3600 {
        if seconds {
            spec_pad2(tm.hour) + seq![':' as u8] + spec_pad2(tm.min) + seq![':' as u8] + spec_pad2(
                tm.sec,
            )
        } else {
            spec_pad2(tm.hour) + seq![':' as u8] + spec_pad2(tm.min)
        }
    } else if (tm.year == now_tm.year && tm.mon == now_tm.mon) || age < 28 * 24 * 3600 {
        spec_wday_name(tm.wday) + spec_pad2(tm.day)
    } else if (tm.year == now_tm.year && tm.mon < now_tm.mon) || (tm.year == now_tm.year - 1
        && tm.mon > now_tm.mon) {
        spec_pad2(tm.day) + spec_mon_name(tm.mon)
    } else {
        spec_mon_name(tm.mon) + spec_pad2(tm.year % 100)
    }
}

pub fn format_pretty_time(t: i64, now: i64, tz: i64, seconds: bool) -> (r: Vec<u8>)
    requires
        0 <= t + tz <= TIME_MAX as int,
        0 <= now + tz <= TIME_MAX as int,
    ensures
        r@ == spec_pretty_time(t as int, now as int, tz as int, seconds),
{
    let now2: i64 = if now < t {
        t
    } else {
        now
    };
    let age: i64 = now2 - t;
    let tm = time_tm(t, tz);
    let now_tm = time_tm(now2, tz);
    if age < 24 * 3600 {
        if seconds {
            let mut v = pad2(tm.hour);
            v.push(':' as u8);
            let mm = pad2(tm.min);
            append_bytes(&mut v, mm.as_slice());
            v.push(':' as u8);
            let ss = pad2(tm.sec);
            append_bytes(&mut v, ss.as_slice());
            proof {
                assert(v@ =~= spec_pretty_time(t as int, now as int, tz as int, seconds));
            }
            v
        } else {
            let mut v = pad2(tm.hour);
            v.push(':' as u8);
            let mm = pad2(tm.min);
            append_bytes(&mut v, mm.as_slice());
            proof {
                assert(v@ =~= spec_pretty_time(t as int, now as int, tz as int, seconds));
            }
            v
        }
    } else if (tm.year == now_tm.year && tm.mon == now_tm.mon) || age < 28 * 24 * 3600 {
        let mut v = wday_name(tm.wday);
        let dd = pad2(tm.day);
        append_bytes(&mut v, dd.as_slice());
        proof {
            assert(v@ =~= spec_pretty_time(t as int, now as int, tz as int, seconds));
        }
        v
    } else if (tm.year == now_tm.year && tm.mon < now_tm.mon) || (now_tm.year >= 1 && tm.year
        == now_tm.year - 1 && tm.mon > now_tm.mon) {
        let mut v = pad2(tm.day);
        let mn = mon_name(tm.mon);
        append_bytes(&mut v, mn.as_slice());
        proof {
            assert(v@ =~= spec_pretty_time(t as int, now as int, tz as int, seconds));
        }
        v
    } else {
        let mut v = mon_name(tm.mon);
        let yy = pad2(tm.year % 100);
        append_bytes(&mut v, yy.as_slice());
        proof {
            assert(v@ =~= spec_pretty_time(t as int, now as int, tz as int, seconds));
        }
        v
    }
}

} // verus!
