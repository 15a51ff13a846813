use vstd::prelude::*;

use crate::strings::{dec_str, u64_to_string};

verus! {

/// The civil (proleptic Gregorian) date of a day count since the epoch,
/// computed era by era: 146097 days make one 400-year era.
pub open spec fn civil_of_days(days: int) -> (int, int, int) {
    let z = days + 719468;
    let era = z / 146097;
    let doe = z % 146097;
    let yoe_raw = (doe - doe / 1460 + doe / 36524 - doe / 146096) / 365;
    let yoe = if yoe_raw < 0 {
        0
    } else {
        yoe_raw
    };
    let ydays = 365 * yoe + yoe / 4 - yoe / 100;
    let doy = if doe >= ydays {
        doe - ydays
    } else {
        0
    };
    let mp = (5 * doy + 2) / 153;
    let mdays = (153 * mp + 2) / 5;
    let d = if doy >= mdays {
        doy - mdays + 1
    } else {
        1
    };
    let m = if mp < 10 {
        mp + 3
    } else {
        mp - 9
    };
    let y = yoe + era * 400 + (if m <= 2 {
        1int
    } else {
        0int
    });
    (y, m, d)
}

/// A number in decimal, left-padded with zeroes to two digits.
pub open spec fn two_digits(n: int) -> Seq<char> {
    if n < 10 {
        seq!['0'] + dec_str(n)
    } else {
        dec_str(n)
    }
}

/// A civil timestamp of a second count since the epoch:
/// `yyyy-mm-dd HH:MM:SS` with `sep` between date and time and `tsep`
/// between the time fields.
pub open spec fn timestamp_chars(secs: int, sep: char, tsep: char) -> Seq<char> {
    let days = secs / 86400;
    let rem = secs % 86400;
    let ymd = civil_of_days(days);
    dec_str(ymd.0) + seq!['-'] + two_digits(ymd.1) + seq!['-'] + two_digits(ymd.2) + seq![sep]
        + two_digits(rem / 3600) + seq![tsep] + two_digits((rem % 3600) / 60) + seq![tsep]
        + two_digits(rem % 60)
}

/// The display form of a modify time: `yyyy-mm-dd HH:MM:SS`.
pub open spec fn display_date_spec(secs: int) -> Seq<char> {
    timestamp_chars(secs, ' ', ':')
}

/// The snapshot-name form of a wall-clock instant:
/// `yyyy-mm-ddTHH-MM-SS.<ns>`.  Colons are avoided: a dataset name cannot
/// hold them.
pub open spec fn snapshot_timestamp_spec(secs: int, nanos: int) -> Seq<char> {
    timestamp_chars(secs, 'T', '-') + seq!['.'] + dec_str(nanos)
}

/// Render `n` in decimal, padded to two digits.
fn two_digits_string(n: u64) -> (r: String)
    ensures
        r@ == two_digits(n as int),
{
    if n < 10 {
        proof {
            reveal_strlit("0");
        }
        let mut s = "0".to_owned();
        proof {
            assert(s@ =~= seq!['0']);
        }
        s.append(u64_to_string(n).as_str());
        proof {
            assert(s@ =~= two_digits(n as int));
        }
        s
    } else {
        u64_to_string(n)
    }
}

/// Render the civil timestamp of a second count, with the given
/// separators.
fn format_timestamp(secs: u64, sep: &str, tsep: &str) -> (r: String)
    requires
        sep@.len() == 1,
        tsep@.len() == 1,
    ensures
        r@ == timestamp_chars(secs as int, sep@[0], tsep@[0]),
{
    let days = secs / 86400;
    let rem = secs % 86400;

    let z = days + 719468;
    let era = z / 146097;
    let doe = z % 146097;
    let yoe = (doe - doe / 1460 + doe / 36524 - doe / 146096) / 365;
    let ydays = 365 * yoe + yoe / 4 - yoe / 100;
    let doy = if doe >= ydays {
        doe - ydays
    } else {
        0
    };
    let mp = (5 * doy + 2) / 153;
    let mdays = (153 * mp + 2) / 5;
    let d = if doy >= mdays {
        doy - mdays + 1
    } else {
        1
    };
    let m = if mp < 10 {
        mp + 3
    } else {
        mp - 9
    };
    let y = yoe + era * 400 + (if m <= 2 {
        1u64
    } else {
        0u64
    });

    let mut out = u64_to_string(y);
    out.append("-");
    out.append(two_digits_string(m).as_str());
    out.append("-");
    out.append(two_digits_string(d).as_str());
    out.append(sep);
    out.append(two_digits_string(rem / 3600).as_str());
    out.append(tsep);
    out.append(two_digits_string((rem % 3600) / 60).as_str());
    out.append(tsep);
    out.append(two_digits_string(rem % 60).as_str());
    proof {
        reveal_strlit("-");
        assert(sep@ =~= seq![sep@[0]]);
        assert(tsep@ =~= seq![tsep@[0]]);
        assert(out@ =~= timestamp_chars(secs as int, sep@[0], tsep@[0]));
    }
    out
}

/// The display form of a modify time given in nanoseconds since the epoch.
pub fn get_date(mtime_nanos: u64) -> (r: String)
    ensures
        r@ == display_date_spec((mtime_nanos / 1000000000) as int),
{
    proof {
        reveal_strlit(" ");
        reveal_strlit(":");
    }
    format_timestamp(mtime_nanos / 1000000000, " ", ":")
}

/// The timestamp every snapshot of one batch shares, from a wall-clock
/// instant the caller read.
pub fn snapshot_timestamp(secs: u64, nanos: u64) -> (r: String)
    ensures
        r@ == snapshot_timestamp_spec(secs as int, nanos as int),
{
    proof {
        reveal_strlit("T");
        reveal_strlit("-");
    }
    let mut out = format_timestamp(secs, "T", "-");
    out.append(".");
    out.append(u64_to_string(nanos).as_str());
    proof {
        reveal_strlit(".");
        assert(out@ =~= snapshot_timestamp_spec(secs as int, nanos as int));
    }
    out
}

} // verus!
