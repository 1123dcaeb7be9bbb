use vstd::prelude::*;
use vstd::string::StringExecFns;

verus! {

/// The latest instant, in seconds since the Unix epoch, that the tracker
/// accepts as "now" (late in the year 255 000).
pub const MAX_TIME: i64 = 8_000_000_000_000;

pub open spec fn valid_time(t: i64) -> bool {
    0 <= t <= MAX_TIME
}

/// The hour of the day (UTC) of an instant given in seconds since the epoch.
pub open spec fn hour_of(t: i64) -> int {
    (t as int % 86400) / 3600
}

pub open spec fn digit_char(d: int) -> char {
    if d == 0 { '0' } else if d == 1 { '1' } else if d == 2 { '2' } else if d == 3 { '3' }
    else if d == 4 { '4' } else if d == 5 { '5' } else if d == 6 { '6' } else if d == 7 { '7' }
    else if d == 8 { '8' } else { '9' }
}

/// The two-digit, zero-padded label of an hour of the day.
pub open spec fn hour_label(h: int) -> Seq<char> {
    seq![digit_char(h / 10), digit_char(h % 10)]
}

/// The calendar day (UTC) of an instant, as chrono writes it with "%Y-%m-%d".
pub uninterp spec fn date_label_of(secs: int) -> Seq<char>;

/// Relies on chrono's `DateTime::<Utc>::from_timestamp`, which is `Some` for
/// every instant whose day number fits its date range (all of `valid_time`),
/// and on the "%Y-%m-%d" formatting of the result, which depends on the
/// instant alone.
#[verifier::external_body]
fn day_of(secs: i64) -> (r: Option<String>)
    requires
        valid_time(secs),
    ensures
        r.is_some(),
        r.unwrap()@ == date_label_of(secs as int),
{
    match chrono::DateTime::from_timestamp(secs, 0) {
        Some(d) => Some(d.format("%Y-%m-%d").to_string()),
        None => None,
    }
}

/// The partition key of an instant: its calendar day in UTC.
pub fn date_label(secs: i64) -> (r: String)
    requires
        valid_time(secs),
    ensures
        r@ == date_label_of(secs as int),
{
    match day_of(secs) {
        Some(d) => d,
        None => String::new(),
    }
}

/// The hour of the day (UTC) of an instant, for any instant, before or after the epoch.
pub fn hour_of_day(t: i64) -> (h: usize)
    ensures
        h == hour_of(t),
        h < 24,
{
    let m = t.checked_rem_euclid(86400);
    match m {
        Some(r) => {
            assert(0 <= r < 86400);
            (r / 3600) as usize
        },
        None => 0,
    }
}

fn digit_str(d: usize) -> (r: &'static str)
    requires
        d < 10,
    ensures
        r@ == seq![digit_char(d as int)],
{
    if d == 0 {
        proof { reveal_strlit("0"); }
        "0"
    } else if d == 1 {
        proof { reveal_strlit("1"); }
        "1"
    } else if d == 2 {
        proof { reveal_strlit("2"); }
        "2"
    } else if d == 3 {
        proof { reveal_strlit("3"); }
        "3"
    } else if d == 4 {
        proof { reveal_strlit("4"); }
        "4"
    } else if d == 5 {
        proof { reveal_strlit("5"); }
        "5"
    } else if d == 6 {
        proof { reveal_strlit("6"); }
        "6"
    } else if d == 7 {
        proof { reveal_strlit("7"); }
        "7"
    } else if d == 8 {
        proof { reveal_strlit("8"); }
        "8"
    } else {
        proof { reveal_strlit("9"); }
        "9"
    }
}

/// The label of an hour bucket: the hour written with two digits.
pub fn hour_label_string(h: usize) -> (r: String)
    requires
        h < 100,
    ensures
        r@ == hour_label(h as int),
{
    let mut s = String::new();
    s.append(digit_str(h / 10));
    s.append(digit_str(h % 10));
    assert(s@ =~= hour_label(h as int));
    s
}

/// Relies on uuid's `Uuid::new_v4`, a random identifier, written by its
/// `Display` impl in the hyphenated form of 36 characters.
#[verifier::external_body]
pub(crate) fn new_session_id() -> (r: String)
    ensures
        r@.len() == 36,
{
    uuid::Uuid::new_v4().to_string()
}

} // verus!
