//! Statistics as lines of JSON.

use vstd::prelude::*;
use vstd::string::StringExecFns;

use crate::endpoint::stats;
use crate::endpoint::stats::{EndpointState, EndpointStats};
use crate::text;
use crate::text::decimal;

verus! {

// ---------------------------------------------------------------- time

/// Whether the year has a 29 February.
pub open spec fn is_leap(year: nat) -> bool {
    year % 4 == 0 && (year % 100 != 0 || year % 400 == 0)
}

/// The days of a year.
pub open spec fn year_days(year: nat) -> nat {
    if is_leap(year) {
        366
    } else {
        365
    }
}

/// The days of a month; months count from 1.
pub open spec fn month_days(year: nat, month: nat) -> nat {
    if month == 2 {
        if is_leap(year) {
            29
        } else {
            28
        }
    } else if month == 4 || month == 6 || month == 9 || month == 11 {
        30
    } else {
        31
    }
}

/// The days from the beginning of 1970 to the beginning of a year.
pub open spec fn days_to_year(year: nat) -> nat
    decreases year,
{
    if year <= 1970 {
        0
    } else {
        days_to_year((year - 1) as nat) + year_days((year - 1) as nat)
    }
}

/// The days from the beginning of a year to the beginning of a month.
pub open spec fn days_to_month(year: nat, month: nat) -> nat
    decreases month,
{
    if month <= 1 {
        0
    } else {
        days_to_month(year, (month - 1) as nat) + month_days(year, (month - 1) as nat)
    }
}

/// A point in time, in UTC.
#[derive(Debug, Clone, Copy, PartialEq, Eq, Structural)]
pub struct UtcTime {
    pub year: u64,
    pub month: u64,
    pub day: u64,
    pub hour: u64,
    pub minute: u64,
    pub second: u64,
}

impl UtcTime {
    /// The fields are those of a calendar and a clock.
    pub open spec fn wf(self) -> bool {
        &&& self.year >= 1970
        &&& 1 <= self.month <= 12
        &&& 1 <= self.day <= month_days(self.year as nat, self.month as nat)
        &&& self.hour < 24
        &&& self.minute < 60
        &&& self.second < 60
    }

    /// The seconds since the beginning of 1970.
    pub open spec fn seconds(self) -> int {
        let days = days_to_year(self.year as nat) + days_to_month(
            self.year as nat,
            self.month as nat,
        ) + self.day - 1;
        days * 86400 + self.hour * 3600 + self.minute * 60 + self.second
    }
}

/// Whether the year has a 29 February.
fn leap(year: u64) -> (r: bool)
    ensures
        r == is_leap(year as nat),
{
    year % 4 == 0 && (year % 100 != 0 || year % 400 == 0)
}

/// The days of a month.
fn days_in_month(year: u64, month: u64) -> (r: u64)
    ensures
        r == month_days(year as nat, month as nat),
{
    if month == 2 {
        if leap(year) {
            29
        } else {
            28
        }
    } else if month == 4 || month == 6 || month == 9 || month == 11 {
        30
    } else {
        31
    }
}

/// The months of a year add up to its days.
proof fn lemma_months_fill_year(year: nat)
    ensures
        days_to_month(year, 13) == year_days(year),
{
    reveal_with_fuel(days_to_month, 13);
}

/// The point in time so many seconds after the beginning of 1970.
pub fn utc_of(secs: u64) -> (r: UtcTime)
    ensures
        r.wf(),
        r.seconds() == secs,
{
    let mut days: u64 = secs / 86400;
    let rest: u64 = secs % 86400;
    let ghost total = days;
    let mut year: u64 = 1970;
    let mut length: u64 = 365;
    while days >= length
        invariant
            year >= 1970,
            year - 1970 + days <= total,
            total <= u64::MAX / 86400,
            length == year_days(year as nat),
            days_to_year(year as nat) + days == total,
        decreases days,
    {
        days = days - length;
        year = year + 1;
        length = if leap(year) {
            366
        } else {
            365
        };
    }
    let ghost in_year = days;
    let mut month: u64 = 1;
    let mut length: u64 = 31;
    proof {
        lemma_months_fill_year(year as nat);
    }
    while days >= length
        invariant
            1 <= month <= 12,
            length == month_days(year as nat, month as nat),
            days_to_month(year as nat, month as nat) + days == in_year,
            in_year < year_days(year as nat),
            days_to_month(year as nat, 13) == year_days(year as nat),
        decreases days,
    {
        days = days - length;
        month = month + 1;
        length = days_in_month(year, month);
    }
    UtcTime {
        year,
        month,
        day: days + 1,
        hour: rest / 3600,
        minute: rest % 3600 / 60,
        second: rest % 60,
    }
}

/// A number in two digits at least.
pub open spec fn two_digits(n: nat) -> Seq<char> {
    if n < 10 {
        "0"@ + text::decimal_spec(n)
    } else {
        text::decimal_spec(n)
    }
}

/// Write a number in two digits at least.
fn pad(n: u64) -> (r: String)
    ensures
        r@ == two_digits(n as nat),
{
    if n < 10 {
        String::from_str("0").concat(decimal(n).as_str())
    } else {
        decimal(n)
    }
}

/// A point in time in the form of RFC 3339.
pub open spec fn time_text(t: UtcTime) -> Seq<char> {
    text::decimal_spec(t.year as nat) + "-"@ + two_digits(t.month as nat) + "-"@ + two_digits(
        t.day as nat,
    ) + "T"@ + two_digits(t.hour as nat) + ":"@ + two_digits(t.minute as nat) + ":"@ + two_digits(
        t.second as nat,
    ) + "Z"@
}

impl UtcTime {
    /// The point in time in the form of RFC 3339.
    pub fn to_text(&self) -> (r: String)
        ensures
            r@ == time_text(*self),
    {
        decimal(self.year).concat("-").concat(pad(self.month).as_str()).concat("-").concat(
            pad(self.day).as_str(),
        ).concat("T").concat(pad(self.hour).as_str()).concat(":").concat(
            pad(self.minute).as_str(),
        ).concat(":").concat(pad(self.second).as_str()).concat("Z")
    }
}

// ---------------------------------------------------------------- lines

/// The name of a health.
pub open spec fn state_text(state: EndpointState) -> Seq<char> {
    match state {
        EndpointState::Reconnecting => "reconnecting"@,
        EndpointState::Connected => "connected"@,
        EndpointState::Idle => "idle"@,
        EndpointState::Down => "down"@,
        EndpointState::Unknown => "unknown"@,
    }
}

impl EndpointState {
    /// The name of the health.
    pub fn as_str(self) -> (r: &'static str)
        ensures
            r@ == state_text(self),
    {
        match self {
            EndpointState::Reconnecting => "reconnecting",
            EndpointState::Connected => "connected",
            EndpointState::Idle => "idle",
            EndpointState::Down => "down",
            EndpointState::Unknown => "unknown",
        }
    }
}

/// What every line begins with.
pub open spec fn head_text(t: UtcTime, name: Seq<char>, state: EndpointState) -> Seq<char> {
    "{\"ts\":\""@ + time_text(t) + "\",\"endpoint\":\""@ + name + "\",\"state\":\""@ + state_text(
        state,
    ) + "\""@
}

/// What every line begins with.
fn head(t: &UtcTime, name: &str, state: EndpointState) -> (r: String)
    ensures
        r@ == head_text(*t, name@, state),
{
    String::from_str("{\"ts\":\"").concat(t.to_text().as_str()).concat(
        "\",\"endpoint\":\"",
    ).concat(name).concat("\",\"state\":\"").concat(state.as_str()).concat("\"")
}

/// A counter in a line.
pub open spec fn counter_text(name: Seq<char>, value: u64) -> Seq<char> {
    ",\""@ + name + "\":"@ + text::decimal_spec(value as nat)
}

/// Append a counter to a line.
fn with_counter(line: String, name: &str, value: u64) -> (r: String)
    ensures
        r@ == line@ + counter_text(name@, value),
{
    let r = line.concat(",\"").concat(name).concat("\":").concat(decimal(value).as_str());
    assert(r@ =~= line@ + counter_text(name@, value));
    r
}

/// The line of a listener. Its peers have lines of their own.
pub open spec fn listener_line_spec(t: UtcTime, name: Seq<char>, s: EndpointStats) -> Seq<char> {
    head_text(t, name, stats::state_of(s.state)) + "}"@
}

/// The line of a listener.
pub fn listener_line(t: &UtcTime, name: &str, s: &EndpointStats) -> (r: String)
    ensures
        r@ == listener_line_spec(*t, name@, *s),
{
    head(t, name, s.load_state()).concat("}")
}

/// The line of an endpoint that frames go to and come from.
pub open spec fn connection_line_spec(t: UtcTime, name: Seq<char>, s: EndpointStats) -> Seq<char> {
    head_text(t, name, stats::state_of(s.state))
        + counter_text("rx_frames"@, s.rx_frames)
        + counter_text("tx_frames"@, s.tx_frames)
        + counter_text("rx_bytes"@, s.rx_bytes)
        + counter_text("tx_bytes"@, s.tx_bytes)
        + counter_text("dropped_tx"@, s.dropped_tx)
        + counter_text("crc_errors"@, s.crc_errors)
        + counter_text("resync_bytes"@, s.resync_bytes)
        + counter_text("rx_lost_est"@, s.rx_lost_est)
        + counter_text("in_filter_drops"@, s.in_filter_drops)
        + counter_text("out_filter_drops"@, s.out_filter_drops)
        + counter_text("dedup_drops"@, s.dedup_drops)
        + counter_text("learn_entries"@, s.learn_entries)
        + "}"@
}

/// The line of an endpoint that frames go to and come from.
pub fn connection_line(t: &UtcTime, name: &str, s: &EndpointStats) -> (r: String)
    ensures
        r@ == connection_line_spec(*t, name@, *s),
{
    let line = head(t, name, s.load_state());
    let line = with_counter(line, "rx_frames", s.rx_frames);
    let line = with_counter(line, "tx_frames", s.tx_frames);
    let line = with_counter(line, "rx_bytes", s.rx_bytes);
    let line = with_counter(line, "tx_bytes", s.tx_bytes);
    let line = with_counter(line, "dropped_tx", s.dropped_tx);
    let line = with_counter(line, "crc_errors", s.crc_errors);
    let line = with_counter(line, "resync_bytes", s.resync_bytes);
    let line = with_counter(line, "rx_lost_est", s.rx_lost_est);
    let line = with_counter(line, "in_filter_drops", s.in_filter_drops);
    let line = with_counter(line, "out_filter_drops", s.out_filter_drops);
    let line = with_counter(line, "dedup_drops", s.dedup_drops);
    let line = with_counter(line, "learn_entries", s.learn_entries);
    line.concat("}")
}

/// The days from the beginning of 1970 to that of a later year: 365 for each year between
/// them, one more for every fourth, less one for every hundredth, and one more for every four
/// hundredth.
pub proof fn law_days_between_years(year: nat)
    requires
        year >= 1970,
    ensures
        days_to_year(year) == 365 * (year - 1970) + (year - 1969) / 4 - (year - 1901) / 100 + (year
            - 1601) / 400,
    decreases year,
{
    if year > 1970 {
        law_days_between_years((year - 1) as nat);
    }
}

/// The days from the beginning of a year to that of each of its months.
pub proof fn law_days_between_months(year: nat, month: nat)
    requires
        1 <= month <= 12,
    ensures
        ({
            let ends = seq![0int, 31, 59, 90, 120, 151, 181, 212, 243, 273, 304, 334];
            let leap_day = if month > 2 && (year % 400 == 0 || (year % 4 == 0 && year % 100 != 0)) {
                1int
            } else {
                0
            };
            days_to_month(year, month) == ends[month - 1] + leap_day
        }),
{
    reveal_with_fuel(days_to_month, 13);
}

/// The seconds are those of the minutes, of 60 seconds each, the hours, of 3600, and the days
/// since the beginning of 1970, of 86400.
pub proof fn law_seconds_are_counted(t: UtcTime)
    ensures
        t.seconds() == t.second + 60 * t.minute + 3600 * t.hour + 86400 * (t.day - 1 + days_to_month(
            t.year as nat,
            t.month as nat,
        ) + days_to_year(t.year as nat)),
{
}

/// A number below 100 in two digits.
proof fn lemma_two_digits(n: nat)
    requires
        n < 100,
    ensures
        two_digits(n) == seq![text::digit_char(n / 10), text::digit_char(n % 10)],
{
    reveal_strlit("0");
    reveal_with_fuel(text::decimal_spec, 3);
    assert(two_digits(n) =~= seq![text::digit_char(n / 10), text::digit_char(n % 10)]);
}

/// Where the parts of a point in time stand in its text, for the years of four digits: the
/// year, the month, the day, the hour, the minute and the second, with the marks of RFC 3339
/// between them.
pub proof fn law_time_has_its_places(t: UtcTime)
    requires
        t.wf(),
        t.year <= 9999,
    ensures
        ({
            let d = |n: u64| (48 + n) as char;
            time_text(t) == seq![
                d(t.year / 1000),
                d(t.year / 100 % 10),
                d(t.year / 10 % 10),
                d(t.year % 10),
                '-',
                d(t.month / 10),
                d(t.month % 10),
                '-',
                d(t.day / 10),
                d(t.day % 10),
                'T',
                d(t.hour / 10),
                d(t.hour % 10),
                ':',
                d(t.minute / 10),
                d(t.minute % 10),
                ':',
                d(t.second / 10),
                d(t.second % 10),
                'Z',
            ]
        }),
{
    reveal_strlit("-");
    reveal_strlit("T");
    reveal_strlit(":");
    reveal_strlit("Z");
    lemma_two_digits(t.month as nat);
    lemma_two_digits(t.day as nat);
    lemma_two_digits(t.hour as nat);
    lemma_two_digits(t.minute as nat);
    lemma_two_digits(t.second as nat);
    let y = t.year as nat;
    reveal_with_fuel(text::decimal_spec, 5);
    assert(text::decimal_spec(y) =~= seq![
        text::digit_char(y / 1000),
        text::digit_char(y / 100 % 10),
        text::digit_char(y / 10 % 10),
        text::digit_char(y % 10),
    ]);
}

/// A line holds a counter: its name in quotes, a colon and its value, with a comma before
/// them and a comma or the closing brace behind.
pub open spec fn line_holds(line: Seq<char>, key: Seq<char>, value: u64) -> bool {
    let entry = seq![',', '"'] + key + seq!['"', ':'] + text::decimal_spec(value as nat);
    exists|i: int|
        0 <= i && i + entry.len() < line.len() && #[trigger] line.skip(i).take(entry.len() as int)
            == entry && (line[i + entry.len()] == ',' || line[i + entry.len()] == '}')
}

/// Every counter of an endpoint stands in its line under its own name.
pub proof fn law_line_holds_every_counter(t: UtcTime, name: Seq<char>, s: EndpointStats)
    ensures
        ({
            let line = connection_line_spec(t, name, s);
            &&& line_holds(line, "rx_frames"@, s.rx_frames)
            &&& line_holds(line, "tx_frames"@, s.tx_frames)
            &&& line_holds(line, "rx_bytes"@, s.rx_bytes)
            &&& line_holds(line, "tx_bytes"@, s.tx_bytes)
            &&& line_holds(line, "dropped_tx"@, s.dropped_tx)
            &&& line_holds(line, "crc_errors"@, s.crc_errors)
            &&& line_holds(line, "resync_bytes"@, s.resync_bytes)
            &&& line_holds(line, "rx_lost_est"@, s.rx_lost_est)
            &&& line_holds(line, "in_filter_drops"@, s.in_filter_drops)
            &&& line_holds(line, "out_filter_drops"@, s.out_filter_drops)
            &&& line_holds(line, "dedup_drops"@, s.dedup_drops)
            &&& line_holds(line, "learn_entries"@, s.learn_entries)
        }),
{
    let h0 = head_text(t, name, stats::state_of(s.state));
    let h1 = h0 + counter_text("rx_frames"@, s.rx_frames);
    let h2 = h1 + counter_text("tx_frames"@, s.tx_frames);
    let h3 = h2 + counter_text("rx_bytes"@, s.rx_bytes);
    let h4 = h3 + counter_text("tx_bytes"@, s.tx_bytes);
    let h5 = h4 + counter_text("dropped_tx"@, s.dropped_tx);
    let h6 = h5 + counter_text("crc_errors"@, s.crc_errors);
    let h7 = h6 + counter_text("resync_bytes"@, s.resync_bytes);
    let h8 = h7 + counter_text("rx_lost_est"@, s.rx_lost_est);
    let h9 = h8 + counter_text("in_filter_drops"@, s.in_filter_drops);
    let h10 = h9 + counter_text("out_filter_drops"@, s.out_filter_drops);
    let h11 = h10 + counter_text("dedup_drops"@, s.dedup_drops);
    let line = h11 + counter_text("learn_entries"@, s.learn_entries) + "}"@;
    reveal_strlit("}");
    lemma_counter_stands(h11, "learn_entries"@, s.learn_entries, "}"@, line);
    let r11 = counter_text("learn_entries"@, s.learn_entries) + "}"@;
    lemma_counter_stands(h10, "dedup_drops"@, s.dedup_drops, r11, line);
    let r10 = counter_text("dedup_drops"@, s.dedup_drops) + r11;
    lemma_counter_stands(h9, "out_filter_drops"@, s.out_filter_drops, r10, line);
    let r9 = counter_text("out_filter_drops"@, s.out_filter_drops) + r10;
    lemma_counter_stands(h8, "in_filter_drops"@, s.in_filter_drops, r9, line);
    let r8 = counter_text("in_filter_drops"@, s.in_filter_drops) + r9;
    lemma_counter_stands(h7, "rx_lost_est"@, s.rx_lost_est, r8, line);
    let r7 = counter_text("rx_lost_est"@, s.rx_lost_est) + r8;
    lemma_counter_stands(h6, "resync_bytes"@, s.resync_bytes, r7, line);
    let r6 = counter_text("resync_bytes"@, s.resync_bytes) + r7;
    lemma_counter_stands(h5, "crc_errors"@, s.crc_errors, r6, line);
    let r5 = counter_text("crc_errors"@, s.crc_errors) + r6;
    lemma_counter_stands(h4, "dropped_tx"@, s.dropped_tx, r5, line);
    let r4 = counter_text("dropped_tx"@, s.dropped_tx) + r5;
    lemma_counter_stands(h3, "tx_bytes"@, s.tx_bytes, r4, line);
    let r3 = counter_text("tx_bytes"@, s.tx_bytes) + r4;
    lemma_counter_stands(h2, "rx_bytes"@, s.rx_bytes, r3, line);
    let r2 = counter_text("rx_bytes"@, s.rx_bytes) + r3;
    lemma_counter_stands(h1, "tx_frames"@, s.tx_frames, r2, line);
    let r1 = counter_text("tx_frames"@, s.tx_frames) + r2;
    lemma_counter_stands(h0, "rx_frames"@, s.rx_frames, r1, line);
}

/// One counter of a line, with what stands before it and behind it; and where the rest of the
/// line begins.
proof fn lemma_counter_stands(
    a: Seq<char>,
    key: Seq<char>,
    value: u64,
    b: Seq<char>,
    line: Seq<char>,
)
    requires
        line == a + counter_text(key, value) + b,
        b.len() > 0,
        b[0] == ',' || b[0] == '}',
    ensures
        line_holds(line, key, value),
        line == a + (counter_text(key, value) + b),
        (counter_text(key, value) + b).len() > 0,
        (counter_text(key, value) + b)[0] == ',',
{
    reveal_strlit(",\"");
    reveal_strlit("\":");
    let entry = seq![',', '"'] + key + seq!['"', ':'] + text::decimal_spec(value as nat);
    assert(counter_text(key, value) =~= entry);
    assert(line =~= a + (counter_text(key, value) + b));
    assert(line.skip(a.len() as int).take(entry.len() as int) =~= entry);
    assert(line[(a.len() + entry.len()) as int] == b[0]);
}

/// How a line begins: with the time, the name of the endpoint and the name of its health; the
/// line of a listener ends there.
pub proof fn law_line_tells_whose_it_is(t: UtcTime, name: Seq<char>, s: EndpointStats)
    ensures
        ({
            let state = match stats::state_of(s.state) {
                EndpointState::Reconnecting => "reconnecting"@,
                EndpointState::Connected => "connected"@,
                EndpointState::Idle => "idle"@,
                EndpointState::Down => "down"@,
                EndpointState::Unknown => "unknown"@,
            };
            let begin = "{\"ts\":\""@ + time_text(t) + "\",\"endpoint\":\""@ + name
                + "\",\"state\":\""@ + state + "\""@;
            let n = begin.len() as int;
            &&& listener_line_spec(t, name, s) == begin + seq!['}']
            &&& connection_line_spec(t, name, s).len() > n
            &&& connection_line_spec(t, name, s).take(n) == begin
            &&& connection_line_spec(t, name, s).last() == '}'
        }),
{
    reveal_strlit("}");
    let head = head_text(t, name, stats::state_of(s.state));
    assert(connection_line_spec(t, name, s).take(head.len() as int) =~= head);
    assert("}"@ =~= seq!['}']);
}

} // verus!
