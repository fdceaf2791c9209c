//! Dates and times: formatting a date by a pattern, the maps that describe
//! a date, and the conversions between calendar dates and Unix timestamps.
//! The calendar arithmetic and the time zone are chrono's; what the
//! natives decide around them is here.

use vstd::prelude::*;
use chrono::{Datelike, Timelike};
use crate::value::{Value, PulseError, PulseResult, text};
use crate::object::Object;
use crate::heap::Heap;
use crate::namemap::{NameMap, seq_keys_distinct, lemma_entry_in_map};
use crate::utils::{ready, grows, new_string};
use crate::collections::map_of;
use crate::vm::heap_string;
use crate::text::{nat_digits, u64_digits, push_char, push_str, chars_of, string_from_chars};
use crate::uuid::{fresh_string, new_text};

verus! {

broadcast use vstd::std_specs::vec::group_vec_axioms;

/// A local date and time as the natives report it: the calendar date, the
/// time of day, the milliseconds into the second and the weekday (0 for
/// Monday through 6 for Sunday).
#[derive(Clone, Copy, Debug, PartialEq, Eq, Structural)]
pub struct DateFields {
    pub year: i32,
    pub month: u32,
    pub day: u32,
    pub hour: u32,
    pub minute: u32,
    pub second: u32,
    pub millis: u32,
    pub weekday: u32,
}

/// The ranges every reported date keeps to (a leap second may push the
/// milliseconds past 999).
pub open spec fn fields_ok(f: DateFields) -> bool {
    &&& 1 <= f.month <= 12
    &&& 1 <= f.day <= 31
    &&& f.hour < 24
    &&& f.minute < 60
    &&& f.second < 60
    &&& f.millis < 2000
    &&& f.weekday < 7
}

/// The decimal digits of `n`, with zeros in front up to `width`.
pub open spec fn padded(n: nat, width: nat) -> Seq<char> {
    let d = nat_digits(n);
    if d.len() < width { Seq::new((width - d.len()) as nat, |i: int| '0') + d } else { d }
}

/// A year as `{:04}` writes it: at least four characters, the sign counted.
pub open spec fn year_text(y: int) -> Seq<char> {
    if y < 0 { seq!['-'] + padded((-y) as nat, 3) } else { padded(y as nat, 4) }
}

pub open spec fn weekday_name(w: u32) -> Seq<char> {
    if w == 0 { "Monday"@ } else if w == 1 { "Tuesday"@ } else if w == 2 { "Wednesday"@ } else if w == 3 { "Thursday"@ }
    else if w == 4 { "Friday"@ } else if w == 5 { "Saturday"@ } else { "Sunday"@ }
}

/// What `%c` stands for in a pattern: `%Y` the year, `%m`, `%d`, `%H`,
/// `%M`, `%S` two-digit month, day, hour, minute and second, `%f` the
/// three-digit milliseconds, `%w` the weekday's name, `%%` a percent
/// sign; any other `%c` stays as written.
pub open spec fn directive(f: DateFields, c: char) -> Seq<char> {
    if c == 'Y' { year_text(f.year as int) }
    else if c == 'm' { padded(f.month as nat, 2) }
    else if c == 'd' { padded(f.day as nat, 2) }
    else if c == 'H' { padded(f.hour as nat, 2) }
    else if c == 'M' { padded(f.minute as nat, 2) }
    else if c == 'S' { padded(f.second as nat, 2) }
    else if c == 'f' { padded(f.millis as nat, 3) }
    else if c == 'w' { weekday_name(f.weekday) }
    else if c == '%' { seq!['%'] }
    else { seq!['%', c] }
}

/// The text a pattern gives for a date: each `%` and the character after
/// it replaced as `directive` says, every other character kept (a `%` at
/// the very end too).
pub open spec fn formatted(f: DateFields, pattern: Seq<char>) -> Seq<char>
    decreases pattern.len(),
{
    if pattern.len() == 0 {
        Seq::empty()
    } else if pattern[0] == '%' && pattern.len() >= 2 {
        directive(f, pattern[1]) + formatted(f, pattern.skip(2))
    } else {
        seq![pattern[0]] + formatted(f, pattern.drop_first())
    }
}

/// The digits of `n` padded with zeros to `width`.
fn pad(n: u64, width: usize) -> (r: Vec<char>)
    ensures
        r@ == padded(n as nat, width as nat),
{
    let d = u64_digits(n);
    if d.len() >= width {
        return d;
    }
    let mut r: Vec<char> = Vec::new();
    let mut i: usize = 0;
    while i < width - d.len()
        invariant
            d.len() < width,
            i <= width - d.len(),
            r@ == Seq::new(i as nat, |k: int| '0'),
        decreases width - d.len() - i,
    {
        r.push('0');
        i = i + 1;
        assert(r@ =~= Seq::new(i as nat, |k: int| '0'));
    }
    let mut k: usize = 0;
    let ghost zeros = r@;
    while k < d.len()
        invariant
            zeros == Seq::new((width - d@.len()) as nat, |k: int| '0'),
            k <= d@.len(),
            r@ == zeros + d@.take(k as int),
        decreases d@.len() - k,
    {
        r.push(d[k]);
        k = k + 1;
        assert(r@ =~= zeros + d@.take(k as int));
    }
    assert(d@.take(k as int) =~= d@);
    r
}

fn push_chars(out: &mut String, cs: &Vec<char>)
    ensures
        final(out)@ == old(out)@ + cs@,
{
    let s = string_from_chars(cs.as_slice());
    push_str(out, s.as_str());
}

/// What a directive character writes.
fn write_directive(out: &mut String, f: &DateFields, c: char)
    ensures
        final(out)@ == old(out)@ + directive(*f, c),
{
    if c == 'Y' {
        if f.year < 0 {
            push_char(out, '-');
            let mag: u64 = (0i64 - f.year as i64) as u64;
            push_chars(out, &pad(mag, 3));
            assert(final(out)@ =~= old(out)@ + year_text(f.year as int));
        } else {
            push_chars(out, &pad(f.year as u64, 4));
        }
    } else if c == 'm' {
        push_chars(out, &pad(f.month as u64, 2));
    } else if c == 'd' {
        push_chars(out, &pad(f.day as u64, 2));
    } else if c == 'H' {
        push_chars(out, &pad(f.hour as u64, 2));
    } else if c == 'M' {
        push_chars(out, &pad(f.minute as u64, 2));
    } else if c == 'S' {
        push_chars(out, &pad(f.second as u64, 2));
    } else if c == 'f' {
        push_chars(out, &pad(f.millis as u64, 3));
    } else if c == 'w' {
        proof {
            reveal_strlit("Monday");
            reveal_strlit("Tuesday");
            reveal_strlit("Wednesday");
            reveal_strlit("Thursday");
            reveal_strlit("Friday");
            reveal_strlit("Saturday");
            reveal_strlit("Sunday");
        }
        let name = if f.weekday == 0 { "Monday" } else if f.weekday == 1 { "Tuesday" } else if f.weekday == 2 { "Wednesday" }
            else if f.weekday == 3 { "Thursday" } else if f.weekday == 4 { "Friday" } else if f.weekday == 5 { "Saturday" } else { "Sunday" };
        push_str(out, name);
    } else if c == '%' {
        push_char(out, '%');
        assert(final(out)@ =~= old(out)@ + directive(*f, c));
    } else {
        push_char(out, '%');
        push_char(out, c);
        assert(final(out)@ =~= old(out)@ + directive(*f, c));
    }
}

/// Writes the date by the pattern (see `formatted`).
pub fn format_fields(f: &DateFields, pattern: &str) -> (r: String)
    ensures
        r@ == formatted(*f, pattern@),
{
    let cs = chars_of(pattern);
    let mut out = String::new();
    let mut i: usize = 0;
    assert(cs@.skip(0) =~= cs@);
    assert(out@ + formatted(*f, cs@.skip(0)) =~= formatted(*f, cs@));
    while i < cs.len()
        invariant
            cs@ == pattern@,
            i <= cs@.len(),
            out@ + formatted(*f, cs@.skip(i as int)) == formatted(*f, cs@),
        decreases cs@.len() - i,
    {
        let ghost rest = cs@.skip(i as int);
        let ghost before = out@;
        if cs[i] == '%' && i + 1 < cs.len() {
            write_directive(&mut out, f, cs[i + 1]);
            assert(rest.skip(2) =~= cs@.skip(i + 2));
            assert(rest[1] == cs@[i + 1]);
            i = i + 2;
        } else {
            push_char(&mut out, cs[i]);
            assert(rest.drop_first() =~= cs@.skip(i + 1));
            i = i + 1;
        }
        assert(out@ + formatted(*f, cs@.skip(i as int)) =~= before + formatted(*f, rest));
    }
    assert(cs@.skip(i as int) =~= Seq::<char>::empty());
    assert(out@ + Seq::<char>::empty() =~= out@);
    out
}

/// chrono's local date at the Unix timestamp `secs`: `DateTime::from_timestamp`
/// read in the machine's current UTC offset (`Local::now().offset()`),
/// `None` where chrono has no date for `secs`. Which date comes back rests
/// on the machine's time zone, so only the ranges of the fields are stated.
#[verifier::external_body]
fn local_fields(secs: i64) -> (r: Option<DateFields>)
    ensures
        r matches Some(f) ==> fields_ok(f),
{
    let utc = chrono::DateTime::from_timestamp(secs, 0)?;
    let t = chrono::DateTime::<chrono::Local>::from_naive_utc_and_offset(utc.naive_utc(), *chrono::Local::now().offset());
    Some(DateFields { year: t.year(), month: t.month(), day: t.day(), hour: t.hour(), minute: t.minute(),
        second: t.second(), millis: t.timestamp_subsec_millis(), weekday: t.weekday().num_days_from_monday() })
}

/// chrono's `Local::now()`: the current local date and time. It rests on
/// the clock and the time zone; only the ranges of the fields are stated.
#[verifier::external_body]
fn local_now() -> (r: DateFields)
    ensures
        fields_ok(r),
{
    let t = chrono::Local::now();
    DateFields { year: t.year(), month: t.month(), day: t.day(), hour: t.hour(), minute: t.minute(),
        second: t.second(), millis: t.timestamp_subsec_millis(), weekday: t.weekday().num_days_from_monday() }
}

/// `format_time(timestamp, pattern)`: a new string writing the local date
/// at the timestamp by the pattern (see `formatted`); a runtime error when
/// chrono has no date for it. A float timestamp needs the host.
pub fn format_time_native(heap: &mut Heap, args: &[Value]) -> (r: PulseResult<Value>)
    requires
        ready(*old(heap)),
    ensures
        ready(*final(heap)),
        args@.len() != 2 ==> crate::value::is_runtime_error(r) && *final(heap) == *old(heap),
        args@.len() == 2 ==> match args@[0] {
            Value::Int(_) => match crate::string_utils::str_arg(*old(heap), args@[1]) {
                Some(p) => (crate::value::is_runtime_error(r) && *final(heap) == *old(heap))
                    || exists|f: DateFields| fields_ok(f) && #[trigger] new_string(*old(heap), *final(heap), r, formatted(f, p)),
                None => crate::value::is_type_mismatch(r) && *final(heap) == *old(heap),
            },
            Value::Float(_) => crate::value::is_float_host(r) && *final(heap) == *old(heap),
            _ => crate::value::is_type_mismatch(r) && *final(heap) == *old(heap),
        },
{
    if args.len() != 2 {
        return Err(PulseError::RuntimeError(text("format_time expects 2 arguments")));
    }
    let secs = match args[0] {
        Value::Int(i) => i,
        Value::Float(_) => {
            return Err(PulseError::NeedsFloatHost);
        },
        _ => {
            return Err(PulseError::TypeMismatch { expected: text("int or float"), got: args[0].kind_name() });
        },
    };
    let pattern = match args[1] {
        Value::Obj(x) => match heap.get(x) {
            Some(Object::String(s)) => s.clone(),
            _ => {
                return Err(PulseError::TypeMismatch { expected: text("string"), got: text("object") });
            },
        },
        _ => {
            return Err(PulseError::TypeMismatch { expected: text("string"), got: args[1].kind_name() });
        },
    };
    let f = match local_fields(secs) {
        Some(f) => f,
        None => {
            return Err(PulseError::RuntimeError(text("Invalid timestamp")));
        },
    };
    let ghost p = crate::string_utils::str_arg(*old(heap), args@[1])->Some_0;
    assert(p == pattern@);
    let out = format_fields(&f, pattern.as_str());
    let x = heap.allocate(Object::String(out));
    let r = Ok(Value::Obj(x));
    assert(new_string(*old(heap), *heap, r, formatted(f, p)));
    r
}

/// The keys of a date map, each once.
proof fn lemma_date_keys(es: Seq<(String, Value)>)
    requires
        es.len() >= 6,
        es[0].0@ == "year"@,
        es[1].0@ == "month"@,
        es[2].0@ == "day"@,
        es[3].0@ == "hour"@,
        es[4].0@ == "minute"@,
        es[5].0@ == "second"@,
        es.len() == 7 ==> es[6].0@ == "timestamp"@,
        es.len() == 8 ==> es[6].0@ == "millisecond"@ && es[7].0@ == "weekday"@,
        es.len() <= 8,
    ensures
        seq_keys_distinct(es),
{
    reveal_strlit("year");
    reveal_strlit("month");
    reveal_strlit("day");
    reveal_strlit("hour");
    reveal_strlit("minute");
    reveal_strlit("second");
    reveal_strlit("timestamp");
    reveal_strlit("millisecond");
    reveal_strlit("weekday");
    assert forall|i: int, j: int| 0 <= i < es.len() && 0 <= j < es.len() && i != j
        implies (#[trigger] es[i]).0@ != (#[trigger] es[j]).0@ by {
        if es[i].0@.len() == es[j].0@.len() {
            assert(es[i].0@[0] != es[j].0@[0]);
        }
    }
}

/// The map `now` gives for a date: its year, month, day, hour, minute,
/// second and millisecond as integers, in that order, then its weekday's
/// name in a new string.
pub open spec fn date_map(h0: Heap, h1: Heap, r: PulseResult<Value>, f: DateFields) -> bool {
    &&& grows(h0, h1)
    &&& r matches Ok(Value::Obj(x))
    &&& !h0.live().dom().contains(x.0 as int)
    &&& map_of(h1, Value::Obj(x)) matches Some(m) && {
        let es = m.entries@;
        &&& es.len() == 8
        &&& es[0].0@ == "year"@ && es[0].1 == Value::Int(f.year as i64)
        &&& es[1].0@ == "month"@ && es[1].1 == Value::Int(f.month as i64)
        &&& es[2].0@ == "day"@ && es[2].1 == Value::Int(f.day as i64)
        &&& es[3].0@ == "hour"@ && es[3].1 == Value::Int(f.hour as i64)
        &&& es[4].0@ == "minute"@ && es[4].1 == Value::Int(f.minute as i64)
        &&& es[5].0@ == "second"@ && es[5].1 == Value::Int(f.second as i64)
        &&& es[6].0@ == "millisecond"@ && es[6].1 == Value::Int(f.millis as i64)
        &&& es[7].0@ == "weekday"@ && fresh_string(h0, h1, es[7].1, weekday_name(f.weekday))
    }
}

/// The map describing a date (see `date_map`).
pub fn now_map(heap: &mut Heap, f: DateFields) -> (r: PulseResult<Value>)
    requires
        ready(*old(heap)),
    ensures
        ready(*final(heap)),
        date_map(*old(heap), *final(heap), r, f),
{
    proof {
        reveal_strlit("Monday");
        reveal_strlit("Tuesday");
        reveal_strlit("Wednesday");
        reveal_strlit("Thursday");
        reveal_strlit("Friday");
        reveal_strlit("Saturday");
        reveal_strlit("Sunday");
    }
    let name = if f.weekday == 0 { "Monday" } else if f.weekday == 1 { "Tuesday" } else if f.weekday == 2 { "Wednesday" }
        else if f.weekday == 3 { "Thursday" } else if f.weekday == 4 { "Friday" } else if f.weekday == 5 { "Saturday" } else { "Sunday" };
    let ghost h0 = *heap;
    let w = new_text(heap, text(name));
    let ghost h1 = *heap;
    let es = vec![
        (text("year"), Value::Int(f.year as i64)),
        (text("month"), Value::Int(f.month as i64)),
        (text("day"), Value::Int(f.day as i64)),
        (text("hour"), Value::Int(f.hour as i64)),
        (text("minute"), Value::Int(f.minute as i64)),
        (text("second"), Value::Int(f.second as i64)),
        (text("millisecond"), Value::Int(f.millis as i64)),
        (text("weekday"), w),
    ];
    proof {
        lemma_date_keys(es@);
    }
    let m = NameMap { entries: es };
    let x = heap.allocate(Object::Dict(m));
    proof {
        vstd::map_lib::lemma_submap_of_trans(h0.live(), h1.live(), heap.live());
        if h0.live().dom().contains(x.0 as int) {
            assert(h1.live().dom().contains(x.0 as int));
        }
        assert(h1.live().dom().contains(w->Obj_0.0 as int));
        assert(heap.live().dom().contains(w->Obj_0.0 as int));
        assert(heap.live()[w->Obj_0.0 as int] == h1.live()[w->Obj_0.0 as int]);
    }
    Ok(Value::Obj(x))
}

/// `now()`: the map describing the current local date (see `date_map`).
pub fn now_native(heap: &mut Heap, args: &[Value]) -> (r: PulseResult<Value>)
    requires
        ready(*old(heap)),
    ensures
        ready(*final(heap)),
        args@.len() != 0 ==> crate::value::is_runtime_error(r) && *final(heap) == *old(heap),
        args@.len() == 0 ==> exists|f: DateFields| fields_ok(f) && #[trigger] date_map(*old(heap), *final(heap), r, f),
{
    if args.len() != 0 {
        return Err(PulseError::RuntimeError(text("now expects 0 arguments")));
    }
    let f = local_now();
    let r = now_map(heap, f);
    assert(date_map(*old(heap), *heap, r, f));
    r
}

/// The entries `unix_to_datetime` gives for a date and the timestamp.
pub open spec fn unix_entries(f: DateFields, stamp: Value) -> Seq<(Seq<char>, Value)> {
    seq![
        ("year"@, Value::Int(f.year as i64)), ("month"@, Value::Int(f.month as i64)),
        ("day"@, Value::Int(f.day as i64)), ("hour"@, Value::Int(f.hour as i64)),
        ("minute"@, Value::Int(f.minute as i64)), ("second"@, Value::Int(f.second as i64)),
        ("timestamp"@, stamp)]
}

/// `unix_to_datetime(timestamp)` once the host has read the timestamp as
/// whole seconds `secs` and as the language value `stamp`: a new map of
/// the local date's year, month, day, hour, minute and second, then the
/// timestamp; a runtime error when chrono has no date for it.
pub fn unix_to_datetime_at(heap: &mut Heap, secs: i64, stamp: Value) -> (r: PulseResult<Value>)
    requires
        ready(*old(heap)),
    ensures
        ready(*final(heap)),
        (crate::value::is_runtime_error(r) && *final(heap) == *old(heap))
            || exists|f: DateFields| #[trigger] fields_ok(f)
                && crate::process::new_map(*old(heap), *final(heap), r, unix_entries(f, stamp)),
{
    let f = match local_fields(secs) {
        Some(f) => f,
        None => {
            return Err(PulseError::RuntimeError(text("Invalid timestamp")));
        },
    };
    let es = vec![
        (text("year"), Value::Int(f.year as i64)),
        (text("month"), Value::Int(f.month as i64)),
        (text("day"), Value::Int(f.day as i64)),
        (text("hour"), Value::Int(f.hour as i64)),
        (text("minute"), Value::Int(f.minute as i64)),
        (text("second"), Value::Int(f.second as i64)),
        (text("timestamp"), stamp),
    ];
    proof {
        lemma_date_keys(es@);
    }
    let ghost want = es@.map_values(|e: (String, Value)| (e.0@, e.1));
    let m = NameMap { entries: es };
    let x = heap.allocate(Object::Dict(m));
    let r = Ok(Value::Obj(x));
    assert(want =~= unix_entries(f, stamp));
    assert(crate::process::new_map(*old(heap), *heap, r, want));
    r
}

/// A calendar date and time of day.
#[derive(Clone, Copy, Debug, PartialEq, Eq, Structural)]
pub struct Civil {
    pub year: i32,
    pub month: u32,
    pub day: u32,
    pub hour: u32,
    pub minute: u32,
    pub second: u32,
}

/// A leap year of the proleptic Gregorian calendar.
pub open spec fn is_leap(y: int) -> bool {
    y % 4 == 0 && (y % 100 != 0 || y % 400 == 0)
}

pub open spec fn days_in_month(y: int, m: int) -> int {
    if m == 2 {
        if is_leap(y) { 29 } else { 28 }
    } else if m == 4 || m == 6 || m == 9 || m == 11 {
        30
    } else {
        31
    }
}

/// The years chrono's dates cover.
pub open spec fn year_ok(y: int) -> bool {
    -262143 <= y <= 262142
}

/// A date and time chrono can hold.
pub open spec fn civil_ok(c: Civil) -> bool {
    &&& year_ok(c.year as int)
    &&& 1 <= c.month <= 12
    &&& 1 <= c.day <= days_in_month(c.year as int, c.month as int)
    &&& c.hour < 24
    &&& c.minute < 60
    &&& c.second < 60
}

/// The UTC date and time chrono gives for a Unix timestamp
/// (`DateTime::from_timestamp(secs, 0)`), if it has one.
pub uninterp spec fn utc_civil(secs: i64) -> Option<Civil>;

/// The Unix timestamp chrono gives for a UTC date and time
/// (`NaiveDateTime::and_utc().timestamp()`).
pub uninterp spec fn unix_seconds(c: Civil) -> i64;

/// chrono's `DateTime::from_timestamp(secs, 0)` read as a UTC calendar
/// date: the date named by `utc_civil`, a valid one.
#[verifier::external_body]
fn civil_at(secs: i64) -> (r: Option<Civil>)
    ensures
        r == utc_civil(secs),
        r matches Some(c) ==> civil_ok(c),
{
    let t = chrono::DateTime::from_timestamp(secs, 0)?.naive_utc();
    Some(Civil { year: t.year(), month: t.month(), day: t.day(), hour: t.hour(), minute: t.minute(), second: t.second() })
}

/// chrono's `NaiveDateTime::and_utc().timestamp()` on a valid date: the
/// timestamp named by `unix_seconds`.
#[verifier::external_body]
fn seconds_of(c: Civil) -> (r: i64)
    requires
        civil_ok(c),
    ensures
        r == unix_seconds(c),
{
    let d = chrono::NaiveDate::from_ymd_opt(c.year, c.month, c.day).unwrap();
    d.and_hms_opt(c.hour, c.minute, c.second).unwrap().and_utc().timestamp()
}

/// What `with_year(y)` makes of a date: the same month, day and time in
/// year `y`, when that year is in chrono's range and has the day.
pub open spec fn year_set(c: Civil, y: i32) -> Option<Civil> {
    if year_ok(y as int) && c.day <= days_in_month(y as int, c.month as int) {
        Some(Civil { year: y, month: c.month, day: c.day, hour: c.hour, minute: c.minute, second: c.second })
    } else {
        None
    }
}

/// What `with_month(m)` makes of a date, when the month exists and has the day.
pub open spec fn month_set(c: Civil, m: u32) -> Option<Civil> {
    if 1 <= m <= 12 && c.day <= days_in_month(c.year as int, m as int) {
        Some(Civil { year: c.year, month: m, day: c.day, hour: c.hour, minute: c.minute, second: c.second })
    } else {
        None
    }
}

/// What `with_day(d)` makes of a date, when the month has that day.
pub open spec fn day_set(c: Civil, d: u32) -> Option<Civil> {
    if 1 <= d <= days_in_month(c.year as int, c.month as int) {
        Some(Civil { year: c.year, month: c.month, day: d, hour: c.hour, minute: c.minute, second: c.second })
    } else {
        None
    }
}

/// What `with_hour(h)` makes of a date, for an hour below 24.
pub open spec fn hour_set(c: Civil, h: u32) -> Option<Civil> {
    if h < 24 {
        Some(Civil { year: c.year, month: c.month, day: c.day, hour: h, minute: c.minute, second: c.second })
    } else {
        None
    }
}

/// What `with_minute(m)` makes of a date, for a minute below 60.
pub open spec fn minute_set(c: Civil, m: u32) -> Option<Civil> {
    if m < 60 {
        Some(Civil { year: c.year, month: c.month, day: c.day, hour: c.hour, minute: m, second: c.second })
    } else {
        None
    }
}

/// chrono's `NaiveDateTime::with_year`: see `year_set`.
#[verifier::external_body]
fn with_year(c: Civil, y: i32) -> (r: Option<Civil>)
    requires
        civil_ok(c),
    ensures
        r == year_set(c, y),
{
    let t = chrono::NaiveDate::from_ymd_opt(c.year, c.month, c.day)?.and_hms_opt(c.hour, c.minute, c.second)?.with_year(y)?;
    Some(Civil { year: t.year(), month: t.month(), day: t.day(), hour: t.hour(), minute: t.minute(), second: t.second() })
}

/// chrono's `NaiveDateTime::with_month`: see `month_set`.
#[verifier::external_body]
fn with_month(c: Civil, m: u32) -> (r: Option<Civil>)
    requires
        civil_ok(c),
    ensures
        r == month_set(c, m),
{
    let t = chrono::NaiveDate::from_ymd_opt(c.year, c.month, c.day)?.and_hms_opt(c.hour, c.minute, c.second)?.with_month(m)?;
    Some(Civil { year: t.year(), month: t.month(), day: t.day(), hour: t.hour(), minute: t.minute(), second: t.second() })
}

/// chrono's `NaiveDateTime::with_day`: see `day_set`.
#[verifier::external_body]
fn with_day(c: Civil, d: u32) -> (r: Option<Civil>)
    requires
        civil_ok(c),
    ensures
        r == day_set(c, d),
{
    let t = chrono::NaiveDate::from_ymd_opt(c.year, c.month, c.day)?.and_hms_opt(c.hour, c.minute, c.second)?.with_day(d)?;
    Some(Civil { year: t.year(), month: t.month(), day: t.day(), hour: t.hour(), minute: t.minute(), second: t.second() })
}

/// chrono's `NaiveDateTime::with_hour`: see `hour_set`.
#[verifier::external_body]
fn with_hour(c: Civil, h: u32) -> (r: Option<Civil>)
    requires
        civil_ok(c),
    ensures
        r == hour_set(c, h),
{
    let t = chrono::NaiveDate::from_ymd_opt(c.year, c.month, c.day)?.and_hms_opt(c.hour, c.minute, c.second)?.with_hour(h)?;
    Some(Civil { year: t.year(), month: t.month(), day: t.day(), hour: t.hour(), minute: t.minute(), second: t.second() })
}

/// chrono's `NaiveDateTime::with_minute`: see `minute_set`.
#[verifier::external_body]
fn with_minute(c: Civil, m: u32) -> (r: Option<Civil>)
    requires
        civil_ok(c),
    ensures
        r == minute_set(c, m),
{
    let t = chrono::NaiveDate::from_ymd_opt(c.year, c.month, c.day)?.and_hms_opt(c.hour, c.minute, c.second)?.with_minute(m)?;
    Some(Civil { year: t.year(), month: t.month(), day: t.day(), hour: t.hour(), minute: t.minute(), second: t.second() })
}

/// The timestamp `datetime_to_unix` computes from the fields it read: the
/// date at the timestamp `second` (taken as a `u32`), then its year, month,
/// day, hour and minute replaced in turn; `None` where chrono refuses a step.
pub open spec fn unix_of_fields(y: i64, mo: i64, d: i64, h: i64, mi: i64, s: i64) -> Option<i64> {
    match utc_civil((s as u32) as i64) {
        Some(c0) => match year_set(c0, y as i32) {
            Some(c1) => match month_set(c1, mo as u32) {
                Some(c2) => match day_set(c2, d as u32) {
                    Some(c3) => match hour_set(c3, h as u32) {
                        Some(c4) => match minute_set(c4, mi as u32) {
                            Some(c5) => Some(unix_seconds(c5)),
                            None => None,
                        },
                        None => None,
                    },
                    None => None,
                },
                None => None,
            },
            None => None,
        },
        None => None,
    }
}

/// The steps of `datetime_to_unix` after the start date `c0`: its year,
/// month, day, hour and minute replaced in turn; a runtime error at the
/// first step chrono refuses.
pub fn adjust_civil(c0: Civil, y: i32, mo: u32, d: u32, h: u32, mi: u32) -> (r: PulseResult<Civil>)
    requires
        civil_ok(c0),
    ensures
        match year_set(c0, y) {
            Some(c1) => match month_set(c1, mo) {
                Some(c2) => match day_set(c2, d) {
                    Some(c3) => match hour_set(c3, h) {
                        Some(c4) => match minute_set(c4, mi) {
                            Some(c5) => r == Ok::<Civil, PulseError>(c5) && civil_ok(c5),
                            None => crate::value::is_runtime_error(r),
                        },
                        None => crate::value::is_runtime_error(r),
                    },
                    None => crate::value::is_runtime_error(r),
                },
                None => crate::value::is_runtime_error(r),
            },
            None => crate::value::is_runtime_error(r),
        },
{
    let c1 = match with_year(c0, y) {
        Some(c) => c,
        None => {
            return Err(PulseError::RuntimeError(text("Invalid year")));
        },
    };
    let c2 = match with_month(c1, mo) {
        Some(c) => c,
        None => {
            return Err(PulseError::RuntimeError(text("Invalid month")));
        },
    };
    let c3 = match with_day(c2, d) {
        Some(c) => c,
        None => {
            return Err(PulseError::RuntimeError(text("Invalid day")));
        },
    };
    let c4 = match with_hour(c3, h) {
        Some(c) => c,
        None => {
            return Err(PulseError::RuntimeError(text("Invalid hour")));
        },
    };
    match with_minute(c4, mi) {
        Some(c) => Ok(c),
        None => Err(PulseError::RuntimeError(text("Invalid minute"))),
    }
}

/// How a date map's field reads: `Some(Some(i))` for an integer,
/// `Some(None)` for a float (the host truncates it), `None` when it is
/// missing or of another kind.
pub open spec fn date_field(m: NameMap<Value>, k: Seq<char>) -> Option<Option<i64>> {
    if m@.dom().contains(k) {
        match m@[k] {
            Value::Int(i) => Some(Some(i)),
            Value::Float(_) => Some(None),
            _ => None,
        }
    } else {
        None
    }
}

/// The fields read in turn: their integers, or at the first that fails
/// `Err(true)` when it is a float and `Err(false)` otherwise.
pub open spec fn read_fields(m: NameMap<Value>, keys: Seq<Seq<char>>) -> Result<Seq<i64>, bool>
    decreases keys.len(),
{
    if keys.len() == 0 {
        Ok(Seq::empty())
    } else {
        match date_field(m, keys[0]) {
            Some(Some(i)) => match read_fields(m, keys.drop_first()) {
                Ok(rest) => Ok(seq![i] + rest),
                Err(e) => Err(e),
            },
            Some(None) => Err(true),
            None => Err(false),
        }
    }
}

pub open spec fn date_keys() -> Seq<Seq<char>> {
    seq!["year"@, "month"@, "day"@, "hour"@, "minute"@, "second"@]
}

/// One field of a date map.
fn read_field(m: &NameMap<Value>, k: &str) -> (r: PulseResult<i64>)
    requires
        m.wf(),
    ensures
        match date_field(*m, k@) {
            Some(Some(i)) => r == Ok::<i64, PulseError>(i),
            Some(None) => crate::value::is_float_host(r),
            None => crate::value::is_runtime_error(r),
        },
{
    match m.get(k) {
        Some(Value::Int(i)) => Ok(*i),
        Some(Value::Float(_)) => Err(PulseError::NeedsFloatHost),
        Some(_) => Err(PulseError::RuntimeError(text("Invalid date field"))),
        None => Err(PulseError::RuntimeError(text("Missing date field"))),
    }
}

/// `datetime_to_unix(map)` up to the number: the Unix timestamp of the
/// date the map's fields give (see `unix_of_fields`), which the host
/// presents as a float. A missing field or one of another kind, or a step
/// chrono refuses, is a runtime error; a float field needs the host.
pub fn datetime_to_unix_seconds(heap: &Heap, args: &[Value]) -> (r: PulseResult<i64>)
    requires
        heap.wf(),
    ensures
        args@.len() != 1 ==> crate::value::is_runtime_error(r),
        args@.len() == 1 ==> match map_of(*heap, args@[0]) {
            Some(m) => match read_fields(m, date_keys()) {
                Ok(v) => match unix_of_fields(v[0], v[1], v[2], v[3], v[4], v[5]) {
                    Some(t) => r == Ok::<i64, PulseError>(t),
                    None => crate::value::is_runtime_error(r),
                },
                Err(true) => crate::value::is_float_host(r),
                Err(false) => crate::value::is_runtime_error(r),
            },
            None => crate::value::is_type_mismatch(r),
        },
{
    if args.len() != 1 {
        return Err(PulseError::RuntimeError(text("datetime_to_unix expects 1 argument")));
    }
    proof {
        heap.lemma_wf();
        reveal_with_fuel(read_fields, 7);
    }
    let m = match args[0] {
        Value::Obj(x) => match heap.get(x) {
            Some(Object::Dict(m)) => m,
            _ => {
                return Err(PulseError::TypeMismatch { expected: text("map"), got: text("object") });
            },
        },
        _ => {
            return Err(PulseError::TypeMismatch { expected: text("map"), got: args[0].kind_name() });
        },
    };
    proof {
        let ks = date_keys();
        assert(ks.drop_first() =~= seq!["month"@, "day"@, "hour"@, "minute"@, "second"@]);
        assert(ks.drop_first().drop_first() =~= seq!["day"@, "hour"@, "minute"@, "second"@]);
        assert(ks.drop_first().drop_first().drop_first() =~= seq!["hour"@, "minute"@, "second"@]);
        assert(ks.drop_first().drop_first().drop_first().drop_first() =~= seq!["minute"@, "second"@]);
        assert(ks.drop_first().drop_first().drop_first().drop_first().drop_first() =~= seq!["second"@]);
        assert(ks.drop_first().drop_first().drop_first().drop_first().drop_first().drop_first() =~= Seq::<Seq<char>>::empty());
    }
    let y = read_field(m, "year")?;
    let mo = read_field(m, "month")?;
    let d = read_field(m, "day")?;
    let h = read_field(m, "hour")?;
    let mi = read_field(m, "minute")?;
    let s = read_field(m, "second")?;
    proof {
        let v = read_fields(*m, date_keys())->Ok_0;
        assert(v =~= seq![y, mo, d, h, mi, s]);
    }
    #[verifier::truncate]
    let s32 = s as u32;
    let c0 = match civil_at(s32 as i64) {
        Some(c) => c,
        None => {
            return Err(PulseError::RuntimeError(text("Invalid datetime")));
        },
    };
    #[verifier::truncate]
    let y32 = y as i32;
    #[verifier::truncate]
    let mo32 = mo as u32;
    #[verifier::truncate]
    let d32 = d as u32;
    #[verifier::truncate]
    let h32 = h as u32;
    #[verifier::truncate]
    let mi32 = mi as u32;
    let c5 = match adjust_civil(c0, y32, mo32, d32, h32, mi32) {
        Ok(c) => c,
        Err(e) => {
            return Err(e);
        },
    };
    Ok(seconds_of(c5))
}

/// The date and time chrono reads from `s` by the pattern
/// "%Y-%m-%d %H:%M:%S" (`NaiveDateTime::parse_from_str`), if any.
pub uninterp spec fn parsed_datetime(s: Seq<char>) -> Option<Civil>;

/// The date chrono reads from `s` by the pattern "%Y-%m-%d"
/// (`NaiveDate::parse_from_str`), if any: year, month and day.
pub uninterp spec fn parsed_date(s: Seq<char>) -> Option<(i32, u32, u32)>;

/// The time of day chrono reads from `s` by the pattern "%H:%M:%S"
/// (`NaiveTime::parse_from_str`), if any: hour, minute and second.
pub uninterp spec fn parsed_clock(s: Seq<char>) -> Option<(u32, u32, u32)>;

/// A valid date at midnight.
pub open spec fn midnight(d: (i32, u32, u32)) -> Civil {
    Civil { year: d.0, month: d.1, day: d.2, hour: 0, minute: 0, second: 0 }
}

/// chrono's `NaiveDateTime::parse_from_str(s, "%Y-%m-%d %H:%M:%S")`: the
/// date named by `parsed_datetime`, a valid one.
#[verifier::external_body]
fn parse_datetime(s: &str) -> (r: Option<Civil>)
    ensures
        r == parsed_datetime(s@),
        r matches Some(c) ==> civil_ok(c),
{
    let t = chrono::NaiveDateTime::parse_from_str(s, "%Y-%m-%d %H:%M:%S").ok()?;
    Some(Civil { year: t.year(), month: t.month(), day: t.day(), hour: t.hour(), minute: t.minute(), second: t.second() })
}

/// chrono's `NaiveDate::parse_from_str(s, "%Y-%m-%d")`: the date named by
/// `parsed_date`, a valid one.
#[verifier::external_body]
fn parse_date(s: &str) -> (r: Option<(i32, u32, u32)>)
    ensures
        r == parsed_date(s@),
        r matches Some(d) ==> civil_ok(midnight(d)),
{
    let d = chrono::NaiveDate::parse_from_str(s, "%Y-%m-%d").ok()?;
    Some((d.year(), d.month(), d.day()))
}

/// chrono's `NaiveTime::parse_from_str(s, "%H:%M:%S")`: the time named by
/// `parsed_clock`, within the day.
#[verifier::external_body]
fn parse_clock(s: &str) -> (r: Option<(u32, u32, u32)>)
    ensures
        r == parsed_clock(s@),
        r matches Some(t) ==> t.0 < 24 && t.1 < 60 && t.2 < 60,
{
    let t = chrono::NaiveTime::parse_from_str(s, "%H:%M:%S").ok()?;
    Some((t.hour(), t.minute(), t.second()))
}

/// chrono's `Local::now().date_naive()`: today's local date. It rests on the
/// clock and the time zone; only its validity is stated.
#[verifier::external_body]
fn local_today() -> (r: (i32, u32, u32))
    ensures
        civil_ok(midnight(r)),
{
    let d = chrono::Local::now().date_naive();
    (d.year(), d.month(), d.day())
}

/// `parse_time(text, pattern)` up to the number: the Unix timestamp, read
/// as UTC, of what `text` holds by one of the patterns "%Y-%m-%d %H:%M:%S",
/// "%Y-%m-%d" (at midnight) or "%H:%M:%S" (today); the host presents it as
/// a float. Another pattern, or a text that does not match, is a runtime
/// error; an argument that is no string a type mismatch.
pub fn parse_time_seconds(heap: &Heap, args: &[Value]) -> (r: PulseResult<i64>)
    requires
        heap.wf(),
    ensures
        args@.len() != 2 ==> crate::value::is_runtime_error(r),
        args@.len() == 2 ==> match (crate::string_utils::str_arg(*heap, args@[0]), crate::string_utils::str_arg(*heap, args@[1])) {
            (Some(t), Some(p)) => if p == "%Y-%m-%d %H:%M:%S"@ {
                match parsed_datetime(t) {
                    Some(c) => r == Ok::<i64, PulseError>(unix_seconds(c)),
                    None => crate::value::is_runtime_error(r),
                }
            } else if p == "%Y-%m-%d"@ {
                match parsed_date(t) {
                    Some(d) => r == Ok::<i64, PulseError>(unix_seconds(midnight(d))),
                    None => crate::value::is_runtime_error(r),
                }
            } else if p == "%H:%M:%S"@ {
                match parsed_clock(t) {
                    Some(k) => exists|d: (i32, u32, u32)| #[trigger] civil_ok(midnight(d)) && r == Ok::<i64, PulseError>(
                        unix_seconds(Civil { year: d.0, month: d.1, day: d.2, hour: k.0, minute: k.1, second: k.2 })),
                    None => crate::value::is_runtime_error(r),
                }
            } else {
                crate::value::is_runtime_error(r)
            },
            (None, _) => crate::value::is_type_mismatch(r),
            (Some(_), None) => crate::value::is_type_mismatch(r),
        },
{
    if args.len() != 2 {
        return Err(PulseError::RuntimeError(text("parse_time expects 2 arguments")));
    }
    let t = match args[0] {
        Value::Obj(x) => match heap.get(x) {
            Some(Object::String(s)) => s.clone(),
            _ => {
                return Err(PulseError::TypeMismatch { expected: text("string"), got: text("object") });
            },
        },
        _ => {
            return Err(PulseError::TypeMismatch { expected: text("string"), got: args[0].kind_name() });
        },
    };
    let p = match args[1] {
        Value::Obj(x) => match heap.get(x) {
            Some(Object::String(s)) => s.clone(),
            _ => {
                return Err(PulseError::TypeMismatch { expected: text("string"), got: text("object") });
            },
        },
        _ => {
            return Err(PulseError::TypeMismatch { expected: text("string"), got: args[1].kind_name() });
        },
    };
    if crate::namemap::str_equal(p.as_str(), "%Y-%m-%d %H:%M:%S") {
        match parse_datetime(t.as_str()) {
            Some(c) => Ok(seconds_of(c)),
            None => Err(PulseError::RuntimeError(text("Failed to parse time"))),
        }
    } else if crate::namemap::str_equal(p.as_str(), "%Y-%m-%d") {
        match parse_date(t.as_str()) {
            Some(d) => Ok(seconds_of(Civil { year: d.0, month: d.1, day: d.2, hour: 0, minute: 0, second: 0 })),
            None => Err(PulseError::RuntimeError(text("Failed to parse date"))),
        }
    } else if crate::namemap::str_equal(p.as_str(), "%H:%M:%S") {
        match parse_clock(t.as_str()) {
            Some(k) => {
                let d = local_today();
                let c = Civil { year: d.0, month: d.1, day: d.2, hour: k.0, minute: k.1, second: k.2 };
                let r = Ok(seconds_of(c));
                assert(civil_ok(midnight(d)));
                r
            },
            None => Err(PulseError::RuntimeError(text("Failed to parse time"))),
        }
    } else {
        Err(PulseError::RuntimeError(text("Unsupported format")))
    }
}


/// The weekday names, counted from Monday: 0 is Monday, 1 Tuesday, 2
/// Wednesday, 3 Thursday, 4 Friday, 5 Saturday and 6 Sunday, no two alike;
/// `%w` writes the name of the date's weekday.
pub proof fn law_weekday_names(f: DateFields)
    ensures
        weekday_name(0) == "Monday"@,
        weekday_name(1) == "Tuesday"@,
        weekday_name(2) == "Wednesday"@,
        weekday_name(3) == "Thursday"@,
        weekday_name(4) == "Friday"@,
        weekday_name(5) == "Saturday"@,
        weekday_name(6) == "Sunday"@,
        forall|a: u32, b: u32| a < 7 && b < 7 && a != b ==> weekday_name(a) != weekday_name(b),
        directive(f, 'w') == weekday_name(f.weekday),
{
    reveal_strlit("Monday");
    reveal_strlit("Tuesday");
    reveal_strlit("Wednesday");
    reveal_strlit("Thursday");
    reveal_strlit("Friday");
    reveal_strlit("Saturday");
    reveal_strlit("Sunday");
    assert forall|a: u32, b: u32| a < 7 && b < 7 && a != b implies weekday_name(a) != weekday_name(b) by {
        let x = weekday_name(a);
        let y = weekday_name(b);
        if x == y {
            assert(x.len() == y.len());
            assert(x[0] == y[0]);
            assert(x[1] == y[1]);
        }
    }
}

/// Zeros in front do not change the value of a digit string.
proof fn lemma_leading_zeros(k: nat, d: Seq<char>)
    ensures
        crate::utils::digits_value(Seq::new(k, |i: int| '0') + d) == crate::utils::digits_value(d),
    decreases d.len() + k,
{
    let z = Seq::new(k, |i: int| '0');
    if d.len() == 0 {
        assert(z + d =~= z);
        if k > 0 {
            lemma_leading_zeros((k - 1) as nat, d);
            assert(z.drop_last() =~= Seq::new((k - 1) as nat, |i: int| '0') + d);
            assert(z.last() == '0');
        }
    } else {
        lemma_leading_zeros(k, d.drop_last());
        assert((z + d).drop_last() =~= z + d.drop_last());
        assert((z + d).last() == d.last());
    }
}

/// A number written padded to a width reads back as the number, in all
/// digits, at least that wide.
pub proof fn law_padded_reads_back(n: nat, width: nat)
    ensures
        crate::utils::digits_value(padded(n, width)) == n,
        crate::utils::all_digits(padded(n, width)),
        padded(n, width).len() >= width,
        n < 10 && width == 2 ==> padded(n, width).len() == 2,
{
    crate::json::lemma_digits_read_back(n);
    let d = nat_digits(n);
    if d.len() < width {
        let k = (width - d.len()) as nat;
        lemma_leading_zeros(k, d);
        let p = Seq::new(k, |i: int| '0') + d;
        assert forall|i: int| 0 <= i < p.len() implies '0' <= #[trigger] p[i] <= '9' by {
            if i >= k {
                assert(p[i] == d[i - k]);
            }
        }
    }
}

/// What the numeric directives write: `%m` the month, `%d` the day, `%H`
/// the hour, `%M` the minute and `%S` the second in two digits, and `%f`
/// the milliseconds in three, each reading back as that field.
pub proof fn law_numeric_directives(f: DateFields)
    requires
        fields_ok(f),
        f.millis < 1000,
    ensures
        crate::utils::digits_value(directive(f, 'm')) == f.month && directive(f, 'm').len() == 2,
        crate::utils::digits_value(directive(f, 'd')) == f.day && directive(f, 'd').len() == 2,
        crate::utils::digits_value(directive(f, 'H')) == f.hour && directive(f, 'H').len() == 2,
        crate::utils::digits_value(directive(f, 'M')) == f.minute && directive(f, 'M').len() == 2,
        crate::utils::digits_value(directive(f, 'S')) == f.second && directive(f, 'S').len() == 2,
        crate::utils::digits_value(directive(f, 'f')) == f.millis && directive(f, 'f').len() == 3,
        directive(f, '%') == seq!['%'],
{
    law_padded_reads_back(f.month as nat, 2);
    law_padded_reads_back(f.day as nat, 2);
    law_padded_reads_back(f.hour as nat, 2);
    law_padded_reads_back(f.minute as nat, 2);
    law_padded_reads_back(f.second as nat, 2);
    law_padded_reads_back(f.millis as nat, 3);
    lemma_digit_count(f.month as nat, 2);
    lemma_digit_count(f.day as nat, 2);
    lemma_digit_count(f.hour as nat, 2);
    lemma_digit_count(f.minute as nat, 2);
    lemma_digit_count(f.second as nat, 2);
    lemma_digit_count(f.millis as nat, 3);
}

/// A number below `10^w` has at most `w` digits (here for `w` of 2 or 3).
proof fn lemma_digit_count(n: nat, w: nat)
    requires
        w == 2 || w == 3,
        w == 2 ==> n < 100,
        w == 3 ==> n < 1000,
    ensures
        nat_digits(n).len() <= w,
{
    if n >= 10 {
        let m = n / 10;
        assert(nat_digits(n).len() == nat_digits(m).len() + 1);
        if m >= 10 {
            assert(m / 10 < 10);
            assert(nat_digits(m).len() == nat_digits(m / 10).len() + 1);
            assert(nat_digits(m / 10).len() == 1);
        } else {
            assert(nat_digits(m).len() == 1);
        }
    }
}

/// The Gregorian calendar the dates keep to: every month has 28 to 31
/// days, the months of a year add up to 365 days, or 366 in a leap year,
/// and February has 29 days exactly in years divisible by 400, or by 4 but
/// not by 100.
pub proof fn law_calendar(y: int)
    ensures
        forall|m: int| 1 <= m <= 12 ==> 28 <= #[trigger] days_in_month(y, m) <= 31,
        days_in_month(y, 1) + days_in_month(y, 2) + days_in_month(y, 3) + days_in_month(y, 4)
            + days_in_month(y, 5) + days_in_month(y, 6) + days_in_month(y, 7) + days_in_month(y, 8)
            + days_in_month(y, 9) + days_in_month(y, 10) + days_in_month(y, 11) + days_in_month(y, 12)
            == if is_leap(y) { 366int } else { 365int },
        (days_in_month(y, 2) == 29) <==> (y % 400 == 0 || (y % 4 == 0 && y % 100 != 0)),
{
    if y % 400 == 0 {
        assert(y % 4 == 0) by (nonlinear_arith)
            requires y % 400 == 0;
    }
}
} // verus!
