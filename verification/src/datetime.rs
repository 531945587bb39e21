use vstd::prelude::*;
use crate::decimal::{all_digits, append_unsigned, dec_value, fixed_digits, is_digit, lemma_fixed_digits, lemma_fixed_of_value, lemma_padded_is_fixed, padded_digits, pow10};

verus! {

/// A calendar date and wall-clock time.
#[derive(Clone, Copy, Debug, PartialEq, Eq, Structural)]
pub struct Datetime {
    pub year: u16,
    pub month: u8,
    pub day: u8,
    pub hour: u8,
    pub minute: u8,
    pub second: u8,
}

/// The running clock: the current date and time, the uptime second it was last
/// advanced to, and whether it has changed since it was last saved.
pub struct Clock {
    pub current: Datetime,
    pub last_uptime_second: u64,
    pub save_pending: bool,
}

/// Whether `year` is a leap year of the Gregorian calendar.
pub open spec fn spec_is_leap_year(year: int) -> bool {
    (year % 4 == 0 && year % 100 != 0) || year % 400 == 0
}

/// Number of days in `month` (1..=12) of `year`; 0 for a month out of range.
pub open spec fn spec_days_in_month(year: int, month: int) -> int {
    if month < 1 || month > 12 {
        0
    } else if month == 2 {
        if spec_is_leap_year(year) {
            29
        } else {
            28
        }
    } else if month == 4 || month == 6 || month == 9 || month == 11 {
        30
    } else {
        31
    }
}

/// Every field lies in its range.
pub open spec fn valid_datetime(dt: Datetime) -> bool {
    &&& 1 <= dt.month <= 12
    &&& 1 <= dt.day <= spec_days_in_month(dt.year as int, dt.month as int)
    &&& dt.hour < 24
    &&& dt.minute < 60
    &&& dt.second < 60
}

/// The moment is not the very last second that a `u16` year can hold.
pub open spec fn can_step(dt: Datetime) -> bool {
    !(dt.year == u16::MAX && dt.month == 12 && dt.day == 31 && dt.hour == 23 && dt.minute == 59
        && dt.second == 59)
}

/// The moment one second after `dt` (for a valid `dt`).
pub open spec fn next_second(dt: Datetime) -> Datetime {
    if dt.second + 1 < 60 {
        Datetime { second: (dt.second + 1) as u8, ..dt }
    } else if dt.minute + 1 < 60 {
        Datetime { second: 0, minute: (dt.minute + 1) as u8, ..dt }
    } else if dt.hour + 1 < 24 {
        Datetime { second: 0, minute: 0, hour: (dt.hour + 1) as u8, ..dt }
    } else if dt.day + 1 <= spec_days_in_month(dt.year as int, dt.month as int) {
        Datetime { second: 0, minute: 0, hour: 0, day: (dt.day + 1) as u8, ..dt }
    } else if dt.month + 1 <= 12 {
        Datetime { second: 0, minute: 0, hour: 0, day: 1, month: (dt.month + 1) as u8, ..dt }
    } else {
        Datetime {
            second: 0,
            minute: 0,
            hour: 0,
            day: 1,
            month: 1,
            year: (dt.year + 1) as u16,
        }
    }
}

/// The moment `n` seconds after `dt`.
pub open spec fn advance_n(dt: Datetime, n: nat) -> Datetime
    decreases n,
{
    if n == 0 {
        dt
    } else {
        advance_n(next_second(dt), (n - 1) as nat)
    }
}

/// Each of the next `n` steps stays within the range of a `u16` year.
pub open spec fn steps_ok(dt: Datetime, n: nat) -> bool
    decreases n,
{
    n == 0 || (can_step(dt) && steps_ok(next_second(dt), (n - 1) as nat))
}

/// `YYYY-MM-DD HH:MM:SS` followed by a NUL byte.
pub open spec fn spec_format(dt: Datetime) -> Seq<u8> {
    padded_digits(dt.year as nat, 4) + seq![45u8] + padded_digits(dt.month as nat, 2) + seq![45u8]
        + padded_digits(dt.day as nat, 2) + seq![32u8] + padded_digits(dt.hour as nat, 2) + seq![
        58u8,
    ] + padded_digits(dt.minute as nat, 2) + seq![58u8] + padded_digits(dt.second as nat, 2)
        + seq![0u8]
}

/// The `count` digits of `text` starting at `start`, read as a number.
pub open spec fn spec_parse_number(text: Seq<u8>, start: int, count: int) -> Option<nat> {
    let s = text.subrange(start, start + count);
    if 0 <= start && start + count <= text.len() && all_digits(s) {
        Some(dec_value(s))
    } else {
        None
    }
}

/// `YYYY-MM-DD` (when `date_only`) or `YYYY-MM-DD HH:MM:SS` with every field in range
/// and a year from 1980 to 9999; the time of a date alone is midnight.
pub open spec fn spec_parse(text: Seq<u8>, date_only: bool) -> Option<Datetime> {
    let expected: int = if date_only {
        10
    } else {
        19
    };
    if text.len() != expected || text[4] != 45 || text[7] != 45 {
        None
    } else if !date_only && (text[10] != 32 || text[13] != 58 || text[16] != 58) {
        None
    } else {
        let y = spec_parse_number(text, 0, 4);
        let mo = spec_parse_number(text, 5, 2);
        let d = spec_parse_number(text, 8, 2);
        let h = if date_only {
            Some(0nat)
        } else {
            spec_parse_number(text, 11, 2)
        };
        let mi = if date_only {
            Some(0nat)
        } else {
            spec_parse_number(text, 14, 2)
        };
        let s = if date_only {
            Some(0nat)
        } else {
            spec_parse_number(text, 17, 2)
        };
        if y is None || mo is None || d is None || h is None || mi is None || s is None {
            None
        } else {
            let (y, mo, d, h, mi, s) = (
                y.unwrap(),
                mo.unwrap(),
                d.unwrap(),
                h.unwrap(),
                mi.unwrap(),
                s.unwrap(),
            );
            if y < 1980 || y > 9999 || mo < 1 || mo > 12 || d < 1 || d > spec_days_in_month(
                y as int,
                mo as int,
            ) || h > 23 || mi > 59 || s > 59 {
                None
            } else {
                Some(
                    Datetime {
                        year: y as u16,
                        month: mo as u8,
                        day: d as u8,
                        hour: h as u8,
                        minute: mi as u8,
                        second: s as u8,
                    },
                )
            }
        }
    }
}

pub fn is_leap_year(year: u16) -> (r: bool)
    ensures
        r == spec_is_leap_year(year as int),
{
    (year % 4 == 0 && year % 100 != 0) || year % 400 == 0
}

pub fn days_in_month(year: u16, month: u8) -> (r: u8)
    ensures
        r as int == spec_days_in_month(year as int, month as int),
{
    if month < 1 || month > 12 {
        return 0;
    }
    if month == 2 && is_leap_year(year) {
        return 29;
    }
    let days: [u8; 12] = [31, 28, 31, 30, 31, 30, 31, 31, 30, 31, 30, 31];
    days[(month - 1) as usize]
}

/// Moves `dt` one second forward, carrying into minutes, hours, days, months and years.
pub fn advance_one_second(dt: &mut Datetime)
    requires
        valid_datetime(*old(dt)),
        can_step(*old(dt)),
    ensures
        *final(dt) == next_second(*old(dt)),
{
    dt.second = dt.second + 1;
    if dt.second < 60 {
        return ;
    }
    dt.second = 0;
    dt.minute = dt.minute + 1;
    if dt.minute < 60 {
        return ;
    }
    dt.minute = 0;
    dt.hour = dt.hour + 1;
    if dt.hour < 24 {
        return ;
    }
    dt.hour = 0;
    dt.day = dt.day + 1;
    if dt.day <= days_in_month(dt.year, dt.month) {
        return ;
    }
    dt.day = 1;
    dt.month = dt.month + 1;
    if dt.month <= 12 {
        return ;
    }
    dt.month = 1;
    dt.year = dt.year + 1;
}

/// The text of `dt` as `YYYY-MM-DD HH:MM:SS`, NUL-terminated (20 bytes).
pub fn format(dt: &Datetime) -> (out: Vec<u8>)
    requires
        dt.year <= 9999,
        dt.month < 100,
        dt.day < 100,
        dt.hour < 100,
        dt.minute < 100,
        dt.second < 100,
    ensures
        out@ == spec_format(*dt),
        out@.len() == 20,
{
    let mut out: Vec<u8> = Vec::new();
    append_unsigned(&mut out, dt.year as u32, 4);
    out.push(45u8);
    append_unsigned(&mut out, dt.month as u32, 2);
    out.push(45u8);
    append_unsigned(&mut out, dt.day as u32, 2);
    out.push(32u8);
    append_unsigned(&mut out, dt.hour as u32, 2);
    out.push(58u8);
    append_unsigned(&mut out, dt.minute as u32, 2);
    out.push(58u8);
    append_unsigned(&mut out, dt.second as u32, 2);
    out.push(0u8);
    proof {
        lemma_format_fixed(*dt);
        assert(out@ =~= spec_format(*dt));
    }
    out
}

/// With every field in range, the formatted text is made of fixed-width fields.
pub proof fn lemma_format_fixed(dt: Datetime)
    requires
        dt.year <= 9999,
        dt.month < 100,
        dt.day < 100,
        dt.hour < 100,
        dt.minute < 100,
        dt.second < 100,
    ensures
        spec_format(dt) == fixed_digits(dt.year as nat, 4) + seq![45u8] + fixed_digits(
            dt.month as nat,
            2,
        ) + seq![45u8] + fixed_digits(dt.day as nat, 2) + seq![32u8] + fixed_digits(
            dt.hour as nat,
            2,
        ) + seq![58u8] + fixed_digits(dt.minute as nat, 2) + seq![58u8] + fixed_digits(
            dt.second as nat,
            2,
        ) + seq![0u8],
        spec_format(dt).len() == 20,
{
    assert(pow10(2) == 100 && pow10(4) == 10000) by {
        reveal_with_fuel(pow10, 5);
    }
    lemma_padded_is_fixed(dt.year as nat, 4);
    lemma_padded_is_fixed(dt.month as nat, 2);
    lemma_padded_is_fixed(dt.day as nat, 2);
    lemma_padded_is_fixed(dt.hour as nat, 2);
    lemma_padded_is_fixed(dt.minute as nat, 2);
    lemma_padded_is_fixed(dt.second as nat, 2);
    lemma_fixed_digits(dt.year as nat, 4);
    lemma_fixed_digits(dt.month as nat, 2);
    lemma_fixed_digits(dt.day as nat, 2);
    lemma_fixed_digits(dt.hour as nat, 2);
    lemma_fixed_digits(dt.minute as nat, 2);
    lemma_fixed_digits(dt.second as nat, 2);
}

/// Reads `count` decimal digits of `text` starting at `start`.
pub fn parse_number(text: &[u8], start: usize, count: usize) -> (r: Option<u32>)
    requires
        count <= 4,
        start + count <= usize::MAX,
    ensures
        match spec_parse_number(text@, start as int, count as int) {
            Some(v) => r == Some(v as u32) && v < pow10(count as nat),
            None => r is None,
        },
{
    let mut value: u32 = 0;
    let mut i: usize = 0;
    if start > text.len() || count > text.len() - start {
        proof {
            assert(!(start + count <= text@.len()));
        }
        return None;
    }
    while i < count
        invariant
            i <= count <= 4,
            start + count <= text.len(),
            all_digits(text@.subrange(start as int, start + i)),
            value == dec_value(text@.subrange(start as int, start + i)),
            value < pow10(i as nat),
        decreases count - i,
    {
        let ch = text[start + i];
        let ghost prev = text@.subrange(start as int, start + i);
        let ghost next = text@.subrange(start as int, start + i + 1);
        assert(next.drop_last() =~= prev);
        if !(ch >= 48 && ch <= 57) {
            proof {
                let whole = text@.subrange(start as int, start + count);
                assert(whole[i as int] == ch);
            }
            return None;
        }
        proof {
            assert(pow10(i as nat) <= 1000) by {
                reveal_with_fuel(pow10, 5);
            }
            assert(pow10((i + 1) as nat) == 10 * pow10(i as nat));
        }
        value = value * 10 + (ch - 48) as u32;
        i = i + 1;
        proof {
            assert(all_digits(next)) by {
                assert forall|j: int| 0 <= j < next.len() implies is_digit(#[trigger] next[j]) by {
                    if j < prev.len() {
                        assert(next[j] == prev[j]);
                    }
                }
            }
        }
    }
    Some(value)
}

/// Reads `YYYY-MM-DD` (when `date_only`) or `YYYY-MM-DD HH:MM:SS`.
pub fn parse(text: &[u8], date_only: bool) -> (r: Option<Datetime>)
    ensures
        r == spec_parse(text@, date_only),
{
    let expected: usize = if date_only {
        10
    } else {
        19
    };
    if text.len() != expected || text[4] != 45 || text[7] != 45 {
        return None;
    }
    if !date_only && (text[10] != 32 || text[13] != 58 || text[16] != 58) {
        return None;
    }
    let year = parse_number(text, 0, 4);
    let month = parse_number(text, 5, 2);
    let day = parse_number(text, 8, 2);
    let (hour, minute, second) = if date_only {
        (Some(0u32), Some(0u32), Some(0u32))
    } else {
        (parse_number(text, 11, 2), parse_number(text, 14, 2), parse_number(text, 17, 2))
    };
    proof {
        assert(pow10(2) == 100 && pow10(4) == 10000) by {
            reveal_with_fuel(pow10, 5);
        }
        let sp = spec_parse(text@, date_only);
        if year is None || month is None || day is None || hour is None || minute is None || second is None {
            assert(sp is None);
        }
    }
    match (year, month, day, hour, minute, second) {
        (Some(year), Some(month), Some(day), Some(hour), Some(minute), Some(second)) => {
            if year < 1980 || year > 9999 || month < 1 || month > 12 || day < 1 || day
                > days_in_month(year as u16, month as u8) as u32 || hour > 23 || minute > 59
                || second > 59 {
                return None;
            }
            Some(
                Datetime {
                    year: year as u16,
                    month: month as u8,
                    day: day as u8,
                    hour: hour as u8,
                    minute: minute as u8,
                    second: second as u8,
                },
            )
        },
        _ => None,
    }
}

/// Formatting a valid date and time with a year from 1980 to 9999 and reading the
/// text back gives the same date and time.
pub proof fn lemma_parse_format_roundtrip(dt: Datetime)
    requires
        valid_datetime(dt),
        1980 <= dt.year <= 9999,
    ensures
        spec_parse(spec_format(dt).take(19), false) == Some(dt),
{
    lemma_format_fixed(dt);
    let t = spec_format(dt).take(19);
    assert(pow10(2) == 100 && pow10(4) == 10000) by {
        reveal_with_fuel(pow10, 5);
    }
    lemma_fixed_digits(dt.year as nat, 4);
    lemma_fixed_digits(dt.month as nat, 2);
    lemma_fixed_digits(dt.day as nat, 2);
    lemma_fixed_digits(dt.hour as nat, 2);
    lemma_fixed_digits(dt.minute as nat, 2);
    lemma_fixed_digits(dt.second as nat, 2);
    assert(t.subrange(0, 4) =~= fixed_digits(dt.year as nat, 4));
    assert(t.subrange(5, 7) =~= fixed_digits(dt.month as nat, 2));
    assert(t.subrange(8, 10) =~= fixed_digits(dt.day as nat, 2));
    assert(t.subrange(11, 13) =~= fixed_digits(dt.hour as nat, 2));
    assert(t.subrange(14, 16) =~= fixed_digits(dt.minute as nat, 2));
    assert(t.subrange(17, 19) =~= fixed_digits(dt.second as nat, 2));
}

/// Text that reads as a date and time is the text of that date and time.
pub proof fn lemma_format_parse_roundtrip(text: Seq<u8>)
    requires
        spec_parse(text, false) is Some,
    ensures
        spec_format(spec_parse(text, false).unwrap()).take(19) == text,
{
    let dt = spec_parse(text, false).unwrap();
    lemma_fixed_of_value(text.subrange(0, 4));
    lemma_fixed_of_value(text.subrange(5, 7));
    lemma_fixed_of_value(text.subrange(8, 10));
    lemma_fixed_of_value(text.subrange(11, 13));
    lemma_fixed_of_value(text.subrange(14, 16));
    lemma_fixed_of_value(text.subrange(17, 19));
    lemma_format_fixed(dt);
    assert(spec_format(dt).take(19) =~= text);
}

/// One second later, a valid date and time is still valid.
pub proof fn lemma_next_second_valid(dt: Datetime)
    requires
        valid_datetime(dt),
    ensures
        valid_datetime(next_second(dt)),
{
}

/// Advancing any number of seconds keeps a valid date and time valid.
pub proof fn lemma_advance_valid(dt: Datetime, n: nat)
    requires
        valid_datetime(dt),
    ensures
        valid_datetime(advance_n(dt, n)),
    decreases n,
{
    if n > 0 {
        lemma_advance_valid(next_second(dt), (n - 1) as nat);
    }
}

impl Clock {
    /// The clock as it starts before any saved time is loaded.
    pub fn new() -> (c: Clock)
        ensures
            c.current == (Datetime { year: 2026, month: 8, day: 28, hour: 12, minute: 0, second: 0 }),
            c.last_uptime_second == 0,
            !c.save_pending,
    {
        Clock {
            current: Datetime { year: 2026, month: 8, day: 28, hour: 12, minute: 0, second: 0 },
            last_uptime_second: 0,
            save_pending: false,
        }
    }
}

/// Starts the clock: takes the stored text when it is a full valid date and time,
/// and counts uptime from `now_ms`.
pub fn init(clock: &mut Clock, stored: &[u8], now_ms: u64)
    ensures
        final(clock).current == (if stored@.len() == 19 && spec_parse(stored@, false) is Some {
            spec_parse(stored@, false).unwrap()
        } else {
            old(clock).current
        }),
        final(clock).last_uptime_second == now_ms / 1000,
        final(clock).save_pending == old(clock).save_pending,
{
    if stored.len() == 19 {
        if let Some(loaded) = parse(stored, false) {
            clock.current = loaded;
        }
    }
    clock.last_uptime_second = now_ms / 1000;
}

/// The current date and time.
pub fn get(clock: &Clock) -> (r: Datetime)
    ensures
        r == clock.current,
{
    clock.current
}

/// Sets the date and time, restarts the uptime count at `now_ms` and asks for a save.
pub fn set(clock: &mut Clock, dt: &Datetime, now_ms: u64) -> (r: bool)
    ensures
        r,
        final(clock).current == *dt,
        final(clock).last_uptime_second == now_ms / 1000,
        final(clock).save_pending,
{
    clock.current = *dt;
    clock.last_uptime_second = now_ms / 1000;
    clock.save_pending = true;
    true
}

/// The 19 bytes to store for the current date and time; the save request is taken.
pub fn save(clock: &mut Clock) -> (text: Vec<u8>)
    requires
        old(clock).current.year <= 9999,
        old(clock).current.month < 100,
        old(clock).current.day < 100,
        old(clock).current.hour < 100,
        old(clock).current.minute < 100,
        old(clock).current.second < 100,
    ensures
        text@ == spec_format(old(clock).current).take(19),
        final(clock).current == old(clock).current,
        final(clock).last_uptime_second == old(clock).last_uptime_second,
        !final(clock).save_pending,
{
    let full = format(&clock.current);
    let mut text: Vec<u8> = Vec::new();
    let mut i: usize = 0;
    while i < 19
        invariant
            i <= 19,
            full@.len() == 20,
            text@ == full@.take(i as int),
        decreases 19 - i,
    {
        text.push(full[i]);
        i = i + 1;
        proof {
            assert(text@ =~= full@.take(i as int));
        }
    }
    clock.save_pending = false;
    text
}

/// Whether the clock can be advanced to uptime `now_ms` without the year overflowing.
pub fn can_update(clock: &Clock, now_ms: u64) -> (r: bool)
    requires
        valid_datetime(clock.current),
    ensures
        r == steps_ok(
            clock.current,
            if now_ms / 1000 > clock.last_uptime_second {
                (now_ms / 1000 - clock.last_uptime_second) as nat
            } else {
                0
            },
        ),
{
    let target = now_ms / 1000;
    let mut last = clock.last_uptime_second;
    let mut cur = clock.current;
    let ghost total: nat = if target > last {
        (target - last) as nat
    } else {
        0
    };
    while last < target
        invariant
            valid_datetime(cur),
            target == now_ms / 1000,
            clock.last_uptime_second <= last || target <= clock.last_uptime_second,
            total == (if target > clock.last_uptime_second {
                (target - clock.last_uptime_second) as nat
            } else {
                0
            }),
            last >= target ==> (last == clock.last_uptime_second || last == target),
            steps_ok(clock.current, total) == steps_ok(
                cur,
                if target > last {
                    (target - last) as nat
                } else {
                    0
                },
            ),
        decreases target - last,
    {
        if !(cur.year < 65535 || cur.month != 12 || cur.day != 31 || cur.hour != 23 || cur.minute
            != 59 || cur.second != 59) {
            proof {
                let rest: nat = (target - last) as nat;
                assert(!can_step(cur));
                assert(!steps_ok(cur, rest));
                assert(!steps_ok(clock.current, total));
            }
            return false;
        }
        advance_one_second(&mut cur);
        proof {
            lemma_next_second_valid(cur);
        }
        last = last + 1;
    }
    true
}

/// Advances the clock second by second up to uptime `now_ms`; true when it moved.
pub fn update(clock: &mut Clock, now_ms: u64) -> (changed: bool)
    requires
        valid_datetime(old(clock).current),
        steps_ok(
            old(clock).current,
            if now_ms / 1000 > old(clock).last_uptime_second {
                (now_ms / 1000 - old(clock).last_uptime_second) as nat
            } else {
                0
            },
        ),
    ensures
        ({
            let n: nat = if now_ms / 1000 > old(clock).last_uptime_second {
                (now_ms / 1000 - old(clock).last_uptime_second) as nat
            } else {
                0
            };
            &&& final(clock).current == advance_n(old(clock).current, n)
            &&& changed == (n > 0)
            &&& final(clock).last_uptime_second == if n > 0 {
                now_ms / 1000
            } else {
                old(clock).last_uptime_second
            }
        }),
        final(clock).save_pending == old(clock).save_pending,
{
    let target = now_ms / 1000;
    let mut changed = false;
    let ghost start = clock.current;
    let ghost total: nat = if target > clock.last_uptime_second {
        (target - clock.last_uptime_second) as nat
    } else {
        0
    };
    while clock.last_uptime_second < target
        invariant
            valid_datetime(clock.current),
            clock.save_pending == old(clock).save_pending,
            ({
                let rest: nat = if target > clock.last_uptime_second {
                    (target - clock.last_uptime_second) as nat
                } else {
                    0
                };
                &&& steps_ok(clock.current, rest)
                &&& advance_n(start, total) == advance_n(clock.current, rest)
            }),
            changed == (clock.last_uptime_second != old(clock).last_uptime_second),
            changed ==> clock.last_uptime_second <= target,
            old(clock).last_uptime_second <= clock.last_uptime_second,
            clock.last_uptime_second >= target ==> (clock.last_uptime_second == target || !changed),
            start == old(clock).current,
            total == (if target > old(clock).last_uptime_second {
                (target - old(clock).last_uptime_second) as nat
            } else {
                0
            }),
        decreases target - clock.last_uptime_second,
    {
        advance_one_second(&mut clock.current);
        proof {
            lemma_next_second_valid(clock.current);
        }
        clock.last_uptime_second = clock.last_uptime_second + 1;
        changed = true;
    }
    changed
}

} // verus!
