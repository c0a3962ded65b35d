//! When blocking applies: the daily window, which may run past midnight,
//! and the weekdays chosen by bitmask.
use crate::config::Config;
use crate::text::{digits_value, is_digit, lemma_prefix_value};
use vstd::prelude::*;
use vstd::slice::slice_subrange;
use vstd::string::StringSliceAdditionalSpecFns;

verus! {

/// `now` lies in the window from `start` to `end`: the interval
/// `[start, end)` where `start <= end`, and otherwise all of the day but
/// `[end, start)`.
pub open spec fn in_time_window(start: u32, end: u32, now: u32) -> bool {
    if start <= end {
        start <= now && now < end
    } else {
        !(end <= now && now < start)
    }
}

/// The position of a weekday in the bitmask, Monday first, from the
/// numbering that starts the week on Sunday (0).
pub open spec fn day_index(weekday: u32) -> u32 {
    ((weekday + 6) % 7) as u32
}

/// Bit `index` of `days` is set.
pub open spec fn day_is_active(days: u8, index: u32) -> bool {
    days & (1u8 << index) != 0
}

/// Whether `now`, in minutes since midnight, is inside the configured
/// blocking window. A window whose start is after its end runs past
/// midnight. The start is inside, the end outside.
pub fn within_active_time_window(config: &Config, now: u32) -> (r: bool)
    ensures
        r == in_time_window(config.block_time_start, config.block_time_end, now),
{
    let start = config.block_time_start;
    let end = config.block_time_end;
    // Inside a window that runs past midnight is outside the gap between
    // its end and its start, so one range check serves both cases.
    let is_normal_check = start <= end;
    let early = if is_normal_check {
        start
    } else {
        end
    };
    let late = if is_normal_check {
        end
    } else {
        start
    };
    let outside_time_window = is_normal_check ^ (early <= now && now < late);
    !outside_time_window
}

/// Whether the weekday `weekday` (0 is Sunday) is one of the active days.
pub fn within_active_day_window(config: &Config, weekday: u32) -> (r: bool)
    requires
        weekday < 7,
    ensures
        r == day_is_active(config.active_days, day_index(weekday)),
{
    let index: u32 = (weekday + 6) % 7;
    (config.active_days & (1u8 << index)) != 0
}

/// The bitmask `days` with weekday `index` (Monday being 0) made active.
pub fn add_active_day(days: u8, index: u32) -> (r: u8)
    requires
        index < 7,
    ensures
        r == days | (1u8 << index),
        day_is_active(r, index),
{
    let r = days | (1u8 << index);
    assert(r & (1u8 << index) != 0) by (bit_vector)
        requires
            r == days | (1u8 << index),
            index < 7,
    ;
    r
}

/// Whether blocking applies at minute `now` of weekday `weekday` (0 is
/// Sunday): both the window and the day must be active.
pub fn in_blocking_period(config: &Config, now: u32, weekday: u32) -> (r: bool)
    requires
        weekday < 7,
    ensures
        r == (in_time_window(config.block_time_start, config.block_time_end, now)
            && day_is_active(config.active_days, day_index(weekday))),
{
    within_active_time_window(config, now) && within_active_day_window(config, weekday)
}

/// Minutes since midnight at a clock time.
pub fn minutes_of_day(hours: u32, minutes: u32) -> (r: u32)
    requires
        hours < 24,
        minutes < 60,
    ensures
        r == hours * 60 + minutes,
        r < 1440,
{
    hours * 60 + minutes
}

pub open spec fn all_digits(s: Seq<u8>) -> bool {
    forall|i: int| 0 <= i < s.len() ==> is_digit(#[trigger] s[i])
}

/// The digits of a number's text: all of it but a leading `+`.
pub open spec fn unsigned_digits(t: Seq<u8>) -> Seq<u8> {
    if t.len() > 0 && t[0] == 43 {
        t.drop_first()
    } else {
        t
    }
}

/// The number that a text denotes as an unsigned 32-bit integer: one or
/// more decimal digits, optionally after a `+`.
pub open spec fn unsigned_value(t: Seq<u8>) -> Option<nat> {
    let digits = unsigned_digits(t);
    if digits.len() > 0 && all_digits(digits) && digits_value(digits) <= u32::MAX {
        Some(digits_value(digits))
    } else {
        None
    }
}

/// `k` is the position of the first `:` in `s`.
pub open spec fn first_colon(s: Seq<u8>, k: int) -> bool {
    0 <= k < s.len() && s[k] == 58 && forall|j: int| 0 <= j < k ==> s[j] != 58
}

/// The minutes since midnight that a time text `hours:minutes` gives, the
/// text being split at its first `:`; none where either side is not a
/// number or the total does not fit in 32 bits.
pub open spec fn time_text_value(s: Seq<u8>) -> Option<nat> {
    if exists|k: int| first_colon(s, k) {
        let k = choose|k: int| first_colon(s, k);
        match (unsigned_value(s.subrange(0, k)), unsigned_value(s.subrange(k + 1, s.len() as int))) {
            (Some(h), Some(m)) => if h * 60 + m <= u32::MAX {
                Some(h * 60 + m)
            } else {
                None
            },
            _ => None,
        }
    } else {
        None
    }
}

fn parse_unsigned(t: &[u8]) -> (r: Option<u32>)
    ensures
        match unsigned_value(t@) {
            Some(v) => r == Some(v as u32),
            None => r is None,
        },
{
    let mut i: usize = 0;
    if t.len() > 0 && t[0] == 43 {
        i = 1;
    }
    let ghost digits = t@.subrange(i as int, t@.len() as int);
    proof {
        if t@.len() > 0 && t@[0] == 43 {
            assert(digits =~= t@.drop_first());
        } else {
            assert(digits =~= t@);
        }
        assert(digits == unsigned_digits(t@));
    }
    let first = i;
    if first == t.len() {
        return None;
    }
    let mut v: u64 = 0;
    while i < t.len()
        invariant
            first <= i <= t@.len(),
            digits == t@.subrange(first as int, t@.len() as int),
            digits == unsigned_digits(t@),
            forall|j: int| first <= j < i ==> is_digit(#[trigger] t@[j]),
            v == digits_value(t@.subrange(first as int, i as int)),
            v <= u32::MAX,
        decreases t@.len() - i,
    {
        if t[i] < 48 || t[i] > 57 {
            assert(!is_digit(digits[i - first]));
            assert(!all_digits(digits));
            return None;
        }
        let ghost run = t@.subrange(first as int, i + 1);
        assert(run.drop_last() =~= t@.subrange(first as int, i as int));
        v = v * 10 + (t[i] - 48) as u64;
        i = i + 1;
        assert(v == digits_value(run));
        if v > 4294967295 {
            proof {
                assert(run =~= digits.subrange(0, i - first));
                lemma_prefix_value(digits, i - first);
            }
            return None;
        }
    }
    assert(t@.subrange(first as int, i as int) =~= digits);
    Some(v as u32)
}

/// Reads a time text such as `08:30` as minutes since midnight.
pub fn parse_time(time: &str) -> (r: Option<u32>)
    ensures
        match time_text_value(time.spec_bytes()) {
            Some(v) => r == Some(v as u32),
            None => r is None,
        },
{
    let s = time.as_bytes();
    let mut k: usize = 0;
    while k < s.len() && s[k] != 58
        invariant
            k <= s@.len(),
            forall|j: int| 0 <= j < k ==> s@[j] != 58,
        decreases s@.len() - k,
    {
        k = k + 1;
    }
    if k == s.len() {
        assert(!exists|c: int| first_colon(s@, c));
        return None;
    }
    proof {
        assert(first_colon(s@, k as int));
        let c = choose|c: int| first_colon(s@, c);
        assert(c == k) by {
            if c < k {
                assert(s@[c] != 58);
            } else if c > k {
                assert(s@[k as int] != 58);
            }
        }
    }
    let hours = parse_unsigned(slice_subrange(s, 0, k));
    let minutes = parse_unsigned(slice_subrange(s, k + 1, s.len()));
    match (hours, minutes) {
        (Some(h), Some(m)) => {
            if h > 71582788 || h * 60 > 4294967295 - m {
                return None;
            }
            Some(h * 60 + m)
        },
        _ => None,
    }
}

} // verus!
