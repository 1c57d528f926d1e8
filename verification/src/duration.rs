//! Durations written as numbers with unit letters, such as `1y10d`.
use vstd::prelude::*;
use vstd::std_specs::iter::IteratorSpec;

verus! {

/// Why a duration could not be read.
#[derive(Debug, PartialEq, Eq, Structural, Clone, Copy)]
pub enum DurationReason {
    /// "mul overflow!"
    MulOverflow,
    /// "plus overflow!"
    PlusOverflow,
    /// "add year overflow!"
    AddYearOverflow,
    /// "add month overflow"
    AddMonthOverflow,
    /// "add day overflow"
    AddDayOverflow,
    /// "add hour overflow"
    AddHourOverflow,
    /// "add minute overflow"
    AddMinuteOverflow,
    /// "add second overflow"
    AddSecondOverflow,
    /// "invalid char : {c}"
    InvalidChar(char),
}

#[derive(Debug, PartialEq, Eq, Structural, Clone, Copy)]
pub struct DurationError {
    /// Position of the character, counted in characters.
    pub pos: usize,
    pub reason: DurationReason,
}

/// Days in a year, as the durations count them.
pub const DAYS_PER_YEAR: i64 = 366;

/// Days in a month, as the durations count them.
pub const DAYS_PER_MONTH: i64 = 31;

/// The largest number of whole seconds that a `chrono::TimeDelta` holds
/// (`i64::MAX` milliseconds).
pub const MAX_DELTA_SECS: i64 = 9_223_372_036_854_775;

pub enum DurationStep {
    /// The accumulated seconds and the pending number.
    Next(int, int),
    Fail(DurationReason),
    /// A unit count that no `TimeDelta` can hold (`TimeDelta::days` and its
    /// kin panic).
    Panic,
}

pub enum DurationOutcome {
    Secs(int),
    Fail(int, DurationReason),
    Panic,
}

/// Adds `num` units of `per` seconds to `res`.
pub open spec fn add_units(res: int, num: int, per: int, reason: DurationReason) -> DurationStep {
    if num * per > MAX_DELTA_SECS {
        DurationStep::Panic
    } else if res + num * per > MAX_DELTA_SECS {
        DurationStep::Fail(reason)
    } else {
        DurationStep::Next(res + num * per, 0)
    }
}

/// Adds `num` runs of `days` days to `res`; the count of days is checked first.
pub open spec fn add_day_units(res: int, num: int, days: int, reason: DurationReason) -> DurationStep {
    if num * days > i64::MAX {
        DurationStep::Fail(reason)
    } else {
        add_units(res, num * days, 86400, reason)
    }
}

pub open spec fn duration_step(res: int, num: int, c: char) -> DurationStep {
    if '0' <= c <= '9' {
        if num * 10 > i64::MAX {
            DurationStep::Fail(DurationReason::MulOverflow)
        } else if num * 10 + (c as int - '0' as int) > i64::MAX {
            DurationStep::Fail(DurationReason::PlusOverflow)
        } else {
            DurationStep::Next(res, num * 10 + (c as int - '0' as int))
        }
    } else if c == 'y' {
        add_day_units(res, num, DAYS_PER_YEAR as int, DurationReason::AddYearOverflow)
    } else if c == 'M' {
        add_day_units(res, num, DAYS_PER_MONTH as int, DurationReason::AddMonthOverflow)
    } else if c == 'd' {
        add_units(res, num, 86400, DurationReason::AddDayOverflow)
    } else if c == 'h' {
        add_units(res, num, 3600, DurationReason::AddHourOverflow)
    } else if c == 'm' {
        add_units(res, num, 60, DurationReason::AddMinuteOverflow)
    } else if c == 's' {
        add_units(res, num, 1, DurationReason::AddSecondOverflow)
    } else {
        DurationStep::Fail(DurationReason::InvalidChar(c))
    }
}

/// Reads `s` from position `i` on, with `res` seconds accumulated and the
/// number `num` pending. Digits build a number; a unit letter adds that many
/// units and starts a new number; a number left without a unit adds nothing.
pub open spec fn duration_from(s: Seq<char>, i: int, res: int, num: int) -> DurationOutcome
    decreases s.len() - i,
{
    if i >= s.len() || i < 0 {
        DurationOutcome::Secs(res)
    } else {
        match duration_step(res, num, s[i]) {
            DurationStep::Next(r, n) => duration_from(s, i + 1, r, n),
            DurationStep::Fail(reason) => DurationOutcome::Fail(i, reason),
            DurationStep::Panic => DurationOutcome::Panic,
        }
    }
}

pub open spec fn spec_parse_duration(s: Seq<char>) -> DurationOutcome {
    duration_from(s, 0, 0, 0)
}

// ---------------------------------------------------------------------------
// Durations written one after another
// ---------------------------------------------------------------------------

/// The letters that end a count: years, months, days, hours, minutes, seconds.
pub open spec fn unit_letter(c: char) -> bool {
    c == 'y' || c == 'M' || c == 'd' || c == 'h' || c == 'm' || c == 's'
}

/// An outcome of reading a part that starts `k` characters in.
pub open spec fn shift_outcome(o: DurationOutcome, k: int) -> DurationOutcome {
    match o {
        DurationOutcome::Fail(p, reason) => DurationOutcome::Fail(p + k, reason),
        other => other,
    }
}

proof fn lemma_step_grows(res: int, num: int, c: char)
    requires
        0 <= res,
        0 <= num,
    ensures
        duration_step(res, num, c) matches DurationStep::Next(r, n) ==> r >= res && n >= 0,
{
    assert(num * 10 >= 0) by (nonlinear_arith)
        requires
            num >= 0,
    ;
    assert(num * 366 >= 0 && num * 31 >= 0 && num * 86400 >= 0 && num * 3600 >= 0 && num * 60
        >= 0) by (nonlinear_arith)
        requires
            num >= 0,
    ;
    assert((num * 366) * 86400 >= 0 && (num * 31) * 86400 >= 0) by (nonlinear_arith)
        requires
            num >= 0,
    ;
}

/// Reading on never lowers the seconds gathered so far.
proof fn lemma_from_grows(s: Seq<char>, i: int, res: int, num: int)
    requires
        0 <= res,
        0 <= num,
        duration_from(s, i, res, num) is Secs,
    ensures
        duration_from(s, i, res, num)->Secs_0 >= res,
    decreases s.len() - i,
{
    if 0 <= i < s.len() {
        lemma_step_grows(res, num, s[i]);
        if let DurationStep::Next(r, n) = duration_step(res, num, s[i]) {
            lemma_from_grows(s, i + 1, r, n);
        }
    }
}

/// Starting with `x` more seconds ends with `x` more, where the total fits.
proof fn lemma_from_shift(s: Seq<char>, i: int, res: int, num: int, x: int)
    requires
        0 <= res,
        0 <= num,
        0 <= x,
        duration_from(s, i, res, num) is Secs,
        duration_from(s, i, res, num)->Secs_0 + x <= MAX_DELTA_SECS,
    ensures
        duration_from(s, i, res + x, num) == DurationOutcome::Secs(
            duration_from(s, i, res, num)->Secs_0 + x,
        ),
    decreases s.len() - i,
{
    if 0 <= i < s.len() {
        let c = s[i];
        lemma_step_grows(res, num, c);
        if let DurationStep::Next(r, n) = duration_step(res, num, c) {
            lemma_from_grows(s, i + 1, r, n);
            assert(duration_step(res + x, num, c) == DurationStep::Next(r + x, n));
            lemma_from_shift(s, i + 1, r, n, x);
        }
    }
}

/// Where reading with `x` more seconds also succeeds, it ends with `x` more.
proof fn lemma_from_shift_back(s: Seq<char>, i: int, res: int, num: int, x: int)
    requires
        0 <= res,
        0 <= num,
        0 <= x,
        duration_from(s, i, res, num) is Secs,
        duration_from(s, i, res + x, num) is Secs,
    ensures
        duration_from(s, i, res + x, num)->Secs_0 == duration_from(s, i, res, num)->Secs_0 + x,
    decreases s.len() - i,
{
    if 0 <= i < s.len() {
        let c = s[i];
        lemma_step_grows(res, num, c);
        if let DurationStep::Next(r, n) = duration_step(res, num, c) {
            assert(duration_step(res + x, num, c) == DurationStep::Next(r + x, n));
            lemma_from_shift_back(s, i + 1, r, n, x);
        }
    }
}

/// Reading the characters of `b` after those of `a` goes as reading `b`
/// alone, with the positions of failures moved on by the length of `a`.
proof fn lemma_from_suffix(a: Seq<char>, b: Seq<char>, j: int, res: int, num: int)
    requires
        0 <= j <= b.len(),
    ensures
        duration_from(a + b, a.len() + j, res, num) == shift_outcome(duration_from(b, j, res, num), a.len() as int),
    decreases b.len() - j,
{
    if j < b.len() {
        assert((a + b)[a.len() + j] == b[j]);
        if let DurationStep::Next(r, n) = duration_step(res, num, b[j]) {
            lemma_from_suffix(a, b, j + 1, r, n);
        }
    }
}

/// Reading `a + b`, where `a` ends with a unit letter, reads `a`, then
/// reads `b` from the seconds of `a` with no count pending.
proof fn lemma_from_prefix(a: Seq<char>, b: Seq<char>, i: int, res: int, num: int)
    requires
        0 <= i <= a.len(),
        i == a.len() ==> num == 0,
        a.len() > 0 ==> unit_letter(a.last()),
    ensures
        duration_from(a, i, res, num) matches DurationOutcome::Secs(x) ==> duration_from(a + b, i, res, num)
            == shift_outcome(duration_from(b, 0, x, 0), a.len() as int),
        !(duration_from(a, i, res, num) is Secs) ==> duration_from(a + b, i, res, num) == duration_from(
            a,
            i,
            res,
            num,
        ),
    decreases a.len() - i,
{
    if i == a.len() {
        lemma_from_suffix(a, b, 0, res, num);
    } else {
        assert((a + b)[i] == a[i]);
        if let DurationStep::Next(r, n) = duration_step(res, num, a[i]) {
            if i + 1 == a.len() {
                assert(a[i] == a.last());
                assert(n == 0);
            }
            lemma_from_prefix(a, b, i + 1, r, n);
        }
    }
}

/// Durations written one after another add up, as `1y10d` is one year and
/// ten days: where `a` is empty or ends with a unit letter and `a` and `b`
/// each read as seconds, `a + b` reads as their sum whenever it reads at
/// all, and it does whenever the sum fits a `TimeDelta`.
pub proof fn lemma_durations_add(a: Seq<char>, b: Seq<char>)
    requires
        a.len() > 0 ==> unit_letter(a.last()),
        spec_parse_duration(a) is Secs,
        spec_parse_duration(b) is Secs,
    ensures
        spec_parse_duration(a + b) is Secs || spec_parse_duration(a)->Secs_0
            + spec_parse_duration(b)->Secs_0 <= MAX_DELTA_SECS ==> spec_parse_duration(a + b)
            == DurationOutcome::Secs(spec_parse_duration(a)->Secs_0 + spec_parse_duration(b)->Secs_0),
{
    let x = spec_parse_duration(a)->Secs_0;
    let y = spec_parse_duration(b)->Secs_0;
    lemma_from_grows(a, 0, 0, 0);
    lemma_from_prefix(a, b, 0, 0, 0);
    assert(shift_outcome(duration_from(b, 0, x, 0), a.len() as int) is Secs <==> duration_from(b, 0, x, 0) is Secs);
    if x + y <= MAX_DELTA_SECS {
        lemma_from_shift(b, 0, 0, 0, x);
    } else if duration_from(b, 0, 0 + x, 0) is Secs {
        lemma_from_shift_back(b, 0, 0, 0, x);
    }
    assert(y + x == x + y);
}

fn add_units_exec(res: i64, num: i64, per: i64, reason: DurationReason) -> (r: Result<
    i64,
    DurationReason,
>)
    requires
        0 <= res <= MAX_DELTA_SECS,
        0 <= num,
        1 <= per <= 86400,
        !(add_units(res as int, num as int, per as int, reason) is Panic),
    ensures
        match add_units(res as int, num as int, per as int, reason) {
            DurationStep::Next(r2, _) => r == Ok::<i64, DurationReason>(r2 as i64),
            DurationStep::Fail(e) => r == Err::<i64, DurationReason>(e),
            DurationStep::Panic => false,
        },
{
    let secs = num * per;
    if res > MAX_DELTA_SECS - secs {
        Err(reason)
    } else {
        Ok(res + secs)
    }
}

fn add_units_checked(res: i64, num: i64, per: i64, reason: DurationReason) -> (r: Option<
    Result<i64, DurationReason>,
>)
    requires
        0 <= res <= MAX_DELTA_SECS,
        0 <= num,
        1 <= per <= 86400,
    ensures
        match add_units(res as int, num as int, per as int, reason) {
            DurationStep::Next(r2, _) => r == Some(Ok::<i64, DurationReason>(r2 as i64)),
            DurationStep::Fail(e) => r == Some(Err::<i64, DurationReason>(e)),
            DurationStep::Panic => r is None,
        },
{
    match num.checked_mul(per) {
        None => None,
        Some(secs) => if secs > MAX_DELTA_SECS {
            None
        } else {
            match add_units_exec(res, num, per, reason) {
                Ok(v) => Some(Ok(v)),
                Err(e) => Some(Err(e)),
            }
        },
    }
}

/// Reads a duration such as `1y`, `1M`, `10d`, `1h`, `1m`, `1s` or a mix of
/// them such as `1y10d`, in seconds. A year counts 366 days, a month 31.
pub fn parse_duration(s: &str) -> (r: Result<u64, DurationError>)
    requires
        s@.len() <= usize::MAX,
        !(spec_parse_duration(s@) is Panic),
    ensures
        match spec_parse_duration(s@) {
            DurationOutcome::Secs(secs) => r == Ok::<u64, DurationError>(secs as u64),
            DurationOutcome::Fail(pos, reason) => r == Err::<u64, DurationError>(
                DurationError { pos: pos as usize, reason },
            ),
            DurationOutcome::Panic => false,
        },
{
    match checked_parse_duration(s) {
        Some(r) => r,
        None => {
            assert(false);
            Ok(0)
        },
    }
}

/// Reads a duration as `parse_duration` does; `None` where a unit count is
/// beyond what a `chrono::TimeDelta` can hold, where reading it would panic.
pub fn checked_parse_duration(s: &str) -> (r: Option<Result<u64, DurationError>>)
    requires
        s@.len() <= usize::MAX,
    ensures
        match spec_parse_duration(s@) {
            DurationOutcome::Secs(secs) => r == Some(Ok::<u64, DurationError>(secs as u64)),
            DurationOutcome::Fail(pos, reason) => r == Some(
                Err::<u64, DurationError>(DurationError { pos: pos as usize, reason }),
            ),
            DurationOutcome::Panic => r is None,
        },
{
    broadcast use vstd::string::axiom_spec_iter;

    let mut res: i64 = 0;
    let mut num: i64 = 0;
    let mut idx: usize = 0;
    let mut chars = s.chars();
    loop
        invariant
            0 <= idx <= s@.len(),
            s@.len() <= usize::MAX,
            0 <= res <= MAX_DELTA_SECS,
            0 <= num,
            chars.remaining() == s@.subrange(idx as int, s@.len() as int),
            chars.obeys_prophetic_iter_laws(),
            spec_parse_duration(s@) == duration_from(s@, idx as int, res as int, num as int),
        decreases s@.len() - idx,
    {
        let ghost old_chars = chars;
        let next = chars.next();
        proof {
            vstd::string::next_postcondition(&old_chars, &chars, next);
        }
        let c = match next {
            Some(c) => c,
            None => {
                assert(idx as int == s@.len());
                return Some(Ok(res as u64));
            },
        };
        assert(c == s@[idx as int]);
        assert(chars.remaining() =~= s@.subrange(idx + 1, s@.len() as int));
        if '0' <= c && c <= '9' {
            let n1 = match num.checked_mul(10) {
                Some(v) => v,
                None => {
                    return Some(Err(DurationError { pos: idx, reason: DurationReason::MulOverflow }));
                },
            };
            let d = (c as u32 - '0' as u32) as i64;
            num = match n1.checked_add(d) {
                Some(v) => v,
                None => {
                    return Some(Err(DurationError { pos: idx, reason: DurationReason::PlusOverflow }));
                },
            };
        } else if c == 'y' || c == 'M' {
            let (per_days, reason) = if c == 'y' {
                (DAYS_PER_YEAR, DurationReason::AddYearOverflow)
            } else {
                (DAYS_PER_MONTH, DurationReason::AddMonthOverflow)
            };
            let days = match num.checked_mul(per_days) {
                Some(v) => v,
                None => {
                    return Some(Err(DurationError { pos: idx, reason }));
                },
            };
            res = match add_units_checked(res, days, 86400, reason) {
                None => {
                    return None;
                },
                Some(Ok(v)) => v,
                Some(Err(e)) => {
                    return Some(Err(DurationError { pos: idx, reason: e }));
                },
            };
            num = 0;
        } else if c == 'd' || c == 'h' || c == 'm' || c == 's' {
            let (per, reason) = if c == 'd' {
                (86400i64, DurationReason::AddDayOverflow)
            } else if c == 'h' {
                (3600i64, DurationReason::AddHourOverflow)
            } else if c == 'm' {
                (60i64, DurationReason::AddMinuteOverflow)
            } else {
                (1i64, DurationReason::AddSecondOverflow)
            };
            res = match add_units_checked(res, num, per, reason) {
                None => {
                    return None;
                },
                Some(Ok(v)) => v,
                Some(Err(e)) => {
                    return Some(Err(DurationError { pos: idx, reason: e }));
                },
            };
            num = 0;
        } else {
            return Some(Err(DurationError { pos: idx, reason: DurationReason::InvalidChar(c) }));
        }
        idx = idx + 1;
    }
}

} // verus!
