//! Durations such as `45m`, `2h`, `90s`, `1d` or a bare number of seconds.
use vstd::prelude::*;
use vstd::string::*;
use crate::decimal::{at_most, parse_unsigned, unsigned_number};
use crate::text::{chars_of, slice_text, trim, trimmed};

verus! {

/// Why a text is no duration.
#[derive(Debug, Clone, Copy, PartialEq, Eq, Structural)]
pub enum DurationFault {
    Empty,
    Malformed,
    Zero,
    TooLarge,
}

/// The seconds that one unit of a suffix stands for; 1 for anything else.
pub open spec fn unit_secs(c: char) -> nat {
    if c == 'm' {
        60
    } else if c == 'h' {
        3600
    } else if c == 'd' {
        86_400
    } else {
        1
    }
}

pub open spec fn is_unit(c: char) -> bool {
    c == 's' || c == 'm' || c == 'h' || c == 'd'
}

/// The number part of a trimmed duration: all of it but a unit suffix.
pub open spec fn number_part(t: Seq<char>) -> Seq<char> {
    trimmed(if is_unit(t.last()) { t.drop_last() } else { t })
}

/// The seconds a duration says, or why it says none.
pub open spec fn duration(s: Seq<char>) -> Result<nat, DurationFault> {
    let t = trimmed(s);
    if t.len() == 0 {
        Err(DurationFault::Empty)
    } else {
        match at_most(unsigned_number(number_part(t)), u64::MAX as nat) {
            None => Err(DurationFault::Malformed),
            Some(n) => if n == 0 {
                Err(DurationFault::Zero)
            } else if n * unit_secs(t.last()) > u64::MAX {
                Err(DurationFault::TooLarge)
            } else {
                Ok(n * unit_secs(t.last()))
            },
        }
    }
}

/// Parses a duration into seconds. A malformed, zero or overflowing one is refused.
pub fn parse_duration_secs(s: &str) -> (r: Result<u64, DurationFault>)
    ensures
        match r {
            Ok(n) => duration(s@) == Ok::<nat, DurationFault>(n as nat),
            Err(f) => duration(s@) == Err::<nat, DurationFault>(f),
        },
{
    let t: &str = trim(s);
    if t.is_empty() {
        return Err(DurationFault::Empty);
    }
    let v: Vec<char> = chars_of(t);
    let n: usize = v.len();
    let last: char = v[n - 1];
    let unit: u64 = if last == 'm' {
        60
    } else if last == 'h' {
        3600
    } else if last == 'd' {
        86_400
    } else {
        1
    };
    let end: usize = if last == 's' || last == 'm' || last == 'h' || last == 'd' {
        n - 1
    } else {
        n
    };
    let number: String = slice_text(&v, 0, end);
    proof {
        if end == n {
            assert(number@ =~= t@);
        } else {
            assert(number@ =~= t@.drop_last());
        }
    }
    match parse_unsigned(trim(number.as_str()), u64::MAX) {
        None => Err(DurationFault::Malformed),
        Some(count) => {
            if count == 0 {
                return Err(DurationFault::Zero);
            }
            match count.checked_mul(unit) {
                Some(secs) => Ok(secs),
                None => Err(DurationFault::TooLarge),
            }
        },
    }
}

/// The message for a refused duration.
pub open spec fn duration_text(fault: DurationFault, s: Seq<char>) -> Seq<char> {
    match fault {
        DurationFault::Empty => "empty duration"@,
        DurationFault::Malformed => "invalid duration '"@ + trimmed(s)
            + "' (use e.g. 45m, 2h, 90s, or seconds)"@,
        DurationFault::Zero => "duration '"@ + trimmed(s) + "' must be greater than zero"@,
        DurationFault::TooLarge => "duration '"@ + trimmed(s) + "' is too large"@,
    }
}

/// The message for a refused duration.
pub fn duration_message(fault: DurationFault, s: &str) -> (m: String)
    ensures
        m@ == duration_text(fault, s@),
{
    let t: &str = trim(s);
    match fault {
        DurationFault::Empty => "empty duration".to_owned(),
        DurationFault::Malformed => {
            let mut m: String = "invalid duration '".to_owned();
            m.append(t);
            m.append("' (use e.g. 45m, 2h, 90s, or seconds)");
            m
        },
        DurationFault::Zero => {
            let mut m: String = "duration '".to_owned();
            m.append(t);
            m.append("' must be greater than zero");
            m
        },
        DurationFault::TooLarge => {
            let mut m: String = "duration '".to_owned();
            m.append(t);
            m.append("' is too large");
            m
        },
    }
}

} // verus!
