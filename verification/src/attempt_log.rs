//! How much of a superseded attempt's output to keep: a bounded tail of each,
//! and a bounded number of them.
use vstd::prelude::*;
use vstd::string::*;
use vstd::utf8::encode_scalar;
use crate::decimal::{at_most, parse_unsigned, unsigned_number};
use crate::labels::{byte_len, bytes_in};
use crate::text::{chars_of, trim, trimmed};

verus! {

/// Bytes kept of each superseded attempt unless the operator says otherwise.
pub const DEFAULT_BYTES: usize = 4096;

/// Superseded attempts kept of each task unless the operator says otherwise.
pub const DEFAULT_KEEP: usize = 50;

/// The most attempts that a single read hands out.
pub const MAX_READ: usize = 200;

/// The most bytes that an operator can ask to keep of an attempt.
pub const MAX_BYTES: usize = 64 * 1024;

/// Why an attempt ended.
#[derive(Debug, Clone, Copy, PartialEq, Eq, Structural)]
pub enum AttemptEnd {
    /// A pass of a loop whose condition did not hold yet.
    Iteration,
    /// The attempt failed, and another one follows.
    Failed,
}

impl AttemptEnd {
    pub open spec fn text(self) -> Seq<char> {
        match self {
            AttemptEnd::Iteration => "iteration"@,
            AttemptEnd::Failed => "failed"@,
        }
    }

    pub fn as_str(self) -> (r: &'static str)
        ensures
            r@ == self.text(),
    {
        match self {
            AttemptEnd::Iteration => "iteration",
            AttemptEnd::Failed => "failed",
        }
    }
}

/// What is kept of superseded attempts.
#[derive(Debug, Clone, Copy, PartialEq, Eq, Structural)]
pub struct Policy {
    /// Bytes of each attempt; with 0 nothing is kept at all.
    pub bytes: usize,
    /// Attempts of each task; 0 stands for all of them.
    pub keep: usize,
}

impl Default for Policy {
    fn default() -> (p: Policy)
        ensures
            p.bytes == DEFAULT_BYTES,
            p.keep == DEFAULT_KEEP,
    {
        Policy { bytes: DEFAULT_BYTES, keep: DEFAULT_KEEP }
    }
}

/// The number that an operator's setting gives.
pub open spec fn setting(raw: Option<Seq<char>>) -> Option<nat> {
    match raw {
        Some(s) => at_most(unsigned_number(trimmed(s)), usize::MAX as nat),
        None => None,
    }
}

fn read_setting(raw: Option<&str>) -> (r: Option<usize>)
    ensures
        match r {
            Some(n) => setting(crate::datasets::opt_text(raw)) == Some(n as nat),
            None => setting(crate::datasets::opt_text(raw)) is None,
        },
{
    match raw {
        Some(s) => match parse_unsigned(trim(s), usize::MAX as u64) {
            Some(n) => Some(n as usize),
            None => None,
        },
        None => None,
    }
}

/// `t` is the longest end of `s` that takes no more than `cap` bytes.
pub open spec fn longest_tail(s: Seq<char>, t: Seq<char>, cap: nat) -> bool {
    exists|i: int|
        0 <= i <= s.len() && t == #[trigger] s.skip(i) && byte_len(t) <= cap && (i > 0 ==> byte_len(
            s.skip(i - 1),
        ) > cap)
}

/// How many bytes a character takes.
fn width(c: char) -> (n: usize)
    ensures
        n == encode_scalar(c as u32).len(),
        1 <= n <= 4,
{
    let v: u32 = c as u32;
    if v <= 0x7f {
        1
    } else if v <= 0x7ff {
        2
    } else if v <= 0xffff {
        3
    } else {
        4
    }
}

proof fn lemma_suffix_bytes(s: Seq<char>, i: int)
    requires
        0 <= i < s.len(),
    ensures
        byte_len(s.skip(i)) == encode_scalar(s[i] as u32).len() + byte_len(s.skip(i + 1)),
{
    assert(s.skip(i).drop_first() =~= s.skip(i + 1));
}

impl Policy {
    /// The highest attempt that falls out of the window once `attempt` is kept.
    pub open spec fn eviction(self, attempt: i64) -> Option<i64> {
        if self.keep == 0 || attempt - self.keep < 1 {
            None
        } else {
            Some((attempt - self.keep) as i64)
        }
    }

    /// The policy that the operator's environment gives, by the values of its two
    /// variables. A value that is no number counts as none, and no value lifts the
    /// cap on the bytes.
    pub fn from_env(bytes: Option<&str>, keep: Option<&str>) -> (p: Policy)
        ensures
            p.bytes == (match setting(crate::datasets::opt_text(bytes)) {
                Some(n) => if n < MAX_BYTES { n as int } else { MAX_BYTES as int },
                None => DEFAULT_BYTES as int,
            }),
            p.keep == (match setting(crate::datasets::opt_text(keep)) {
                Some(n) => n as int,
                None => DEFAULT_KEEP as int,
            }),
            p.bytes <= MAX_BYTES,
    {
        let bytes: usize = match read_setting(bytes) {
            Some(n) => if n < MAX_BYTES {
                n
            } else {
                MAX_BYTES
            },
            None => DEFAULT_BYTES,
        };
        let keep: usize = match read_setting(keep) {
            Some(n) => n,
            None => DEFAULT_KEEP,
        };
        Policy { bytes, keep }
    }

    /// Whether anything is kept.
    pub fn enabled(self) -> (r: bool)
        ensures
            r == (self.bytes > 0),
    {
        self.bytes > 0
    }

    /// What to keep of an output, and whether anything was dropped: its end, in
    /// whole characters, within the cap.
    pub fn tail(self, output: &str) -> (r: (&str, bool))
        ensures
            longest_tail(output@, r.0@, self.bytes as nat),
            r.1 == (byte_len(output@) > self.bytes),
            byte_len(r.0@) <= self.bytes,
    {
        let total: usize = bytes_in(output);
        if total <= self.bytes {
            assert(output@.skip(0) =~= output@);
            return (output, false);
        }
        let chars: Vec<char> = chars_of(output);
        let ghost s = output@;
        let mut from: usize = chars.len();
        let mut taken: usize = 0;
        assert(s.skip(s.len() as int) =~= Seq::<char>::empty());
        while from > 0 && width(chars[from - 1]) <= self.bytes - taken
            invariant
                chars@ == s,
                from <= chars@.len(),
                taken <= self.bytes,
                taken == byte_len(s.skip(from as int)),
            decreases from,
        {
            proof {
                lemma_suffix_bytes(s, from - 1);
            }
            taken = taken + width(chars[from - 1]);
            from -= 1;
        }
        proof {
            if from > 0 {
                lemma_suffix_bytes(s, from - 1);
            }
            assert(s.subrange(from as int, s.len() as int) =~= s.skip(from as int));
        }
        (output.substring_char(from, chars.len()), true)
    }

    /// The highest attempt that falls out of the window once `attempt` is kept:
    /// it and all before it can go.
    pub fn evict_below(self, attempt: i64) -> (r: Option<i64>)
        ensures
            r == self.eviction(attempt),
    {
        if self.keep == 0 {
            return None;
        }
        if attempt < 1 {
            return None;
        }
        let keep: u64 = self.keep as u64;
        if attempt as u64 <= keep {
            None
        } else {
            Some(attempt - keep as i64)
        }
    }
}

/// Of the attempts up to `attempt`, at most `keep` are past the eviction, and
/// later evictions never fall behind earlier ones.
pub proof fn law_window_is_bounded(policy: Policy, attempt: i64, later: i64)
    requires
        policy.keep > 0,
        1 <= attempt <= later,
    ensures
        attempt - (match policy.eviction(attempt) {
            Some(n) => n as int,
            None => 0,
        }) <= policy.keep,
        policy.eviction(attempt) is Some ==> policy.eviction(later) is Some && policy.eviction(
            attempt,
        )->0 <= policy.eviction(later)->0,
{
}

} // verus!
