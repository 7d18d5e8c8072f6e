//! Names that end up in filters, labels and keys: runner classes, tags, pools
//! and dataset URIs.
use vstd::prelude::*;
use vstd::string::*;
use vstd::utf8::encode_utf8;
use crate::decimal::{decimal, u64_text};
use crate::text::{chars_of, control, digit, is_white, is_whitespace, lower_ascii, same, upper_ascii};

verus! {

/// What a name is for.
#[derive(Debug, Clone, Copy, PartialEq, Eq, Structural)]
pub enum LabelKind {
    RunnerClass,
    Tag,
    Pool,
    Dataset,
}

/// Why a name is refused.
#[derive(Debug, Clone, Copy, PartialEq, Eq, Structural)]
pub enum LabelFault {
    /// Empty, or longer than the kind allows.
    BadLength { length: usize },
    /// A character outside the kind's set.
    BadCharacter,
    /// The runner class `other`, which is the metrics tail bucket.
    Reserved,
}

/// The length of a text in UTF-8 bytes.
pub open spec fn byte_len(s: Seq<char>) -> nat {
    encode_utf8(s).len()
}

pub fn bytes_in(s: &str) -> (n: usize)
    ensures
        n == byte_len(s@),
{
    s.as_bytes().len()
}

/// The length of a name: a dataset URI may hold any script and counts
/// characters, the ASCII names count bytes.
pub open spec fn label_length(kind: LabelKind, s: Seq<char>) -> nat {
    if kind == LabelKind::Dataset { s.len() } else { byte_len(s) }
}

/// The greatest length a kind allows.
pub open spec fn label_cap(kind: LabelKind) -> nat {
    if kind == LabelKind::Dataset { 512 } else { 64 }
}

/// The characters a kind allows.
pub open spec fn label_char(kind: LabelKind, c: char) -> bool {
    match kind {
        LabelKind::RunnerClass | LabelKind::Pool => lower_ascii(c) || digit(c) || c == '-' || c == '_',
        LabelKind::Tag => lower_ascii(c) || upper_ascii(c) || digit(c) || c == '-' || c == '_' || c
            == '.',
        LabelKind::Dataset => !is_white(c) && !control(c),
    }
}

pub open spec fn all_label_chars(kind: LabelKind, s: Seq<char>) -> bool {
    forall|i: int| 0 <= i < s.len() ==> label_char(kind, #[trigger] s[i])
}

/// Why `s` is no name of this kind, if it is none.
pub open spec fn label_fault(kind: LabelKind, s: Seq<char>) -> Option<LabelFault> {
    if s.len() == 0 || label_length(kind, s) > label_cap(kind) {
        Some(LabelFault::BadLength { length: label_length(kind, s) as usize })
    } else if !all_label_chars(kind, s) {
        Some(LabelFault::BadCharacter)
    } else if kind == LabelKind::RunnerClass && s == "other"@ {
        Some(LabelFault::Reserved)
    } else {
        None
    }
}

fn allowed(kind: LabelKind, c: char) -> (r: bool)
    ensures
        r == label_char(kind, c),
{
    let word: bool = ('a' <= c && c <= 'z') || ('0' <= c && c <= '9') || c == '-' || c == '_';
    match kind {
        LabelKind::RunnerClass | LabelKind::Pool => word,
        LabelKind::Tag => word || ('A' <= c && c <= 'Z') || c == '.',
        LabelKind::Dataset => !is_whitespace(c) && !(c <= '\u{1f}' || ('\u{7f}' <= c && c
            <= '\u{9f}')),
    }
}

/// Why `s` is no name of this kind, if it is none.
pub fn check_label(kind: LabelKind, s: &str) -> (r: Option<LabelFault>)
    ensures
        r == label_fault(kind, s@),
{
    let v: Vec<char> = chars_of(s);
    let (length, cap): (usize, usize) = match kind {
        LabelKind::Dataset => (v.len(), 512),
        _ => (bytes_in(s), 64),
    };
    if v.len() == 0 || length > cap {
        return Some(LabelFault::BadLength { length });
    }
    let mut i: usize = 0;
    while i < v.len()
        invariant
            i <= v@.len(),
            v@ == s@,
            s@.len() > 0,
            label_length(kind, s@) <= label_cap(kind),
            forall|k: int| 0 <= k < i ==> label_char(kind, #[trigger] v@[k]),
        decreases v@.len() - i,
    {
        if !allowed(kind, v[i]) {
            assert(!label_char(kind, s@[i as int]));
            return Some(LabelFault::BadCharacter);
        }
        i += 1;
    }
    let reserved: bool = match kind {
        LabelKind::RunnerClass => same(s, "other"),
        _ => false,
    };
    if reserved {
        Some(LabelFault::Reserved)
    } else {
        None
    }
}

fn as_result(fault: Option<LabelFault>) -> (r: Result<(), LabelFault>)
    ensures
        fault is None == r is Ok,
        fault matches Some(f) ==> r == Err::<(), LabelFault>(f),
{
    match fault {
        Some(f) => Err(f),
        None => Ok(()),
    }
}

/// A runner class: 1 to 64 of `[a-z0-9_-]`, and not the reserved `other`.
pub fn validate_runner_class(name: &str) -> (r: Result<(), LabelFault>)
    ensures
        match r {
            Ok(_) => label_fault(LabelKind::RunnerClass, name@) is None,
            Err(f) => label_fault(LabelKind::RunnerClass, name@) == Some(f),
        },
{
    as_result(check_label(LabelKind::RunnerClass, name))
}

/// A workflow tag: 1 to 64 of `[A-Za-z0-9_.-]`.
pub fn validate_tag(tag: &str) -> (r: Result<(), LabelFault>)
    ensures
        match r {
            Ok(_) => label_fault(LabelKind::Tag, tag@) is None,
            Err(f) => label_fault(LabelKind::Tag, tag@) == Some(f),
        },
{
    as_result(check_label(LabelKind::Tag, tag))
}

/// A pool name: 1 to 64 of `[a-z0-9_-]`.
pub fn validate_pool(name: &str) -> (r: Result<(), LabelFault>)
    ensures
        match r {
            Ok(_) => label_fault(LabelKind::Pool, name@) is None,
            Err(f) => label_fault(LabelKind::Pool, name@) == Some(f),
        },
{
    as_result(check_label(LabelKind::Pool, name))
}

/// A dataset URI: 1 to 512 characters without white space or control characters.
pub fn validate_dataset_uri(uri: &str) -> (r: Result<(), LabelFault>)
    ensures
        match r {
            Ok(_) => label_fault(LabelKind::Dataset, uri@) is None,
            Err(f) => label_fault(LabelKind::Dataset, uri@) == Some(f),
        },
{
    as_result(check_label(LabelKind::Dataset, uri))
}

/// What a kind is called in messages.
pub open spec fn kind_noun(kind: LabelKind) -> Seq<char> {
    match kind {
        LabelKind::RunnerClass => "runner_class"@,
        LabelKind::Tag => "tag"@,
        LabelKind::Pool => "pool"@,
        LabelKind::Dataset => "dataset URI"@,
    }
}

/// The tail of the message about a character outside the kind's set.
pub open spec fn charset_text(kind: LabelKind) -> Seq<char> {
    match kind {
        LabelKind::RunnerClass | LabelKind::Pool => "' may only contain [a-z0-9_-]"@,
        LabelKind::Tag => "' may only contain [A-Za-z0-9_.-]"@,
        LabelKind::Dataset => "' must not contain whitespace or control characters"@,
    }
}

/// The message for a refused name.
pub open spec fn label_text(kind: LabelKind, fault: LabelFault, name: Seq<char>) -> Seq<char> {
    match fault {
        LabelFault::BadLength { length } => kind_noun(kind) + " must be 1-"@ + decimal(
            label_cap(kind),
        ) + " characters, got "@ + decimal(length as nat) + " ('"@ + name + "')"@,
        LabelFault::BadCharacter => kind_noun(kind) + " '"@ + name + charset_text(kind),
        LabelFault::Reserved => "runner_class 'other' is reserved (it is the metrics tail bucket)"@,
    }
}

/// The message for a refused name.
pub fn label_message(kind: LabelKind, fault: LabelFault, name: &str) -> (m: String)
    ensures
        m@ == label_text(kind, fault, name@),
{
    let noun: &str = match kind {
        LabelKind::RunnerClass => "runner_class",
        LabelKind::Tag => "tag",
        LabelKind::Pool => "pool",
        LabelKind::Dataset => "dataset URI",
    };
    match fault {
        LabelFault::BadLength { length } => {
            let cap: u64 = match kind {
                LabelKind::Dataset => 512,
                _ => 64,
            };
            let mut m: String = noun.to_owned();
            m.append(" must be 1-");
            m.append(u64_text(cap).as_str());
            m.append(" characters, got ");
            m.append(u64_text(length as u64).as_str());
            m.append(" ('");
            m.append(name);
            m.append("')");
            m
        },
        LabelFault::BadCharacter => {
            let mut m: String = noun.to_owned();
            m.append(" '");
            m.append(name);
            m.append(
                match kind {
                    LabelKind::RunnerClass | LabelKind::Pool => "' may only contain [a-z0-9_-]",
                    LabelKind::Tag => "' may only contain [A-Za-z0-9_.-]",
                    LabelKind::Dataset => "' must not contain whitespace or control characters",
                },
            );
            m
        },
        LabelFault::Reserved => "runner_class 'other' is reserved (it is the metrics tail bucket)".to_owned(),
    }
}

} // verus!
