//! Predicates on a JSON status document: `path == VALUE`, `path != VALUE` or
//! `path in [A, B]`, with a dotted path.
use vstd::prelude::*;
use vstd::string::*;
use crate::text::{
    blank, chars_of, find, first_at, is_blank, slice_text, split, split_on, texts, trim, trimmed,
};

verus! {

/// What is wrong with a predicate or a path.
#[derive(Debug, Clone, Copy, PartialEq, Eq, Structural)]
pub enum PredicateError {
    /// Neither a comparison nor a membership test, or one with an empty side.
    NoComparison,
    /// The right side of `in` is not a bracketed list.
    NoList,
    /// A dotted path with nothing before, after or between its dots.
    EmptySegment,
}

impl PredicateError {
    pub open spec fn text(self) -> Seq<char> {
        match self {
            PredicateError::NoComparison => "expected `path == VALUE`, `path != VALUE` or `path in [A, B]`"@,
            PredicateError::NoList => "`in` takes a bracketed list, e.g. `path in [A, B]`"@,
            PredicateError::EmptySegment => "path has an empty segment"@,
        }
    }

    pub fn message(&self) -> (r: String)
        ensures
            r@ == self.text(),
    {
        match self {
            PredicateError::NoComparison => "expected `path == VALUE`, `path != VALUE` or `path in [A, B]`".to_owned(),
            PredicateError::NoList => "`in` takes a bracketed list, e.g. `path in [A, B]`".to_owned(),
            PredicateError::EmptySegment => "path has an empty segment".to_owned(),
        }
    }
}

/// A dotted path with an empty segment.
pub open spec fn has_empty_segment(path: Seq<char>) -> bool {
    exists|i: int|
        0 <= i < split_on(trimmed(path), "."@).len() && blank(
            #[trigger] split_on(trimmed(path), "."@)[i],
        )
}

/// What is wrong with a path, if anything.
pub open spec fn path_fault(path: Seq<char>) -> Option<PredicateError> {
    if has_empty_segment(path) { Some(PredicateError::EmptySegment) } else { None }
}

/// A bracketed list.
pub open spec fn is_list(s: Seq<char>) -> bool {
    s.len() >= 2 && s[0] == '[' && s.last() == ']'
}

/// What is wrong with the predicate `path op value`.
pub open spec fn sides_fault(path: Seq<char>, value: Seq<char>) -> Option<PredicateError> {
    if blank(path) || blank(value) {
        Some(PredicateError::NoComparison)
    } else {
        path_fault(path)
    }
}

/// What is wrong with a predicate, if anything.
pub open spec fn predicate_fault(s: Seq<char>) -> Option<PredicateError> {
    match first_at(s, "=="@, 0) {
        Some(i) => sides_fault(s.take(i), s.skip(i + 2)),
        None => match first_at(s, "!="@, 0) {
            Some(i) => sides_fault(s.take(i), s.skip(i + 2)),
            None => match first_at(s, " in "@, 0) {
                Some(i) => if !is_list(trimmed(s.skip(i + 4))) {
                    Some(PredicateError::NoList)
                } else {
                    sides_fault(s.take(i), s.skip(i + 4))
                },
                None => Some(PredicateError::NoComparison),
            },
        },
    }
}

/// Checks a dotted path.
pub fn check_path(path: &str) -> (r: Option<PredicateError>)
    ensures
        r == path_fault(path@),
{
    proof {
        reveal_strlit(".");
    }
    let parts: Vec<String> = split(trim(path), ".");
    let ghost want = split_on(trimmed(path@), "."@);
    let mut i: usize = 0;
    while i < parts.len()
        invariant
            i <= parts@.len(),
            texts(parts@) == want,
            want == split_on(trimmed(path@), "."@),
            forall|k: int| 0 <= k < i ==> !blank(#[trigger] want[k]),
        decreases parts@.len() - i,
    {
        assert(want[i as int] == parts@[i as int]@);
        if is_blank(parts[i].as_str()) {
            return Some(PredicateError::EmptySegment);
        }
        i += 1;
    }
    None
}

fn check_sides(path: &str, value: &str) -> (r: Option<PredicateError>)
    ensures
        r == sides_fault(path@, value@),
{
    if is_blank(path) || is_blank(value) {
        Some(PredicateError::NoComparison)
    } else {
        check_path(path)
    }
}

/// Splits `v` around the operator of `width` characters at `i` and checks its sides.
fn check_around(v: &Vec<char>, i: usize, width: usize) -> (r: Option<PredicateError>)
    requires
        i + width <= v@.len() <= usize::MAX,
    ensures
        r == sides_fault(v@.take(i as int), v@.skip(i + width)),
{
    let left: String = slice_text(v, 0, i);
    let right: String = slice_text(v, i + width, v.len());
    assert(left@ =~= v@.take(i as int));
    assert(right@ =~= v@.skip(i + width));
    check_sides(left.as_str(), right.as_str())
}

/// Checks a predicate.
pub fn check_predicate(s: &str) -> (r: Option<PredicateError>)
    ensures
        r == predicate_fault(s@),
{
    proof {
        reveal_strlit("==");
        reveal_strlit("!=");
        reveal_strlit(" in ");
    }
    let v: Vec<char> = chars_of(s);
    let n: usize = v.len();
    match find(&v, "==", 0) {
        Some(i) => check_around(&v, i, 2),
        None => match find(&v, "!=", 0) {
            Some(i) => check_around(&v, i, 2),
            None => match find(&v, " in ", 0) {
                Some(i) => {
                    let list: String = slice_text(&v, i + 4, n);
                    assert(list@ =~= s@.skip(i + 4));
                    let l: Vec<char> = chars_of(trim(list.as_str()));
                    if !(l.len() >= 2 && l[0] == '[' && l[l.len() - 1] == ']') {
                        Some(PredicateError::NoList)
                    } else {
                        check_around(&v, i, 4)
                    }
                },
                None => Some(PredicateError::NoComparison),
            },
        },
    }
}

} // verus!
