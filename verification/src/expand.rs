//! Templates and conditions: `{{ name }}` placeholders, the comparison that
//! `when:` and `repeat.until` evaluate, and the output references they hold.
use vstd::prelude::*;
use vstd::string::*;
use crate::decimal::{parse_i64, signed_number};
use crate::text::{chars_of, find, first_at, same, slice_text, starts_with, texts, trim, trimmed};
use crate::text_map::{text_values, TextMap};

verus! {

/// The first placeholder from `from` on: the index of its `{{` and that of its `}}`.
pub open spec fn placeholder(s: Seq<char>, from: int) -> Option<(int, int)> {
    match first_at(s, "{{"@, from) {
        Some(open) => match first_at(s, "}}"@, open + 2) {
            Some(close) => Some((open, close)),
            None => None,
        },
        None => None,
    }
}

/// What stands between the braces of a placeholder, trimmed.
pub open spec fn placeholder_name(s: Seq<char>, open: int, close: int) -> Seq<char> {
    trimmed(s.subrange(open + 2, close))
}

proof fn lemma_placeholder(s: Seq<char>, from: int)
    ensures
        placeholder(s, from) matches Some((open, close)) ==> from <= open && open + 2 <= close
            && close + 2 <= s.len(),
{
    reveal_strlit("{{");
    reveal_strlit("}}");
    crate::text::lemma_first_at(s, "{{"@, from);
    if let Some(open) = first_at(s, "{{"@, from) {
        crate::text::lemma_first_at(s, "}}"@, open + 2);
    }
}

fn next_placeholder(v: &Vec<char>, from: usize) -> (r: Option<(usize, usize)>)
    requires
        from <= v@.len(),
    ensures
        match r {
            Some((open, close)) => placeholder(v@, from as int) == Some((open as int, close as int))
                && from <= open && open + 2 <= close && close + 2 <= v@.len() <= usize::MAX,
            None => placeholder(v@, from as int) is None,
        },
{
    proof {
        reveal_strlit("{{");
        reveal_strlit("}}");
        lemma_placeholder(v@, from as int);
    }
    let n: usize = v.len();
    match find(v, "{{", from) {
        Some(open) => match find(v, "}}", open + 2) {
            Some(close) => Some((open, close)),
            None => None,
        },
        None => None,
    }
}

/// `s` from index `from` on with every bound placeholder replaced; an unbound
/// one, and an unclosed `{{`, stay as they are.
pub open spec fn substituted_from(s: Seq<char>, from: int, ctx: Map<Seq<char>, Seq<char>>) -> Seq<char>
    decreases s.len() - from,
{
    if from < 0 || from > s.len() {
        Seq::empty()
    } else {
        match placeholder(s, from) {
            Some((open, close)) => if from <= open && open <= close && close + 2 <= s.len() {
                s.subrange(from, open) + (if ctx.contains_key(placeholder_name(s, open, close)) {
                    ctx[placeholder_name(s, open, close)]
                } else {
                    s.subrange(open, close + 2)
                }) + substituted_from(s, close + 2, ctx)
            } else {
                s.skip(from)
            },
            None => s.skip(from),
        }
    }
}

pub open spec fn substituted(s: Seq<char>, ctx: Map<Seq<char>, Seq<char>>) -> Seq<char> {
    substituted_from(s, 0, ctx)
}

/// Replaces every placeholder that `ctx` binds; the others stay verbatim.
pub fn substitute(s: &str, ctx: &TextMap<String>) -> (r: String)
    ensures
        r@ == substituted(s@, text_values(ctx@)),
{
    let v: Vec<char> = chars_of(s);
    let ghost names = text_values(ctx@);
    let mut out: String = String::new();
    let mut from: usize = 0;
    assert(out@ + substituted_from(v@, 0, names) =~= substituted_from(v@, 0, names));
    loop
        invariant
            from <= v@.len(),
            v@ == s@,
            names == text_values(ctx@),
            substituted(s@, names) == out@ + substituted_from(v@, from as int, names),
        decreases v@.len() - from,
    {
        match next_placeholder(&v, from) {
            Some((open, close)) => {
                let ghost before = out@;
                let lead: String = slice_text(&v, from, open);
                let inner: String = slice_text(&v, open + 2, close);
                out.append(lead.as_str());
                let ghost key = placeholder_name(v@, open as int, close as int);
                let ghost value = if names.contains_key(key) {
                    names[key]
                } else {
                    v@.subrange(open as int, close + 2)
                };
                match ctx.get(trim(inner.as_str())) {
                    Some(value) => out.append(value.as_str()),
                    None => {
                        let whole: String = slice_text(&v, open, close + 2);
                        out.append(whole.as_str());
                    },
                }
                assert(out@ + substituted_from(v@, close + 2, names) =~= before + (v@.subrange(
                    from as int,
                    open as int,
                ) + value + substituted_from(v@, close + 2, names)));
                from = close + 2;
            },
            None => {
                let rest: String = slice_text(&v, from, v.len());
                assert(rest@ =~= v@.skip(from as int));
                out.append(rest.as_str());
                return out;
            },
        }
    }
}

/// The comparison operators in the order in which a condition is searched for them.
pub open spec fn operators() -> Seq<Seq<char>> {
    seq!["=="@, "!="@, ">="@, "<="@, ">"@, "<"@]
}

/// The value of `left op right`: texts compare for equality, and order compares
/// whole numbers only.
pub open spec fn comparison(left: Seq<char>, op: int, right: Seq<char>) -> Option<bool> {
    if op == 0 {
        Some(left == right)
    } else if op == 1 {
        Some(left != right)
    } else {
        match (integer(left), integer(right)) {
            (Some(a), Some(b)) => Some(
                if op == 2 { a >= b } else if op == 3 { a <= b } else if op == 4 { a > b } else { a < b },
            ),
            _ => None,
        }
    }
}

/// A text as a 64-bit whole number.
pub open spec fn integer(s: Seq<char>) -> Option<int> {
    match signed_number(s) {
        Some(n) => if i64::MIN <= n <= i64::MAX { Some(n) } else { None },
        None => None,
    }
}

/// A bare value counts as true unless it is empty, `false` or `0`.
pub open spec fn truthy(s: Seq<char>) -> bool {
    s.len() > 0 && s != "false"@ && s != "0"@
}

/// The value of a condition, searched for the operators from number `k` on.
pub open spec fn condition_from(s: Seq<char>, k: int) -> Option<bool>
    decreases 6 - k,
{
    if k < 0 || k >= 6 {
        Some(truthy(s))
    } else {
        match first_at(s, operators()[k], 0) {
            Some(i) => comparison(
                trimmed(s.take(i)),
                k,
                trimmed(s.skip(i + operators()[k].len())),
            ),
            None => condition_from(s, k + 1),
        }
    }
}

/// The value of a condition: one comparison, or a bare value. `None` where its
/// operands do not compare.
pub open spec fn condition(s: Seq<char>) -> Option<bool> {
    condition_from(trimmed(s), 0)
}

/// What an unevaluable condition reports.
pub open spec fn condition_error(s: Seq<char>) -> Seq<char> {
    "cannot compare the operands of '"@ + trimmed(s) + "' as numbers"@
}

fn number_of(s: &str) -> (r: Option<i64>)
    ensures
        match r {
            Some(n) => integer(s@) == Some(n as int),
            None => integer(s@) is None,
        },
{
    parse_i64(s)
}

fn compare_with(left: &str, op: usize, right: &str) -> (r: Option<bool>)
    requires
        op < 6,
    ensures
        r == comparison(left@, op as int, right@),
{
    if op == 0 {
        return Some(same(left, right));
    }
    if op == 1 {
        return Some(!same(left, right));
    }
    match (number_of(left), number_of(right)) {
        (Some(a), Some(b)) => Some(
            if op == 2 {
                a >= b
            } else if op == 3 {
                a <= b
            } else if op == 4 {
                a > b
            } else {
                a < b
            },
        ),
        _ => None,
    }
}

/// Evaluates a condition: one binary comparison or a bare truthy value.
pub fn eval_when(s: &str) -> (r: Result<bool, String>)
    ensures
        match r {
            Ok(b) => condition(s@) == Some(b),
            Err(e) => condition(s@) is None && e@ == condition_error(s@),
        },
{
    let text: &str = trim(s);
    let v: Vec<char> = chars_of(text);
    let ops: [&str; 6] = ["==", "!=", ">=", "<=", ">", "<"];
    let mut k: usize = 0;
    proof {
        reveal_strlit("==");
        reveal_strlit("!=");
        reveal_strlit(">=");
        reveal_strlit("<=");
        reveal_strlit(">");
        reveal_strlit("<");
    }
    while k < 6
        invariant
            k <= 6,
            v@ == text@,
            text@ == trimmed(s@),
            ops@.len() == 6,
            forall|j: int| 0 <= j < 6 ==> (#[trigger] ops@[j])@ == operators()[j],
            condition(s@) == condition_from(text@, k as int),
        decreases 6 - k,
    {
        let op: &str = ops[k];
        let n: usize = v.len();
        assert(op@ == operators()[k as int]);
        match find(&v, op, 0) {
            Some(i) => {
                let width: usize = op.unicode_len();
                let left: String = slice_text(&v, 0, i);
                let right: String = slice_text(&v, i + width, n);
                assert(left@ =~= text@.take(i as int));
                assert(right@ =~= text@.skip(i + width));
                return match compare_with(trim(left.as_str()), k, trim(right.as_str())) {
                    Some(b) => Ok(b),
                    None => {
                        let mut e: String = "cannot compare the operands of '".to_owned();
                        e.append(text);
                        e.append("' as numbers");
                        Err(e)
                    },
                };
            },
            None => {},
        }
        k += 1;
    }
    Ok(!text.is_empty() && !same(text, "false") && !same(text, "0"))
}

/// The task a placeholder name refers to: `N` of `tasks.N.output`.
pub open spec fn output_ref(name: Seq<char>) -> Option<Seq<char>> {
    let head = "tasks."@;
    let tail = ".output"@;
    if head.is_prefix_of(name) && name.len() >= head.len() + tail.len() && name.skip(
        name.len() - tail.len(),
    ) == tail {
        Some(name.subrange(head.len() as int, name.len() - tail.len()))
    } else {
        None
    }
}

/// The tasks whose outputs `s` refers to from index `from` on, in order.
pub open spec fn output_refs_from(s: Seq<char>, from: int) -> Seq<Seq<char>>
    decreases s.len() - from,
{
    if from < 0 || from > s.len() {
        Seq::empty()
    } else {
        match placeholder(s, from) {
            Some((open, close)) => if from <= open && open <= close && close + 2 <= s.len() {
                (match output_ref(placeholder_name(s, open, close)) {
                    Some(task) => seq![task],
                    None => Seq::empty(),
                }) + output_refs_from(s, close + 2)
            } else {
                Seq::empty()
            },
            None => Seq::empty(),
        }
    }
}

pub open spec fn output_refs(s: Seq<char>) -> Seq<Seq<char>> {
    output_refs_from(s, 0)
}

fn output_ref_of(name: &str) -> (r: Option<String>)
    ensures
        match r {
            Some(task) => output_ref(name@) == Some(task@),
            None => output_ref(name@) is None,
        },
{
    proof {
        reveal_strlit("tasks.");
        reveal_strlit(".output");
    }
    let v: Vec<char> = chars_of(name);
    if !starts_with(name, "tasks.") || v.len() < 13 {
        return None;
    }
    let tail: String = slice_text(&v, v.len() - 7, v.len());
    assert(tail@ =~= name@.skip(name@.len() - 7));
    if !same(tail.as_str(), ".output") {
        return None;
    }
    Some(slice_text(&v, 6, v.len() - 7))
}

/// The tasks whose outputs a condition refers to, in order of reference.
pub fn when_output_refs(s: &str) -> (r: Vec<String>)
    ensures
        texts(r@) == output_refs(s@),
{
    let v: Vec<char> = chars_of(s);
    let mut out: Vec<String> = Vec::new();
    let mut from: usize = 0;
    assert(texts(out@) + output_refs_from(v@, 0) =~= output_refs_from(v@, 0));
    loop
        invariant
            from <= v@.len(),
            v@ == s@,
            output_refs(s@) == texts(out@) + output_refs_from(v@, from as int),
        decreases v@.len() - from,
    {
        match next_placeholder(&v, from) {
            Some((open, close)) => {
                let inner: String = slice_text(&v, open + 2, close);
                let ghost was = texts(out@);
                match output_ref_of(trim(inner.as_str())) {
                    Some(task) => {
                        let ghost t = task@;
                        out.push(task);
                        assert(texts(out@) =~= was.push(t));
                        assert(was.push(t) + output_refs_from(v@, close + 2) =~= was + (seq![t]
                            + output_refs_from(v@, close + 2)));
                    },
                    None => {
                        assert(was + (Seq::<Seq<char>>::empty() + output_refs_from(v@, close + 2))
                            =~= was + output_refs_from(v@, close + 2));
                    },
                }
                from = close + 2;
            },
            None => {
                assert(texts(out@) + Seq::<Seq<char>>::empty() =~= texts(out@));
                return out;
            },
        }
    }
}

/// A row of `producer`: the task itself, or one instance of its fan-out (`producer.label`).
pub open spec fn producer_row(producer: Seq<char>, name: Seq<char>) -> bool {
    name == producer || (producer.push('.')).is_prefix_of(name)
}

/// Whether `name` is a row of `producer`.
pub fn is_producer_row(producer: &str, name: &str) -> (r: bool)
    ensures
        r == producer_row(producer@, name@),
{
    let mut prefix: String = producer.to_owned();
    prefix.push('.');
    same(name, producer) || starts_with(name, prefix.as_str())
}

} // verus!
