//! Placeholders and conditions: what a text becomes once its placeholders are
//! filled in, and what a condition comes to.
use vstd::prelude::*;
use crate::decimal::{signed_decimal, signed_number};
use crate::expand::{
    comparison, condition, condition_from, operators, output_ref, output_refs, output_refs_from,
    placeholder, producer_row, substituted, substituted_from,
};
use crate::laws::text::{law_numbers_read_back, law_search_finds_the_first, law_trim_takes_the_ends};
use crate::laws::words::{first_stands, lemma_first_stands, nowhere};
use crate::text::{first_at, is_white, lemma_first_at_skip, stands_at, trimmed};

verus! {

/// The character is nowhere in the text.
pub open spec fn lacks(s: Seq<char>, c: char) -> bool {
    forall|i: int| 0 <= i < s.len() ==> #[trigger] s[i] != c
}

// ── Searching ────────────────────────────────────────────────────────────────

/// The first place is the one that nothing comes before.
proof fn lemma_first_is(s: Seq<char>, pat: Seq<char>, from: int, i: int)
    requires
        0 <= from <= i,
        stands_at(s, pat, i),
        forall|j: int| from <= j < i ==> !#[trigger] stands_at(s, pat, j),
    ensures
        first_at(s, pat, from) == Some(i),
    decreases i - from,
{
    if from < i {
        assert(!stands_at(s, pat, from));
        lemma_first_is(s, pat, from + 1, i);
    }
}

proof fn lemma_nowhere(s: Seq<char>, pat: Seq<char>, from: int)
    requires
        0 <= from,
        forall|j: int| from <= j ==> !#[trigger] stands_at(s, pat, j),
    ensures
        first_at(s, pat, from) is None,
    decreases s.len() - from + 1,
{
    if from + pat.len() <= s.len() {
        assert(!stands_at(s, pat, from));
        lemma_nowhere(s, pat, from + 1);
    }
}

proof fn lemma_stands(s: Seq<char>, pat: Seq<char>, j: int, k: int)
    requires
        stands_at(s, pat, j),
        0 <= k < pat.len(),
    ensures
        s[j + k] == pat[k],
{
    assert(s.subrange(j, j + pat.len())[k] == pat[k]);
}

// ── Placeholders ─────────────────────────────────────────────────────────────

pub proof fn lemma_braces()
    ensures
        "{{"@ == seq!['{', '{'],
        "}}"@ == seq!['}', '}'],
{
    reveal_strlit("{{");
    reveal_strlit("}}");
    assert("{{"@ =~= seq!['{', '{']);
    assert("}}"@ =~= seq!['}', '}']);
}

proof fn lemma_placeholder_skip(s: Seq<char>, from: int)
    requires
        0 <= from <= s.len(),
    ensures
        match placeholder(s.skip(from), 0) {
            Some((open, close)) => placeholder(s, from) == Some((from + open, from + close)),
            None => placeholder(s, from) is None,
        },
{
    lemma_first_at_skip(s, "{{"@, from, 0);
    match first_at(s.skip(from), "{{"@, 0) {
        Some(open) => {
            law_search_finds_the_first(s.skip(from), "{{"@, 0);
            lemma_first_at_skip(s, "}}"@, from, open + 2);
        },
        None => {},
    }
}

pub proof fn lemma_placeholder_bounds(s: Seq<char>, from: int)
    requires
        0 <= from,
    ensures
        placeholder(s, from) matches Some((open, close)) ==> from <= open && open + 2 <= close && close + 2
            <= s.len(),
{
    lemma_braces();
    law_search_finds_the_first(s, "{{"@, from);
    match first_at(s, "{{"@, from) {
        Some(open) => {
            law_search_finds_the_first(s, "}}"@, open + 2);
        },
        None => {},
    }
}

proof fn lemma_substituted_skip(s: Seq<char>, from: int, ctx: Map<Seq<char>, Seq<char>>)
    requires
        0 <= from <= s.len(),
    ensures
        substituted_from(s, from, ctx) == substituted_from(s.skip(from), 0, ctx),
    decreases s.len() - from,
{
    lemma_placeholder_skip(s, from);
    lemma_placeholder_bounds(s, from);
    let t = s.skip(from);
    match placeholder(t, 0) {
        Some((open, close)) => {
            lemma_substituted_skip(s, from + close + 2, ctx);
            lemma_substituted_skip(t, close + 2, ctx);
            assert(s.skip(from + close + 2) =~= t.skip(close + 2));
            assert(s.subrange(from, from + open) =~= t.subrange(0, open));
            assert(s.subrange(from + open, from + close + 2) =~= t.subrange(open, close + 2));
            assert(s.subrange(from + open + 2, from + close) =~= t.subrange(open + 2, close));
        },
        None => {
            assert(t.skip(0) =~= t);
        },
    }
}

proof fn lemma_refs_skip(s: Seq<char>, from: int)
    requires
        0 <= from <= s.len(),
    ensures
        output_refs_from(s, from) == output_refs_from(s.skip(from), 0),
    decreases s.len() - from,
{
    lemma_placeholder_skip(s, from);
    lemma_placeholder_bounds(s, from);
    let t = s.skip(from);
    match placeholder(t, 0) {
        Some((open, close)) => {
            lemma_refs_skip(s, from + close + 2);
            lemma_refs_skip(t, close + 2);
            assert(s.skip(from + close + 2) =~= t.skip(close + 2));
            assert(s.subrange(from + open + 2, from + close) =~= t.subrange(open + 2, close));
        },
        None => {},
    }
}

/// The first placeholder is the braces after `pre` around `mid`.
proof fn lemma_first_placeholder(pre: Seq<char>, mid: Seq<char>, post: Seq<char>)
    requires
        lacks(pre, '{'),
        lacks(mid, '}'),
    ensures
        placeholder(pre + "{{"@ + mid + "}}"@ + post, 0) == Some(
            (pre.len() as int, (pre.len() + 2 + mid.len()) as int),
        ),
{
    lemma_braces();
    let s = pre + "{{"@ + mid + "}}"@ + post;
    let open = pre.len() as int;
    let close = open + 2 + mid.len();
    assert(s.subrange(open, open + 2) =~= "{{"@);
    assert(s.subrange(close, close + 2) =~= "}}"@);
    assert forall|j: int| 0 <= j < open implies !#[trigger] stands_at(s, "{{"@, j) by {
        if stands_at(s, "{{"@, j) {
            lemma_stands(s, "{{"@, j, 0);
            assert(s[j] == pre[j]);
        }
    }
    lemma_first_is(s, "{{"@, 0, open);
    assert forall|j: int| open + 2 <= j < close implies !#[trigger] stands_at(s, "}}"@, j) by {
        if stands_at(s, "}}"@, j) {
            lemma_stands(s, "}}"@, j, 0);
            assert(s[j] == mid[j - open - 2]);
        }
    }
    lemma_first_is(s, "}}"@, open + 2, close);
}

proof fn lemma_no_placeholder(s: Seq<char>)
    requires
        lacks(s, '{'),
    ensures
        placeholder(s, 0) is None,
{
    lemma_braces();
    assert forall|j: int| 0 <= j implies !#[trigger] stands_at(s, "{{"@, j) by {
        if stands_at(s, "{{"@, j) {
            lemma_stands(s, "{{"@, j, 0);
        }
    }
    lemma_nowhere(s, "{{"@, 0);
}

/// A text without braces stays as it is. A placeholder whose name is bound gives
/// way to its value, an unbound one stays, and the text after it is filled in
/// likewise.
pub proof fn law_placeholders_are_filled(
    pre: Seq<char>,
    mid: Seq<char>,
    post: Seq<char>,
    ctx: Map<Seq<char>, Seq<char>>,
)
    requires
        lacks(pre, '{'),
        lacks(mid, '}'),
    ensures
        substituted(pre, ctx) == pre,
        substituted(pre + "{{"@ + mid + "}}"@ + post, ctx) == pre + (if ctx.contains_key(trimmed(mid)) {
            ctx[trimmed(mid)]
        } else {
            "{{"@ + mid + "}}"@
        }) + substituted(post, ctx),
{
    lemma_braces();
    lemma_no_placeholder(pre);
    assert(pre.skip(0) =~= pre);
    let s = pre + "{{"@ + mid + "}}"@ + post;
    let open = pre.len() as int;
    let close = open + 2 + mid.len();
    lemma_first_placeholder(pre, mid, post);
    lemma_substituted_skip(s, close + 2, ctx);
    assert(s.skip(close + 2) =~= post);
    assert(s.subrange(0, open) =~= pre);
    assert(s.subrange(open + 2, close) =~= mid);
    assert(s.subrange(open, close + 2) =~= "{{"@ + mid + "}}"@);
}

/// The outputs that a text refers to: one for each placeholder that reads
/// `tasks.N.output`, and none for any other.
pub proof fn law_output_references(pre: Seq<char>, mid: Seq<char>, post: Seq<char>, name: Seq<char>)
    requires
        lacks(pre, '{'),
        lacks(mid, '}'),
    ensures
        output_refs(pre) == Seq::<Seq<char>>::empty(),
        trimmed(mid) == "tasks."@ + name + ".output"@ ==> output_refs(
            pre + "{{"@ + mid + "}}"@ + post,
        ) == seq![name] + output_refs(post),
        (forall|n: Seq<char>| trimmed(mid) != #[trigger] ("tasks."@ + n + ".output"@)) ==> output_refs(
            pre + "{{"@ + mid + "}}"@ + post,
        ) == output_refs(post),
{
    lemma_braces();
    lemma_no_placeholder(pre);
    let s = pre + "{{"@ + mid + "}}"@ + post;
    let open = pre.len() as int;
    let close = open + 2 + mid.len();
    lemma_first_placeholder(pre, mid, post);
    lemma_refs_skip(s, close + 2);
    assert(s.skip(close + 2) =~= post);
    assert(s.subrange(open + 2, close) =~= mid);
    lemma_output_ref(trimmed(mid), name);
    if output_ref(trimmed(mid)) is None {
        assert(Seq::<Seq<char>>::empty() + output_refs(post) =~= output_refs(post));
    } else {
        let n = output_ref(trimmed(mid))->0;
        let t = trimmed(mid);
        assert(t == "tasks."@ + n + ".output"@);
    }
}

pub proof fn lemma_output_ref(t: Seq<char>, name: Seq<char>)
    ensures
        t == "tasks."@ + name + ".output"@ ==> output_ref(t) == Some(name),
        output_ref(t) matches Some(n) ==> t == "tasks."@ + n + ".output"@,
{
    let head = "tasks."@;
    let tail = ".output"@;
    if t == head + name + tail {
        assert(t.subrange(0, head.len() as int) =~= head);
        assert(t.skip(t.len() - tail.len()) =~= tail);
        assert(t.subrange(head.len() as int, t.len() - tail.len()) =~= name);
    }
    match output_ref(t) {
        Some(n) => {
            assert(head == t.subrange(0, head.len() as int));
            assert(t.skip(t.len() - tail.len()) == tail);
            assert(t =~= head + n + tail);
        },
        None => {},
    }
}

/// A producer's rows are the task itself and its instances, which carry its name
/// and a dot in front.
pub proof fn law_producer_rows(producer: Seq<char>, label: Seq<char>, name: Seq<char>)
    ensures
        producer_row(producer, producer),
        producer_row(producer, producer + seq!['.'] + label),
        producer_row(producer, name) && name != producer ==> name.len() > producer.len() && name.take(
            producer.len() as int,
        ) == producer && name[producer.len() as int] == '.',
{
    let p = producer.push('.');
    let instance = producer + seq!['.'] + label;
    assert(instance.subrange(0, p.len() as int) =~= p);
    if producer_row(producer, name) && name != producer {
        assert(p =~= name.subrange(0, p.len() as int));
        assert(name.take(producer.len() as int) =~= p.take(producer.len() as int));
        assert(p.take(producer.len() as int) =~= producer);
        assert(p[producer.len() as int] == '.');
    }
}

// ── Conditions ───────────────────────────────────────────────────────────────

/// A side of a comparison: it holds no operator.
pub open spec fn plain(s: Seq<char>) -> bool {
    lacks(s, '=') && lacks(s, '!') && lacks(s, '<') && lacks(s, '>')
}

proof fn lemma_operators()
    ensures
        operators().len() == 6,
        operators()[0] == seq!['=', '='],
        operators()[1] == seq!['!', '='],
        operators()[2] == seq!['>', '='],
        operators()[3] == seq!['<', '='],
        operators()[4] == seq!['>'],
        operators()[5] == seq!['<'],
{
    reveal_strlit("==");
    reveal_strlit("!=");
    reveal_strlit(">=");
    reveal_strlit("<=");
    reveal_strlit(">");
    reveal_strlit("<");
    assert("=="@ =~= seq!['=', '=']);
    assert("!="@ =~= seq!['!', '=']);
    assert(">="@ =~= seq!['>', '=']);
    assert("<="@ =~= seq!['<', '=']);
    assert(">"@ =~= seq!['>']);
    assert("<"@ =~= seq!['<']);
}

/// Operator `k` is not found in a plain text, nor around the operator `op` where
/// that comes later in the list.
proof fn lemma_not_found(left: Seq<char>, op: int, right: Seq<char>, k: int)
    requires
        plain(left),
        plain(right),
        0 <= k < op < 6,
    ensures
        first_at(left + operators()[op] + right, operators()[k], 0) is None,
{
    lemma_operators();
    let s = left + operators()[op] + right;
    let pat = operators()[k];
    let n = left.len() as int;
    let w = operators()[op].len() as int;
    assert forall|j: int| 0 <= j implies !#[trigger] stands_at(s, pat, j) by {
        if stands_at(s, pat, j) {
            lemma_stands(s, pat, j, 0);
            lemma_stands(s, pat, j, pat.len() - 1);
            if j < n {
                assert(s[j] == left[j]);
            } else if j >= n + w {
                assert(s[j] == right[j - n - w]);
            } else {
                assert(s[j] == operators()[op][j - n]);
                let e = j + pat.len() - 1;
                if e >= n + w {
                    assert(s[e] == right[e - n - w]);
                } else {
                    assert(s[e] == operators()[op][e - n]);
                }
            }
        }
    }
    lemma_nowhere(s, pat, 0);
}

proof fn lemma_found(left: Seq<char>, op: int, right: Seq<char>)
    requires
        plain(left),
        0 <= op < 6,
    ensures
        first_at(left + operators()[op] + right, operators()[op], 0) == Some(left.len() as int),
{
    lemma_operators();
    let s = left + operators()[op] + right;
    let pat = operators()[op];
    let n = left.len() as int;
    assert(s.subrange(n, n + pat.len()) =~= pat);
    assert forall|j: int| 0 <= j < n implies !#[trigger] stands_at(s, pat, j) by {
        if stands_at(s, pat, j) {
            lemma_stands(s, pat, j, 0);
            assert(s[j] == left[j]);
        }
    }
    lemma_first_is(s, pat, 0, n);
}

proof fn lemma_condition_from(left: Seq<char>, op: int, right: Seq<char>, k: int)
    requires
        plain(left),
        plain(right),
        0 <= k <= op < 6,
    ensures
        condition_from(left + operators()[op] + right, k) == comparison(trimmed(left), op, trimmed(right)),
    decreases op - k,
{
    let s = left + operators()[op] + right;
    lemma_operators();
    if k < op {
        lemma_not_found(left, op, right, k);
        lemma_condition_from(left, op, right, k + 1);
    } else {
        lemma_found(left, op, right);
        assert(s.take(left.len() as int) =~= left);
        assert(s.skip((left.len() + operators()[op].len()) as int) =~= right);
    }
}

/// A condition of two sides and an operator between them. The sides begin and
/// end in something to read.
proof fn lemma_condition(left: Seq<char>, op: int, right: Seq<char>)
    requires
        plain(left),
        plain(right),
        left.len() > 0 && !is_white(left[0]),
        right.len() > 0 && !is_white(right.last()),
        0 <= op < 6,
    ensures
        condition(left + operators()[op] + right) == comparison(trimmed(left), op, trimmed(right)),
{
    let s = left + operators()[op] + right;
    let none = Seq::<char>::empty();
    law_trim_takes_the_ends(none, s, none);
    assert(none + s + none =~= s);
    lemma_condition_from(left, op, right, 0);
}

/// `==` and `!=` compare the trimmed texts of their sides.
pub proof fn law_condition_compares_texts(left: Seq<char>, right: Seq<char>)
    requires
        plain(left),
        plain(right),
        left.len() > 0 && !is_white(left[0]),
        right.len() > 0 && !is_white(right.last()),
    ensures
        condition(left + seq!['=', '='] + right) == Some(trimmed(left) == trimmed(right)),
        condition(left + seq!['!', '='] + right) == Some(trimmed(left) != trimmed(right)),
{
    lemma_operators();
    lemma_condition(left, 0, right);
    lemma_condition(left, 1, right);
}

/// The other operators compare whole numbers, and nothing else.
pub proof fn law_condition_compares_numbers(left: Seq<char>, right: Seq<char>, a: int, b: int)
    requires
        plain(left),
        plain(right),
        left.len() > 0 && !is_white(left[0]),
        right.len() > 0 && !is_white(right.last()),
        trimmed(left) == signed_decimal(a),
        trimmed(right) == signed_decimal(b),
        i64::MIN <= a <= i64::MAX,
        i64::MIN <= b <= i64::MAX,
    ensures
        condition(left + seq!['>', '='] + right) == Some(a >= b),
        condition(left + seq!['<', '='] + right) == Some(a <= b),
        condition(left + seq!['>'] + right) == Some(a > b),
        condition(left + seq!['<'] + right) == Some(a < b),
{
    lemma_operators();
    law_numbers_read_back(0, a);
    law_numbers_read_back(0, b);
    lemma_condition(left, 2, right);
    lemma_condition(left, 3, right);
    lemma_condition(left, 4, right);
    lemma_condition(left, 5, right);
}

/// Where a side is no whole number, order cannot be told.
pub proof fn law_condition_refuses_other_order(left: Seq<char>, right: Seq<char>)
    requires
        plain(left),
        plain(right),
        left.len() > 0 && !is_white(left[0]),
        right.len() > 0 && !is_white(right.last()),
        signed_number(trimmed(left)) is None || signed_number(trimmed(right)) is None,
    ensures
        condition(left + seq!['>', '='] + right) is None,
        condition(left + seq!['<', '='] + right) is None,
        condition(left + seq!['>'] + right) is None,
        condition(left + seq!['<'] + right) is None,
{
    lemma_operators();
    lemma_condition(left, 2, right);
    lemma_condition(left, 3, right);
    lemma_condition(left, 4, right);
    lemma_condition(left, 5, right);
}

/// A bare value counts as true unless it is empty, `false` or `0`.
pub proof fn law_condition_of_a_bare_value(s: Seq<char>)
    requires
        plain(s),
        s.len() > 0 ==> !is_white(s[0]) && !is_white(s.last()),
    ensures
        condition(s) == Some(s.len() > 0 && s != "false"@ && s != "0"@),
{
    let none = Seq::<char>::empty();
    law_trim_takes_the_ends(none, s, none);
    assert(none + s + none =~= s);
    lemma_bare(s, 0);
}

proof fn lemma_bare(s: Seq<char>, k: int)
    requires
        plain(s),
        0 <= k <= 6,
    ensures
        condition_from(s, k) == Some(s.len() > 0 && s != "false"@ && s != "0"@),
    decreases 6 - k,
{
    lemma_operators();
    if k < 6 {
        let pat = operators()[k];
        assert forall|j: int| 0 <= j implies !#[trigger] stands_at(s, pat, j) by {
            if stands_at(s, pat, j) {
                lemma_stands(s, pat, j, 0);
            }
        }
        lemma_nowhere(s, pat, 0);
        lemma_bare(s, k + 1);
    }
}

// ── Any text ─────────────────────────────────────────────────────────────────

/// Whatever the text, its first `{{` and the first `}}` after it make the first
/// placeholder: that one is filled where its trimmed name is bound, and stays
/// as it is otherwise; what follows is filled in the same way. The same goes
/// for the tasks that it refers to.
pub proof fn law_first_placeholder_comes_first(
    s: Seq<char>,
    open: int,
    close: int,
    ctx: Map<Seq<char>, Seq<char>>,
    name: Seq<char>,
)
    requires
        first_stands(s, "{{"@, open),
        first_stands(s.skip(open + 2), "}}"@, close),
    ensures
        ({
            let mid = s.skip(open + 2).take(close);
            let rest = s.skip(open + 2).skip(close + 2);
            let refers = "tasks."@ + name + ".output"@;
            &&& substituted(s, ctx) == s.take(open) + (if ctx.contains_key(trimmed(mid)) {
                ctx[trimmed(mid)]
            } else {
                "{{"@ + mid + "}}"@
            }) + substituted(rest, ctx)
            &&& trimmed(mid) == refers ==> output_refs(s) == seq![name] + output_refs(rest)
            &&& (forall|n: Seq<char>| trimmed(mid) != #[trigger] ("tasks."@ + n + ".output"@)) ==> output_refs(s)
                == output_refs(rest)
        }),
{
    lemma_braces();
    lemma_first_stands(s, "{{"@, open);
    let tail = s.skip(open + 2);
    lemma_first_stands(tail, "}}"@, close);
    lemma_first_at_skip(s, "}}"@, open + 2, 0);
    let at = open + 2 + close;
    assert(placeholder(s, 0) == Some((open, at)));
    let mid = tail.take(close);
    let rest = tail.skip(close + 2);
    assert(s.subrange(open + 2, at) =~= mid);
    assert(s.subrange(0, open) =~= s.take(open));
    assert(tail.subrange(close, close + 2) == "}}"@);
    assert(s.subrange(open, at + 2) =~= "{{"@ + mid + "}}"@) by {
        assert(s.subrange(open, open + 2) == "{{"@);
        assert(s.subrange(open, at + 2) =~= s.subrange(open, open + 2) + mid + tail.subrange(close, close + 2));
    }
    assert(s.skip(at + 2) =~= rest);
    lemma_substituted_skip(s, at + 2, ctx);
    lemma_refs_skip(s, at + 2);
    lemma_output_ref(trimmed(mid), name);
    if output_ref(trimmed(mid)) is None {
        assert(Seq::<Seq<char>>::empty() + output_refs(rest) =~= output_refs(rest));
    } else {
        let n = output_ref(trimmed(mid))->0;
        let t = trimmed(mid);
        assert(t == "tasks."@ + n + ".output"@);
    }
}

/// A text in which no placeholder is opened, or in which the first one is not
/// closed, stays as it is and refers to nothing.
pub proof fn law_text_without_placeholder_stays(s: Seq<char>, open: int, ctx: Map<Seq<char>, Seq<char>>)
    requires
        nowhere(s, "{{"@) || (first_stands(s, "{{"@, open) && nowhere(s.skip(open + 2), "}}"@)),
    ensures
        substituted(s, ctx) == s,
        output_refs(s) == Seq::<Seq<char>>::empty(),
{
    lemma_braces();
    lemma_first_stands(s, "{{"@, open);
    if !nowhere(s, "{{"@) {
        lemma_first_stands(s.skip(open + 2), "}}"@, 0);
        lemma_first_at_skip(s, "}}"@, open + 2, 0);
    }
    assert(s.skip(0) =~= s);
}

/// The number that a text says, where it fits 64 bits.
pub open spec fn number_in(s: Seq<char>) -> Option<int> {
    match signed_number(s) {
        Some(n) => if i64::MIN <= n <= i64::MAX { Some(n) } else { None },
        None => None,
    }
}

/// Whatever the condition, the first operator of the list `==`, `!=`, `>=`,
/// `<=`, `>`, `<` that it holds decides, at the place where it first stands: the
/// trimmed sides are compared, as texts for the first two and as numbers for the
/// others. One that holds none is a bare value.
pub proof fn law_condition_goes_by_its_first_operator(s: Seq<char>, i: int)
    ensures
        ({
            let t = trimmed(s);
            let left = trimmed(t.take(i));
            let two = trimmed(t.skip(i + 2));
            let one = trimmed(t.skip(i + 1));
            let no_eq = nowhere(t, "=="@);
            let no_ne = no_eq && nowhere(t, "!="@);
            let no_ge = no_ne && nowhere(t, ">="@);
            let no_le = no_ge && nowhere(t, "<="@);
            let no_gt = no_le && nowhere(t, ">"@);
            let none = no_gt && nowhere(t, "<"@);
            let ordered = |right: Seq<char>, holds: spec_fn(int, int) -> bool|
                match (number_in(left), number_in(right)) {
                    (Some(a), Some(b)) => Some(holds(a, b)),
                    _ => None,
                };
            &&& first_stands(t, "=="@, i) ==> condition(s) == Some(left == two)
            &&& no_eq && first_stands(t, "!="@, i) ==> condition(s) == Some(left != two)
            &&& no_ne && first_stands(t, ">="@, i) ==> condition(s) == ordered(two, |a: int, b: int| a >= b)
            &&& no_ge && first_stands(t, "<="@, i) ==> condition(s) == ordered(two, |a: int, b: int| a <= b)
            &&& no_le && first_stands(t, ">"@, i) ==> condition(s) == ordered(one, |a: int, b: int| a > b)
            &&& no_gt && first_stands(t, "<"@, i) ==> condition(s) == ordered(one, |a: int, b: int| a < b)
            &&& none ==> condition(s) == Some(t.len() > 0 && t != "false"@ && t != "0"@)
        }),
{
    let t = trimmed(s);
    reveal_strlit("==");
    reveal_strlit("!=");
    reveal_strlit(">=");
    reveal_strlit("<=");
    reveal_strlit(">");
    reveal_strlit("<");
    lemma_first_stands(t, "=="@, i);
    lemma_first_stands(t, "!="@, i);
    lemma_first_stands(t, ">="@, i);
    lemma_first_stands(t, "<="@, i);
    lemma_first_stands(t, ">"@, i);
    lemma_first_stands(t, "<"@, i);
    reveal_with_fuel(condition_from, 7);
    assert(operators().len() == 6);
}

} // verus!
