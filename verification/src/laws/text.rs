//! Texts, numbers, durations and names: what reading them gives, and what
//! writing them leaves to read.
use vstd::prelude::*;
use vstd::utf8::encode_utf8;
use crate::decimal::{
    all_digits, decimal, digit_char, digits_value, signed_decimal, signed_number, unsigned_number,
};
use crate::duration::{duration, number_part, DurationFault};
use crate::labels::{label_char, label_fault, LabelFault, LabelKind};
use crate::text::{
    blank, first_at, http_scheme, is_white, lex_lt, split_on, stands_at, trimmed, trimmed_end,
    trimmed_start, upper_char,
};

verus! {

// ── Order ────────────────────────────────────────────────────────────────────

/// Texts are ordered as in a dictionary: what they share in front does not
/// count, the first difference decides, and the shorter one comes first where
/// there is none.
pub proof fn law_texts_sort_as_in_a_dictionary(p: Seq<char>, a: Seq<char>, b: Seq<char>)
    ensures
        lex_lt(p + a, p + b) == lex_lt(a, b),
        a.len() > 0 && b.len() > 0 && a[0] != b[0] ==> lex_lt(a, b) == (a[0] < b[0]),
        a.len() == 0 ==> lex_lt(a, b) == (b.len() > 0),
        b.len() == 0 ==> !lex_lt(a, b),
    decreases p.len(),
{
    if p.len() == 0 {
        assert(p + a =~= a && p + b =~= b);
    } else {
        law_texts_sort_as_in_a_dictionary(p.drop_first(), a, b);
        assert((p + a).drop_first() =~= p.drop_first() + a);
        assert((p + b).drop_first() =~= p.drop_first() + b);
        assert((p + a)[0] == (p + b)[0]);
    }
}

// ── White space ──────────────────────────────────────────────────────────────

/// White space is what Unicode calls so: in ASCII the space and the controls
/// from tab to carriage return, and beyond it the next-line control and the
/// spaces and separators of Unicode.
pub proof fn law_white_space(c: char)
    ensures
        (c as u32) < 128 ==> (is_white(c) <==> c == ' ' || (9 <= c as u32 && c as u32 <= 13)),
        (c as u32) >= 128 ==> (is_white(c) <==> c as u32 == 133 || c as u32 == 160 || c as u32 == 5760 || (8192
            <= c as u32 && c as u32 <= 8202) || c as u32 == 8232 || c as u32 == 8233 || c as u32 == 8239 || c as u32
            == 8287 || c as u32 == 12288),
{
}

proof fn lemma_trimmed_start(pre: Seq<char>, rest: Seq<char>)
    requires
        forall|i: int| 0 <= i < pre.len() ==> is_white(#[trigger] pre[i]),
        rest.len() > 0 ==> !is_white(rest[0]),
    ensures
        trimmed_start(pre + rest) == rest,
    decreases pre.len(),
{
    if pre.len() == 0 {
        assert(pre + rest =~= rest);
    } else {
        assert((pre + rest).drop_first() =~= pre.drop_first() + rest);
        assert forall|i: int| 0 <= i < pre.drop_first().len() implies is_white(
            #[trigger] pre.drop_first()[i],
        ) by {
            assert(is_white(pre[i + 1]));
        }
        lemma_trimmed_start(pre.drop_first(), rest);
    }
}

proof fn lemma_trimmed_end(rest: Seq<char>, post: Seq<char>)
    requires
        forall|i: int| 0 <= i < post.len() ==> is_white(#[trigger] post[i]),
        rest.len() > 0 ==> !is_white(rest.last()),
    ensures
        trimmed_end(rest + post) == rest,
    decreases post.len(),
{
    if post.len() == 0 {
        assert(rest + post =~= rest);
    } else {
        let s = rest + post;
        assert(s.last() == post[post.len() - 1]);
        assert(s.drop_last() =~= rest + post.drop_last());
        assert forall|i: int| 0 <= i < post.drop_last().len() implies is_white(
            #[trigger] post.drop_last()[i],
        ) by {
            assert(is_white(post[i]));
        }
        lemma_trimmed_end(rest, post.drop_last());
    }
}

/// Trimming takes the white space off both ends and nothing else. A text is
/// blank where nothing is left.
pub proof fn law_trim_takes_the_ends(pre: Seq<char>, core: Seq<char>, post: Seq<char>)
    requires
        forall|i: int| 0 <= i < pre.len() ==> is_white(#[trigger] pre[i]),
        forall|i: int| 0 <= i < post.len() ==> is_white(#[trigger] post[i]),
        core.len() > 0 ==> !is_white(core[0]) && !is_white(core.last()),
    ensures
        trimmed(pre + core + post) == core,
        blank(pre + core + post) == (core.len() == 0),
{
    let rest = core + post;
    assert(pre + core + post =~= pre + rest);
    if core.len() == 0 {
        let all = pre + post;
        let none = Seq::<char>::empty();
        assert(pre + core + post =~= all + none);
        lemma_trimmed_start(all, none);
    } else {
        lemma_trimmed_start(pre, rest);
        lemma_trimmed_end(core, post);
    }
}

// ── Searching and splitting ──────────────────────────────────────────────────

/// A search finds the first place at which the pattern stands, and fails only
/// where it stands nowhere.
pub proof fn law_search_finds_the_first(s: Seq<char>, pat: Seq<char>, from: int)
    requires
        0 <= from,
    ensures
        match first_at(s, pat, from) {
            Some(i) => from <= i && i + pat.len() <= s.len() && s.subrange(i, i + pat.len()) == pat
                && forall|j: int|
                from <= j < i ==> #[trigger] s.subrange(j, j + pat.len()) != pat,
            None => forall|j: int|
                from <= j && j + pat.len() <= s.len() ==> #[trigger] s.subrange(j, j + pat.len()) != pat,
        },
    decreases s.len() - from + 1,
{
    if from + pat.len() <= s.len() && !stands_at(s, pat, from) {
        law_search_finds_the_first(s, pat, from + 1);
    }
}

/// The parts with the separator between them.
pub open spec fn joined(parts: Seq<Seq<char>>, sep: Seq<char>) -> Seq<char>
    decreases parts.len(),
{
    if parts.len() == 0 {
        Seq::empty()
    } else if parts.len() == 1 {
        parts[0]
    } else {
        parts[0] + sep + joined(parts.drop_first(), sep)
    }
}

/// Splitting is undone by joining, and no part holds the separator.
pub proof fn law_split_parts_join_again(s: Seq<char>, sep: Seq<char>)
    requires
        sep.len() > 0,
    ensures
        split_on(s, sep).len() > 0,
        joined(split_on(s, sep), sep) == s,
        forall|k: int, j: int|
            0 <= k < split_on(s, sep).len() && 0 <= j && j + sep.len() <= split_on(s, sep)[k].len()
                ==> #[trigger] split_on(s, sep)[k].subrange(j, j + sep.len()) != sep,
    decreases s.len(),
{
    law_search_finds_the_first(s, sep, 0);
    let parts = split_on(s, sep);
    match first_at(s, sep, 0) {
        Some(i) => {
            let rest = s.skip(i + sep.len());
            law_split_parts_join_again(rest, sep);
            let more = split_on(rest, sep);
            assert(parts.drop_first() =~= more);
            assert(s =~= s.take(i) + sep + rest);
            assert forall|k: int, j: int|
                0 <= k < parts.len() && 0 <= j && j + sep.len() <= parts[k].len() implies #[trigger] parts[k].subrange(
                j,
                j + sep.len(),
            ) != sep by {
                if k == 0 {
                    assert(parts[0].subrange(j, j + sep.len()) =~= s.subrange(j, j + sep.len()));
                } else {
                    assert(parts[k] == more[k - 1]);
                }
            }
        },
        None => {
            assert(parts.len() == 1);
        },
    }
}

/// A URL counts as HTTP by its scheme: `http` or `https`.
pub proof fn law_http_by_scheme(rest: Seq<char>)
    ensures
        http_scheme("http://"@ + rest),
        http_scheme("https://"@ + rest),
        forall|s: Seq<char>| #[trigger]
            http_scheme(s) ==> (s.len() >= 7 && s.take(7) == "http://"@) || (s.len() >= 8 && s.take(8)
                == "https://"@),
{
    reveal_strlit("http://");
    reveal_strlit("https://");
    assert forall|s: Seq<char>| #[trigger] http_scheme(s) implies (s.len() >= 7 && s.take(7) == "http://"@) || (
    s.len() >= 8 && s.take(8) == "https://"@) by {
        if "http://"@.is_prefix_of(s) {
            assert(s.take(7) =~= s.subrange(0, 7));
        } else {
            assert(s.take(8) =~= s.subrange(0, 8));
        }
    }
}

/// Upper-casing moves the letters from `a` to `z` and no other character.
pub proof fn law_upper_case(c: char)
    ensures
        'a' <= c <= 'z' ==> upper_char(c) as u32 + 32 == c as u32,
        !('a' <= c <= 'z') ==> upper_char(c) == c,
{
}

// ── Numbers ──────────────────────────────────────────────────────────────────

proof fn lemma_digit_char(d: nat)
    requires
        d < 10,
    ensures
        '0' <= digit_char(d) <= '9',
        digit_char(d) as nat == 48 + d,
{
}

/// A number written in decimal is digits, without a leading zero unless it is
/// zero itself.
pub proof fn law_decimal_is_digits(n: nat)
    ensures
        decimal(n).len() > 0,
        forall|i: int| 0 <= i < decimal(n).len() ==> '0' <= #[trigger] decimal(n)[i] && decimal(n)[i] <= '9',
        n > 0 ==> decimal(n)[0] != '0',
        n < 10 ==> decimal(n).len() == 1,
    decreases n,
{
    if n < 10 {
        lemma_digit_char(n);
    } else {
        law_decimal_is_digits(n / 10);
        lemma_digit_char(n % 10);
        assert forall|i: int| 0 <= i < decimal(n).len() implies '0' <= #[trigger] decimal(n)[i]
            && decimal(n)[i] <= '9' by {
            if i < decimal(n).len() - 1 {
                assert(decimal(n)[i] == decimal(n / 10)[i]);
            }
        }
        assert(decimal(n)[0] == decimal(n / 10)[0]);
    }
}

proof fn lemma_decimal_value(n: nat)
    ensures
        digits_value(decimal(n)) == n,
        all_digits(decimal(n)),
    decreases n,
{
    law_decimal_is_digits(n);
    if n < 10 {
        lemma_digit_char(n);
        assert(decimal(n).drop_last() =~= Seq::<char>::empty());
        assert(digits_value(decimal(n).drop_last()) == 0);
        assert(decimal(n).last() == digit_char(n));
    } else {
        lemma_decimal_value(n / 10);
        lemma_digit_char(n % 10);
        assert(decimal(n).drop_last() =~= decimal(n / 10));
        assert(decimal(n).last() == digit_char(n % 10));
    }
}

/// A number is read back as it was written, with or without a plus sign.
pub proof fn law_numbers_read_back(n: nat, i: int)
    ensures
        unsigned_number(decimal(n)) == Some(n),
        unsigned_number(seq!['+'] + decimal(n)) == Some(n),
        signed_number(signed_decimal(i)) == Some(i),
{
    lemma_decimal_value(n);
    law_decimal_is_digits(n);
    assert((seq!['+'] + decimal(n)).drop_first() =~= decimal(n));
    let m = if i < 0 { (-i) as nat } else { i as nat };
    lemma_decimal_value(m);
    law_decimal_is_digits(m);
    assert((seq!['-'] + decimal(m)).drop_first() =~= decimal(m));
}

/// What holds a character that is neither a digit nor a leading sign is no
/// number, and neither is an empty text or a sign alone.
pub proof fn law_no_number_without_digits(s: Seq<char>, i: int)
    requires
        s.len() == 0 || (s.len() == 1 && (s[0] == '+' || s[0] == '-')) || (0 <= i < s.len() && !('0'
            <= s[i] <= '9') && !(i == 0 && (s[0] == '+' || s[0] == '-'))),
    ensures
        unsigned_number(s) is None,
        signed_number(s) is None,
{
    if s.len() > 1 {
        if s[0] == '+' || s[0] == '-' {
            assert(s.drop_first()[i - 1] == s[i]);
        }
        if s[0] == '-' {
            assert(!crate::text::digit(s[0]));
        }
    }
}

// ── Durations ────────────────────────────────────────────────────────────────

/// The seconds of one unit.
pub open spec fn seconds_in(unit: char) -> nat {
    match unit {
        's' => 1,
        'm' => 60,
        'h' => 60 * 60,
        'd' => 24 * 60 * 60,
        _ => 0,
    }
}

proof fn lemma_number_is_trimmed(n: nat)
    ensures
        trimmed(decimal(n)) == decimal(n),
{
    law_decimal_is_digits(n);
    let none = Seq::<char>::empty();
    law_trim_takes_the_ends(none, decimal(n), none);
    assert(none + decimal(n) + none =~= decimal(n));
}

/// A duration is a number and its unit: seconds, minutes, hours or days, and
/// seconds where it names none. Zero is refused, and so is what does not fit.
pub proof fn law_duration_counts_its_unit(n: nat, unit: char)
    requires
        unit == 's' || unit == 'm' || unit == 'h' || unit == 'd',
        n <= u64::MAX,
    ensures
        duration(decimal(n).push(unit)) == (if n == 0 {
            Err::<nat, DurationFault>(DurationFault::Zero)
        } else if n * seconds_in(unit) > u64::MAX {
            Err(DurationFault::TooLarge)
        } else {
            Ok((n * seconds_in(unit)) as nat)
        }),
        duration(decimal(n)) == (if n == 0 {
            Err::<nat, DurationFault>(DurationFault::Zero)
        } else {
            Ok(n)
        }),
{
    law_decimal_is_digits(n);
    lemma_number_is_trimmed(n);
    law_numbers_read_back(n, 0);
    let s = decimal(n).push(unit);
    let none = Seq::<char>::empty();
    law_trim_takes_the_ends(none, s, none);
    assert(none + s + none =~= s);
    assert(s.drop_last() =~= decimal(n));
    assert(decimal(n).last() == decimal(n)[decimal(n).len() - 1]);
}

/// White space around a duration does not count. A blank one is refused as
/// empty, and one that holds no number as malformed.
pub proof fn law_duration_needs_a_number(s: Seq<char>)
    ensures
        blank(s) <==> duration(s) == Err::<nat, DurationFault>(DurationFault::Empty),
        !blank(s) && unsigned_number(number_part(trimmed(s))) is None ==> duration(s) == Err::<
            nat,
            DurationFault,
        >(DurationFault::Malformed),
        duration(s) matches Ok(v) ==> 0 < v <= u64::MAX,
{
}

// ── Names ────────────────────────────────────────────────────────────────────

/// A runner class and a pool are 1 to 64 lower-case letters, digits, hyphens
/// and underscores; `other` is reserved among the classes.
pub proof fn law_class_and_pool_names(s: Seq<char>)
    ensures
        ({
            let fits = 1 <= s.len() && encode_utf8(s).len() <= 64 && forall|i: int|
                0 <= i < s.len() ==> 'a' <= #[trigger] s[i] <= 'z' || '0' <= s[i] <= '9' || s[i] == '-'
                    || s[i] == '_';
            &&& label_fault(LabelKind::Pool, s) is None <==> fits
            &&& label_fault(LabelKind::RunnerClass, s) is None <==> fits && s != "other"@
            &&& s.len() > 0 && encode_utf8(s).len() <= 64 ==> !(label_fault(LabelKind::Pool, s) matches Some(
                LabelFault::BadLength { .. },
            ))
        }),
{
    lemma_other_is_plain();
    if 1 <= s.len() && encode_utf8(s).len() <= 64 {
        if label_fault(LabelKind::Pool, s) is None {
            assert forall|i: int| 0 <= i < s.len() implies 'a' <= #[trigger] s[i] <= 'z' || '0' <= s[i] <= '9'
                || s[i] == '-' || s[i] == '_' by {
                assert(crate::labels::label_char(LabelKind::Pool, s[i]));
            }
        }
        if label_fault(LabelKind::RunnerClass, s) is None {
            assert forall|i: int| 0 <= i < s.len() implies 'a' <= #[trigger] s[i] <= 'z' || '0' <= s[i] <= '9'
                || s[i] == '-' || s[i] == '_' by {
                assert(crate::labels::label_char(LabelKind::RunnerClass, s[i]));
            }
        }
    }
}

proof fn lemma_other_is_plain()
    ensures
        "other"@.len() == 5,
{
    reveal_strlit("other");
}

/// A tag is 1 to 64 letters, digits, hyphens, underscores and dots.
pub proof fn law_tag_names(s: Seq<char>)
    ensures
        label_fault(LabelKind::Tag, s) is None <==> 1 <= s.len() && encode_utf8(s).len() <= 64
            && forall|i: int|
            0 <= i < s.len() ==> 'a' <= #[trigger] s[i] <= 'z' || 'A' <= s[i] <= 'Z' || '0' <= s[i] <= '9'
                || s[i] == '-' || s[i] == '_' || s[i] == '.',
{
    if 1 <= s.len() && encode_utf8(s).len() <= 64 && label_fault(LabelKind::Tag, s) is None {
        assert forall|i: int| 0 <= i < s.len() implies 'a' <= #[trigger] s[i] <= 'z' || 'A' <= s[i] <= 'Z'
            || '0' <= s[i] <= '9' || s[i] == '-' || s[i] == '_' || s[i] == '.' by {
            assert(crate::labels::label_char(LabelKind::Tag, s[i]));
        }
    }
}

/// A dataset URI is 1 to 512 characters of any script, without white space and
/// control characters.
pub proof fn law_dataset_uris(s: Seq<char>)
    ensures
        label_fault(LabelKind::Dataset, s) is None <==> 1 <= s.len() <= 512 && forall|i: int|
            0 <= i < s.len() ==> !is_white(#[trigger] s[i]) && s[i] > '\u{1f}' && !('\u{7f}' <= s[i]
                <= '\u{9f}'),
        label_fault(LabelKind::Dataset, s) matches Some(LabelFault::BadLength { length }) ==> (s.len()
            == 0 || s.len() > 512),
{
    if 1 <= s.len() <= 512 && label_fault(LabelKind::Dataset, s) is None {
        assert forall|i: int| 0 <= i < s.len() implies !is_white(#[trigger] s[i]) && s[i] > '\u{1f}' && !(
        '\u{7f}' <= s[i] <= '\u{9f}') by {
            assert(crate::labels::label_char(LabelKind::Dataset, s[i]));
        }
    }
}

/// A further digit makes a number ten times as large, and adds its value.
pub proof fn law_number_grows_by_its_digits(s: Seq<char>, c: char)
    requires
        s.len() > 0,
        forall|i: int| 0 <= i < s.len() ==> '0' <= #[trigger] s[i] <= '9',
        '0' <= c <= '9',
    ensures
        unsigned_number(s) is Some,
        unsigned_number(s.push(c)) == Some((unsigned_number(s)->0 * 10 + (c as nat - 48)) as nat),
        unsigned_number(seq![c]) == Some((c as nat - 48) as nat),
        unsigned_number(seq!['+'] + s) == unsigned_number(s),
        signed_number(s) == Some(unsigned_number(s)->0 as int),
        signed_number(seq!['+'] + s) == Some(unsigned_number(s)->0 as int),
        signed_number(seq!['-'] + s) == Some(-(unsigned_number(s)->0 as int)),
{
    let t = s.push(c);
    let one = seq![c];
    assert(t.drop_last() =~= s);
    assert(one.drop_last() =~= Seq::<char>::empty());
    assert((seq!['-'] + s).drop_first() =~= s);
    assert((seq!['+'] + s).drop_first() =~= s);
    assert(all_digits(s));
    assert(all_digits(t));
    assert(all_digits(one));
    reveal_with_fuel(digits_value, 2);
    assert('0' <= s[0]);
}

/// A name is refused for its length, or else for a character, or else because
/// it is reserved; the length that is reported is its own. A dataset may have
/// 512 characters, any other name 64 bytes.
pub proof fn law_name_is_refused_for_a_reason(kind: LabelKind, s: Seq<char>)
    ensures
        ({
            let long = if kind == LabelKind::Dataset { s.len() } else { encode_utf8(s).len() };
            let most: nat = if kind == LabelKind::Dataset { 512 } else { 64 };
            let bad = exists|i: int| 0 <= i < s.len() && !(match kind {
                LabelKind::Dataset => !is_white(#[trigger] s[i]) && s[i] > '\u{1f}' && !('\u{7f}' <= s[i]
                    <= '\u{9f}'),
                LabelKind::Tag => 'a' <= s[i] <= 'z' || 'A' <= s[i] <= 'Z' || '0' <= s[i] <= '9' || s[i] == '-'
                    || s[i] == '_' || s[i] == '.',
                _ => 'a' <= s[i] <= 'z' || '0' <= s[i] <= '9' || s[i] == '-' || s[i] == '_',
            });
            label_fault(kind, s) == (if s.len() == 0 || long > most {
                Some(LabelFault::BadLength { length: long as usize })
            } else if bad {
                Some(LabelFault::BadCharacter)
            } else if kind == LabelKind::RunnerClass && s == "other"@ {
                Some(LabelFault::Reserved)
            } else {
                None
            })
        }),
{
    let bad = exists|i: int| 0 <= i < s.len() && !label_char(kind, #[trigger] s[i]);
    if bad {
        let i = choose|i: int| 0 <= i < s.len() && !label_char(kind, #[trigger] s[i]);
        assert(!label_char(kind, s[i]));
    }
}

/// Whatever the duration, what stands before its unit is its number, white space
/// or not, and without a unit it counts seconds. It is refused where it is
/// empty, no number of 64 bits, zero, or too many seconds.
pub proof fn law_duration_is_number_and_unit(s: Seq<char>)
    requires
        trimmed(s).len() > 0,
    ensures
        ({
            let t = trimmed(s);
            let unit = t.last();
            let named = unit == 's' || unit == 'm' || unit == 'h' || unit == 'd';
            let number = unsigned_number(trimmed(if named { t.drop_last() } else { t }));
            let each: nat = if unit == 'm' { 60 } else if unit == 'h' { 3600 } else if unit == 'd' { 86400 } else {
                1
            };
            duration(s) == (match number {
                Some(n) => if n > u64::MAX {
                    Err::<nat, DurationFault>(DurationFault::Malformed)
                } else if n == 0 {
                    Err(DurationFault::Zero)
                } else if n * each > u64::MAX {
                    Err(DurationFault::TooLarge)
                } else {
                    Ok(n * each)
                },
                None => Err(DurationFault::Malformed),
            })
        }),
{
}

} // verus!
