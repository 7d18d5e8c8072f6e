//! A map keyed by text: an association list in key order.
use vstd::prelude::*;
use crate::text::{before, lex_lt, same};

verus! {

/// Entries in key order. Where a list holds a key twice, the first one counts.
#[derive(Debug, Clone, PartialEq, Eq)]
pub struct TextMap<V> {
    pub entries: Vec<(String, V)>,
}

/// What a list of entries maps: the first entry of a key counts.
pub open spec fn entries_map<V>(entries: Seq<(String, V)>) -> Map<Seq<char>, V>
    decreases entries.len(),
{
    if entries.len() == 0 {
        Map::empty()
    } else {
        entries_map(entries.drop_first()).insert(entries[0].0@, entries[0].1)
    }
}

/// A map of texts by their views.
pub open spec fn text_values(m: Map<Seq<char>, String>) -> Map<Seq<char>, Seq<char>> {
    m.map_values(|s: String| s@)
}

/// The keys stand in strictly increasing order.
pub open spec fn in_key_order<V>(entries: Seq<(String, V)>) -> bool {
    forall|i: int, j: int|
        0 <= i < j < entries.len() ==> lex_lt(#[trigger] entries[i].0@, #[trigger] entries[j].0@)
}

impl<V> View for TextMap<V> {
    type V = Map<Seq<char>, V>;

    open spec fn view(&self) -> Map<Seq<char>, V> {
        entries_map(self.entries@)
    }
}

proof fn lemma_no_entry<V>(entries: Seq<(String, V)>, k: Seq<char>)
    requires
        forall|i: int| 0 <= i < entries.len() ==> (#[trigger] entries[i]).0@ != k,
    ensures
        !entries_map(entries).contains_key(k),
    decreases entries.len(),
{
    if entries.len() > 0 {
        assert(entries[0].0@ != k);
        assert forall|i: int| 0 <= i < entries.drop_first().len() implies (
        #[trigger] entries.drop_first()[i]).0@ != k by {
            assert(entries[i + 1].0@ != k);
        }
        lemma_no_entry(entries.drop_first(), k);
    }
}

proof fn lemma_first_entry<V>(entries: Seq<(String, V)>, at: int)
    requires
        0 <= at < entries.len(),
        forall|i: int| 0 <= i < at ==> (#[trigger] entries[i]).0@ != entries[at].0@,
    ensures
        entries_map(entries).contains_key(entries[at].0@),
        entries_map(entries)[entries[at].0@] == entries[at].1,
    decreases at,
{
    if at > 0 {
        assert(entries[0].0@ != entries[at].0@);
        let rest = entries.drop_first();
        assert forall|i: int| 0 <= i < at - 1 implies (#[trigger] rest[i]).0@ != rest[at - 1].0@ by {
            assert(entries[i + 1].0@ != entries[at].0@);
        }
        lemma_first_entry(rest, at - 1);
    }
}

proof fn lemma_replace<V>(entries: Seq<(String, V)>, at: int, new: (String, V))
    requires
        0 <= at < entries.len(),
        new.0@ == entries[at].0@,
        forall|i: int| 0 <= i < at ==> (#[trigger] entries[i]).0@ != entries[at].0@,
    ensures
        entries_map(entries.update(at, new)) == entries_map(entries).insert(new.0@, new.1),
    decreases at,
{
    let updated = entries.update(at, new);
    if at == 0 {
        assert(updated.drop_first() =~= entries.drop_first());
    } else {
        let rest = entries.drop_first();
        assert(updated.drop_first() =~= rest.update(at - 1, new));
        assert(entries[0].0@ != entries[at].0@);
        assert forall|i: int| 0 <= i < at - 1 implies (#[trigger] rest[i]).0@ != rest[at - 1].0@ by {
            assert(entries[i + 1].0@ != entries[at].0@);
        }
        lemma_replace(rest, at - 1, new);
    }
    assert(entries_map(updated) =~= entries_map(entries).insert(new.0@, new.1));
}

proof fn lemma_insert<V>(entries: Seq<(String, V)>, at: int, new: (String, V))
    requires
        0 <= at <= entries.len(),
        forall|i: int| 0 <= i < entries.len() ==> (#[trigger] entries[i]).0@ != new.0@,
    ensures
        entries_map(entries.insert(at, new)) == entries_map(entries).insert(new.0@, new.1),
    decreases at,
{
    let grown = entries.insert(at, new);
    if at == 0 {
        assert(grown.drop_first() =~= entries);
    } else {
        let rest = entries.drop_first();
        assert(grown.drop_first() =~= rest.insert(at - 1, new));
        assert(grown[0] == entries[0]);
        assert forall|i: int| 0 <= i < rest.len() implies (#[trigger] rest[i]).0@ != new.0@ by {
            assert(entries[i + 1].0@ != new.0@);
        }
        lemma_insert(rest, at - 1, new);
    }
    assert(entries_map(grown) =~= entries_map(entries).insert(new.0@, new.1));
}

/// Two lists with the same keys in the same places map the same keys, and the
/// values correspond as they do in the lists.
pub proof fn lemma_parallel<V, W>(
    a: Seq<(String, V)>,
    b: Seq<(String, W)>,
    f: spec_fn(Seq<char>, V) -> W,
)
    requires
        a.len() == b.len(),
        forall|i: int|
            0 <= i < a.len() ==> (#[trigger] a[i]).0@ == b[i].0@ && b[i].1 == f(a[i].0@, a[i].1),
    ensures
        entries_map(a).dom() == entries_map(b).dom(),
        forall|k: Seq<char>| #[trigger]
            entries_map(a).contains_key(k) ==> entries_map(b)[k] == f(k, entries_map(a)[k]),
    decreases a.len(),
{
    if a.len() > 0 {
        assert(a[0].0@ == b[0].0@ && b[0].1 == f(a[0].0@, a[0].1));
        assert forall|i: int| 0 <= i < a.drop_first().len() implies (
        #[trigger] a.drop_first()[i]).0@ == b.drop_first()[i].0@ && b.drop_first()[i].1 == f(
            a.drop_first()[i].0@,
            a.drop_first()[i].1,
        ) by {
            assert(a[i + 1].0@ == b[i + 1].0@ && b[i + 1].1 == f(a[i + 1].0@, a[i + 1].1));
        }
        lemma_parallel(a.drop_first(), b.drop_first(), f);
    }
    assert(entries_map(a).dom() =~= entries_map(b).dom());
}

impl TextMap<String> {
    /// A copy with the same entries.
    pub fn duplicate(&self) -> (m: Self)
        ensures
            m.entries@ == self.entries@,
    {
        let mut entries: Vec<(String, String)> = Vec::new();
        let mut i: usize = 0;
        while i < self.entries.len()
            invariant
                i <= self.entries@.len(),
                entries@ == self.entries@.take(i as int),
            decreases self.entries@.len() - i,
        {
            entries.push((self.entries[i].0.clone(), self.entries[i].1.clone()));
            assert(self.entries@.take(i as int + 1) =~= self.entries@.take(i as int).push(
                self.entries@[i as int],
            ));
            i += 1;
        }
        assert(self.entries@.take(self.entries@.len() as int) =~= self.entries@);
        TextMap { entries }
    }
}

impl<V> TextMap<V> {
    pub fn new() -> (m: Self)
        ensures
            m@ == Map::<Seq<char>, V>::empty(),
            in_key_order(m.entries@),
    {
        TextMap { entries: Vec::new() }
    }

    /// The place of the first entry for `key`.
    fn position(&self, key: &str) -> (r: Option<usize>)
        ensures
            match r {
                Some(i) => i < self.entries@.len() && self.entries@[i as int].0@ == key@ && (forall|
                    j: int,
                |
                    0 <= j < i ==> (#[trigger] self.entries@[j]).0@ != key@),
                None => forall|j: int|
                    0 <= j < self.entries@.len() ==> (#[trigger] self.entries@[j]).0@ != key@,
            },
    {
        let mut i: usize = 0;
        while i < self.entries.len()
            invariant
                i <= self.entries@.len(),
                forall|j: int| 0 <= j < i ==> (#[trigger] self.entries@[j]).0@ != key@,
            decreases self.entries@.len() - i,
        {
            if same(self.entries[i].0.as_str(), key) {
                return Some(i);
            }
            i += 1;
        }
        None
    }

    pub fn get(&self, key: &str) -> (r: Option<&V>)
        ensures
            match r {
                Some(v) => self@.contains_key(key@) && self@[key@] == *v,
                None => !self@.contains_key(key@),
            },
    {
        match self.position(key) {
            Some(i) => {
                proof {
                    lemma_first_entry(self.entries@, i as int);
                }
                Some(&self.entries[i].1)
            },
            None => {
                proof {
                    lemma_no_entry(self.entries@, key@);
                }
                None
            },
        }
    }

    pub fn contains_key(&self, key: &str) -> (r: bool)
        ensures
            r == self@.contains_key(key@),
    {
        self.get(key).is_some()
    }

    pub fn is_empty(&self) -> (r: bool)
        ensures
            r == (self@ == Map::<Seq<char>, V>::empty()),
    {
        if self.entries.len() == 0 {
            true
        } else {
            assert(self@.contains_key(self.entries@[0].0@));
            false
        }
    }

    /// Binds `key` to `value`, in place of an earlier binding.
    pub fn insert(&mut self, key: String, value: V)
        ensures
            final(self)@ == old(self)@.insert(key@, value),
            in_key_order(old(self).entries@) ==> in_key_order(final(self).entries@),
    {
        match self.position(key.as_str()) {
            Some(i) => {
                proof {
                    lemma_replace(self.entries@, i as int, (key, value));
                }
                let ghost was = self.entries@;
                self.entries[i] = (key, value);
                proof {
                    if in_key_order(was) {
                        assert forall|a: int, b: int|
                            0 <= a < b < self.entries@.len() implies lex_lt(
                            #[trigger] self.entries@[a].0@,
                            #[trigger] self.entries@[b].0@,
                        ) by {
                            assert(lex_lt(was[a].0@, was[b].0@));
                        }
                    }
                }
            },
            None => {
                let mut at: usize = 0;
                while at < self.entries.len() && before(
                    self.entries[at].0.as_str(),
                    key.as_str(),
                )
                    invariant
                        at <= self.entries@.len(),
                        forall|j: int|
                            0 <= j < at ==> lex_lt((#[trigger] self.entries@[j]).0@, key@),
                    decreases self.entries@.len() - at,
                {
                    at += 1;
                }
                let ghost was = self.entries@;
                proof {
                    lemma_insert(was, at as int, (key, value));
                    if at < was.len() {
                        crate::text::lemma_lex_total(was[at as int].0@, key@);
                    }
                }
                let ghost k = key@;
                self.entries.insert(at, (key, value));
                proof {
                    if in_key_order(was) {
                        let now = self.entries@;
                        assert forall|a: int, b: int| 0 <= a < b < now.len() implies lex_lt(
                            #[trigger] now[a].0@,
                            #[trigger] now[b].0@,
                        ) by {
                            let oa = if a < at { a } else { a - 1 };
                            let ob = if b < at { b } else { b - 1 };
                            if a != at && b != at {
                                assert(lex_lt(was[oa].0@, was[ob].0@));
                            } else if b == at {
                                assert(lex_lt(was[a].0@, k));
                            } else {
                                assert(lex_lt(k, was[at as int].0@));
                                if ob > at {
                                    assert(lex_lt(was[at as int].0@, was[ob].0@));
                                    crate::text::lemma_lex_transitive(
                                        k,
                                        was[at as int].0@,
                                        was[ob].0@,
                                    );
                                }
                            }
                        }
                    }
                }
            },
        }
    }
}

} // verus!
