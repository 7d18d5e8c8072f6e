//! Memoized results, dead letters, settings and environments.
use vstd::prelude::*;
use vstd::string::*;
use crate::order::{
    copy_at, find_row, first, lemma_first, limit_of, limited, ordered, places, rows_at, select, Keep, Order,
};
use crate::rows::{
    opt, views, DeadLetter, DeadLetterView, Environment, EnvironmentSecret, EnvironmentSecretView,
    EnvironmentView, Memo, MemoView, Row, Setting, SettingView,
};
use crate::sources::{offset_upserted, upsert_source_offset};
use crate::store::{Store, StoreView};
use crate::table::{amended, any, delete_all, lemma_any_same, lemma_count_positive, update_any, Rule};
use crate::text::{before, lex_lt, same};
use crate::time::{elapsed, elapsed_seconds, parse_rfc3339, rfc3339_value, Timestamp};

verus! {

// ── Memoized results ─────────────────────────────────────────────────────────

/// The memo of a task's result under a key.
pub open spec fn memo_for(m: MemoView, workflow: Seq<char>, task: Seq<char>, key: Seq<char>) -> bool {
    m.workflow_name == workflow && m.task_name == task && m.cache_key == key
}

/// A memo young enough to be used. One whose stamp cannot be read is none.
pub open spec fn memo_usable(m: MemoView, max_age: Option<u64>, now: Timestamp) -> bool {
    match max_age {
        None => true,
        Some(max) => match rfc3339_value(m.created_at) {
            Ok((secs, nanos)) => elapsed(now, Timestamp { secs: secs as i64, nanos: nanos as u32 })
                <= max,
            Err(_) => false,
        },
    }
}

/// What a lookup finds.
pub open spec fn memoized(
    memos: Seq<MemoView>,
    workflow: Seq<char>,
    task: Seq<char>,
    key: Seq<char>,
    max_age: Option<u64>,
    now: Timestamp,
) -> Option<Seq<char>> {
    match first(memos, |m: MemoView| memo_for(m, workflow, task, key)) {
        Some(m) => if memo_usable(m, max_age, now) {
            Some(match m.output {
                Some(o) => o,
                None => Seq::empty(),
            })
        } else {
            None
        },
        None => None,
    }
}

struct MemoFor<'a> {
    workflow: &'a str,
    task: &'a str,
    key: &'a str,
}

impl<'a> Keep<Memo> for MemoFor<'a> {
    closed spec fn keeps(&self, r: MemoView) -> bool {
        memo_for(r, self.workflow@, self.task@, self.key@)
    }

    fn keep(&self, row: &Memo) -> (r: bool) {
        same(row.workflow_name.as_str(), self.workflow) && same(row.task_name.as_str(), self.task)
            && same(row.cache_key.as_str(), self.key)
    }
}

/// The memoized output of a task under a key, if it is at most `max_age_secs` old.
pub fn memo_lookup(
    db: &Store,
    workflow: &str,
    task: &str,
    key: &str,
    max_age_secs: Option<u64>,
    now: Timestamp,
) -> (r: Option<String>)
    requires
        now.valid(),
    ensures
        opt(r) == memoized(db@.memos, workflow@, task@, key@, max_age_secs, now),
{
    let keep: MemoFor = MemoFor { workflow, task, key };
    let found: Option<usize> = find_row(&db.memos, &keep);
    assert((|m: MemoView| memo_for(m, workflow@, task@, key@)) =~= (|m: MemoView| keep.keeps(m)));
    match found {
        Some(i) => {
            assert(db@.memos[i as int] == db.memos@[i as int]@);
            match max_age_secs {
                Some(max) => match parse_rfc3339(db.memos[i].created_at.as_str()) {
                    Ok(created) => {
                        let age: i64 = elapsed_seconds(now, created);
                        if age as i128 > max as i128 {
                            return None;
                        }
                    },
                    Err(_) => {
                        return None;
                    },
                },
                None => {},
            }
            let out: String = match &db.memos[i].output {
                Some(o) => o.clone(),
                None => String::new(),
            };
            assert(db.memos@[i as int].output is None ==> out@ =~= Seq::<char>::empty());
            Some(out)
        },
        None => None,
    }
}

/// The memos with one result stored.
pub open spec fn memo_stored(
    memos: Seq<MemoView>,
    workflow: Seq<char>,
    task: Seq<char>,
    key: Seq<char>,
    output: Seq<char>,
    now: Seq<char>,
) -> Seq<MemoView> {
    if any(memos, |m: MemoView| memo_for(m, workflow, task, key)) {
        amended(
            memos,
            |m: MemoView| memo_for(m, workflow, task, key),
            |m: MemoView| MemoView { output: Some(output), created_at: now, ..m },
        )
    } else {
        memos.push(
            MemoView {
                workflow_name: workflow,
                task_name: task,
                cache_key: key,
                output: Some(output),
                created_at: now,
            },
        )
    }
}

struct StoreMemo<'a> {
    workflow: &'a str,
    task: &'a str,
    key: &'a str,
    output: &'a str,
    now: &'a str,
}

impl<'a> Rule<Memo> for StoreMemo<'a> {
    closed spec fn hits(&self, m: MemoView) -> bool {
        memo_for(m, self.workflow@, self.task@, self.key@)
    }

    closed spec fn image(&self, m: MemoView) -> MemoView {
        MemoView { output: Some(self.output@), created_at: self.now@, ..m }
    }

    closed spec fn fits(&self, m: MemoView) -> bool {
        true
    }

    fn apply(&self, row: &mut Memo) -> (hit: bool) {
        if same(row.workflow_name.as_str(), self.workflow) && same(row.task_name.as_str(), self.task)
            && same(row.cache_key.as_str(), self.key) {
            row.output = Some(self.output.to_owned());
            row.created_at = self.now.to_owned();
            true
        } else {
            false
        }
    }
}

/// Stores a task's output under a key; the latest one stays.
pub fn memo_store(db: &mut Store, workflow: &str, task: &str, key: &str, output: &str, now: &str)
    ensures
        final(db)@ == (StoreView {
            memos: memo_stored(old(db)@.memos, workflow@, task@, key@, output@, now@),
            ..old(db)@
        }),
{
    let ghost was = db@;
    let ghost hits = |m: MemoView| memo_for(m, workflow@, task@, key@);
    let rule: StoreMemo = StoreMemo { workflow, task, key, output, now };
    proof {
        lemma_any_same(was.memos, |m: MemoView| rule.hits(m), hits);
    }
    let hit: bool = update_any(&mut db.memos, &rule);
    assert(db@.memos =~= amended(
        was.memos,
        hits,
        |m: MemoView| MemoView { output: Some(output@), created_at: now@, ..m },
    ));
    if !hit {
        assert(db@.memos =~= was.memos);
        let row: Memo = Memo {
            workflow_name: workflow.to_owned(),
            task_name: task.to_owned(),
            cache_key: key.to_owned(),
            output: Some(output.to_owned()),
            created_at: now.to_owned(),
        };
        let ghost r = row@;
        db.memos.push(row);
        assert(db@.memos =~= was.memos.push(r));
    }
}

/// A lookup reads back what was stored last, as long as that is no older than
/// the lookup allows.
pub proof fn law_memo_read_back(
    memos: Seq<MemoView>,
    workflow: Seq<char>,
    task: Seq<char>,
    key: Seq<char>,
    output: Seq<char>,
    stamp: Seq<char>,
    max_age: Option<u64>,
    now: Timestamp,
)
    requires
        max_age matches Some(max) ==> (rfc3339_value(stamp) matches Ok((secs, nanos)) && elapsed(
            now,
            Timestamp { secs: secs as i64, nanos: nanos as u32 },
        ) <= max),
    ensures
        memoized(
            memo_stored(memos, workflow, task, key, output, stamp),
            workflow,
            task,
            key,
            max_age,
            now,
        ) == Some(output),
{
    let hits = |m: MemoView| memo_for(m, workflow, task, key);
    let after = memo_stored(memos, workflow, task, key, output, stamp);
    lemma_first(after, hits);
    if any(memos, hits) {
        let i = choose|i: int| 0 <= i < memos.len() && hits(#[trigger] memos[i]);
        assert(hits(after[i]));
    } else {
        assert(hits(after[memos.len() as int]));
    }
    let v = first(after, hits)->0;
    let k = choose|k: int| 0 <= k < after.len() && after[k] == v;
    if k < memos.len() {
        assert(hits(after[k]));
        assert(hits(memos[k]));
        assert(any(memos, hits));
    }
}

// ── Dead letters ─────────────────────────────────────────────────────────────

/// A submission that could not become a run.
pub open spec fn dead_letter(
    id: Seq<char>,
    payload: Seq<char>,
    error: Seq<char>,
    source: Seq<char>,
    failures: int,
    now: Seq<char>,
) -> DeadLetterView {
    DeadLetterView { id, payload, error, source, failures, first_seen_at: now, last_error_at: now }
}

fn push_dead_letter(
    letters: &mut Vec<DeadLetter>,
    id: &str,
    payload: &str,
    error: &str,
    source: &str,
    failures: i64,
    now: &str,
)
    ensures
        views(final(letters)@) == views(old(letters)@).push(
            dead_letter(id@, payload@, error@, source@, failures as int, now@),
        ),
{
    let ghost was = views(letters@);
    let row: DeadLetter = DeadLetter {
        id: id.to_owned(),
        payload: payload.to_owned(),
        error: error.to_owned(),
        source: source.to_owned(),
        failures,
        first_seen_at: now.to_owned(),
        last_error_at: now.to_owned(),
    };
    let ghost r = row@;
    letters.push(row);
    assert(views(letters@) =~= was.push(r));
}

/// Parks a submission that could not become a run.
pub fn record_dead_letter(
    db: &mut Store,
    id: &str,
    payload: &str,
    error: &str,
    source: &str,
    failures: i64,
    now: &str,
)
    ensures
        final(db)@ == (StoreView {
            dead_letters: old(db)@.dead_letters.push(
                dead_letter(id@, payload@, error@, source@, failures as int, now@),
            ),
            ..old(db)@
        }),
{
    push_dead_letter(&mut db.dead_letters, id, payload, error, source, failures, now);
}

/// [`record_dead_letter`] that also commits the position of its source, so that
/// the submission is not read again.
pub fn record_dead_letter_with_offset(
    db: &mut Store,
    id: &str,
    payload: &str,
    error: &str,
    source: &str,
    failures: i64,
    position: &str,
    now: &str,
)
    ensures
        final(db)@ == (StoreView {
            dead_letters: old(db)@.dead_letters.push(
                dead_letter(id@, payload@, error@, source@, failures as int, now@),
            ),
            offsets: offset_upserted(old(db)@.offsets, source@, position@, now@),
            ..old(db)@
        }),
{
    push_dead_letter(&mut db.dead_letters, id, payload, error, source, failures, now);
    upsert_source_offset(&mut db.offsets, source, position, now);
}

struct EveryLetter {
}

impl Keep<DeadLetter> for EveryLetter {
    closed spec fn keeps(&self, r: DeadLetterView) -> bool {
        true
    }

    fn keep(&self, row: &DeadLetter) -> (r: bool) {
        true
    }
}

struct LatestLetter {}

impl Order<DeadLetter> for LatestLetter {
    closed spec fn lt(&self, a: DeadLetterView, b: DeadLetterView) -> bool {
        lex_lt(b.first_seen_at, a.first_seen_at)
    }

    fn sorts_before(&self, a: &DeadLetter, b: &DeadLetter) -> (r: bool) {
        before(b.first_seen_at.as_str(), a.first_seen_at.as_str())
    }
}

/// The dead letters, the newest first.
pub fn list_dead_letters(db: &Store, limit: i64) -> (out: Vec<DeadLetter>)
    ensures
        views(out@) == rows_at(
            db@.dead_letters,
            limited(
                ordered(
                    db@.dead_letters,
                    |r: DeadLetterView| true,
                    |a: DeadLetterView, b: DeadLetterView| lex_lt(b.first_seen_at, a.first_seen_at),
                    db@.dead_letters.len() as int,
                ),
                limit as int,
            ),
        ),
{
    let keep: EveryLetter = EveryLetter {};
    let order: LatestLetter = LatestLetter {};
    let q: Vec<usize> = select(&db.dead_letters, &keep, &order);
    let len: usize = limit_of(q.len(), limit);
    proof {
        assert((|r: DeadLetterView| true) =~= (|r: DeadLetterView| keep.keeps(r)));
        assert((|a: DeadLetterView, b: DeadLetterView| lex_lt(b.first_seen_at, a.first_seen_at)) =~= (
            |a: DeadLetterView, b: DeadLetterView| order.lt(a, b)
        ));
        assert(limited(places(q@), limit as int) =~= places(q@).take(len as int));
    }
    copy_at(&db.dead_letters, &q, len)
}

struct LetterNamed<'a> {
    id: &'a str,
}

impl<'a> Keep<DeadLetter> for LetterNamed<'a> {
    closed spec fn keeps(&self, r: DeadLetterView) -> bool {
        r.id == self.id@
    }

    fn keep(&self, row: &DeadLetter) -> (r: bool) {
        same(row.id.as_str(), self.id)
    }
}

/// The dead letter with this id.
pub fn get_dead_letter(db: &Store, id: &str) -> (r: Option<DeadLetter>)
    ensures
        (match r {
            Some(r) => Some(r@),
            None => None,
        }) == first(db@.dead_letters, |r: DeadLetterView| r.id == id@),
{
    let keep: LetterNamed = LetterNamed { id };
    let found: Option<usize> = find_row(&db.dead_letters, &keep);
    assert((|r: DeadLetterView| r.id == id@) =~= (|r: DeadLetterView| keep.keeps(r)));
    match found {
        Some(i) => {
            assert(db@.dead_letters[i as int] == db.dead_letters@[i as int]@);
            Some(db.dead_letters[i].duplicate())
        },
        None => None,
    }
}

/// Deletes a dead letter; false where there is none with this id.
pub fn delete_dead_letter(db: &mut Store, id: &str) -> (deleted: bool)
    ensures
        deleted == any(old(db)@.dead_letters, |r: DeadLetterView| r.id == id@),
        final(db)@ == (StoreView {
            dead_letters: old(db)@.dead_letters.filter(|r: DeadLetterView| !(r.id == id@)),
            ..old(db)@
        }),
{
    let ghost was = db@;
    let doomed: LetterNamed = LetterNamed { id };
    let n: u64 = delete_all(&mut db.dead_letters, &doomed);
    proof {
        assert((|r: DeadLetterView| !(r.id == id@)) =~= (|r: DeadLetterView| !doomed.keeps(r)));
        assert((|r: DeadLetterView| r.id == id@) =~= (|r: DeadLetterView| doomed.keeps(r)));
        lemma_count_positive(was.dead_letters, |r: DeadLetterView| r.id == id@);
    }
    n > 0
}

/// A filter that lets every element through changes nothing.
proof fn lemma_filter_all(rows: Seq<DeadLetterView>, p: spec_fn(DeadLetterView) -> bool)
    requires
        forall|i: int| 0 <= i < rows.len() ==> p(#[trigger] rows[i]),
    ensures
        rows.filter(p) == rows,
    decreases rows.len(),
{
    reveal(Seq::filter);
    if rows.len() > 0 {
        let rest = rows.drop_last();
        assert forall|i: int| 0 <= i < rest.len() implies p(#[trigger] rest[i]) by {
            assert(rest[i] == rows[i]);
        }
        lemma_filter_all(rest, p);
        assert(p(rows[rows.len() - 1]));
        assert(rest.push(rows.last()) =~= rows);
    }
}

/// A dead letter under a fresh id is found under it, and deleting it leaves the
/// letters as they were before it came.
pub proof fn law_dead_letter_comes_and_goes(letters: Seq<DeadLetterView>, new: DeadLetterView)
    requires
        !any(letters, |r: DeadLetterView| r.id == new.id),
    ensures
        first(letters.push(new), |r: DeadLetterView| r.id == new.id) == Some(new),
        letters.push(new).filter(|r: DeadLetterView| !(r.id == new.id)) == letters,
{
    let p = |r: DeadLetterView| r.id == new.id;
    let others = |r: DeadLetterView| !(r.id == new.id);
    let more = letters.push(new);
    lemma_first(letters, p);
    assert(more.drop_last() =~= letters);
    assert forall|i: int| 0 <= i < letters.len() implies others(#[trigger] letters[i]) by {
        assert(!p(letters[i]));
    }
    lemma_filter_all(letters, others);
    reveal(Seq::filter);
}

// ── Settings ─────────────────────────────────────────────────────────────────

struct SettingNamed<'a> {
    key: &'a str,
}

impl<'a> Keep<Setting> for SettingNamed<'a> {
    closed spec fn keeps(&self, r: SettingView) -> bool {
        r.key == self.key@
    }

    fn keep(&self, row: &Setting) -> (r: bool) {
        same(row.key.as_str(), self.key)
    }
}

/// The value of a setting.
pub fn ui_setting(db: &Store, key: &str) -> (r: Option<String>)
    ensures
        opt(r) == (match first(db@.settings, |r: SettingView| r.key == key@) {
            Some(r) => Some(r.value),
            None => None,
        }),
{
    let keep: SettingNamed = SettingNamed { key };
    let found: Option<usize> = find_row(&db.settings, &keep);
    assert((|r: SettingView| r.key == key@) =~= (|r: SettingView| keep.keeps(r)));
    match found {
        Some(i) => {
            assert(db@.settings[i as int] == db.settings@[i as int]@);
            Some(db.settings[i].value.clone())
        },
        None => None,
    }
}

// ── Environments ─────────────────────────────────────────────────────────────

/// What serde_json reads from a text as an object of texts: its members by key,
/// or the text of its complaint.
pub uninterp spec fn json_texts(json: Seq<char>) -> Result<Seq<(Seq<char>, Seq<char>)>, Seq<char>>;

/// Text members.
pub open spec fn members(v: Seq<(String, String)>) -> Seq<(Seq<char>, Seq<char>)> {
    v.map_values(|m: (String, String)| (m.0@, m.1@))
}

/// `serde_json::from_str` into a `BTreeMap<String, String>`: the members of a
/// JSON object of texts, or the text of serde_json's error.
#[verifier::external_body]
pub(crate) fn parse_text_members(json: &str) -> (r: Result<Vec<(String, String)>, String>)
    ensures
        match r {
            Ok(v) => json_texts(json@) == Ok::<Seq<(Seq<char>, Seq<char>)>, Seq<char>>(members(v@)),
            Err(e) => json_texts(json@) == Err::<Seq<(Seq<char>, Seq<char>)>, Seq<char>>(e@),
        },
{
    match serde_json::from_str::<std::collections::BTreeMap<String, String>>(json) {
        Ok(map) => Ok(map.into_iter().collect()),
        Err(e) => Err(e.to_string()),
    }
}

/// The complaint about an environment whose variables cannot be read.
pub open spec fn unreadable(name: Seq<char>, complaint: Seq<char>) -> Seq<char> {
    "environment '"@ + name + "' variables unparseable: "@ + complaint
}

/// What is read of an environment's variables, by what its JSON text came to.
pub fn variables_from(name: &str, read: Result<Vec<(String, String)>, String>) -> (r: Result<
    Vec<(String, String)>,
    String,
>)
    ensures
        match r {
            Ok(v) => read is Ok && v == read->Ok_0,
            Err(e) => read is Err && e@ == unreadable(name@, read->Err_0@),
        },
{
    match read {
        Ok(v) => Ok(v),
        Err(complaint) => {
            let mut text: String = "environment '".to_owned();
            text.append(name);
            text.append("' variables unparseable: ");
            text.append(complaint.as_str());
            Err(text)
        },
    }
}

struct EnvironmentNamed<'a> {
    name: &'a str,
}

impl<'a> Keep<Environment> for EnvironmentNamed<'a> {
    closed spec fn keeps(&self, r: EnvironmentView) -> bool {
        r.name == self.name@
    }

    fn keep(&self, row: &Environment) -> (r: bool) {
        same(row.name.as_str(), self.name)
    }
}

/// The variables of an environment, by name; `None` where there is no such
/// environment.
pub fn environment_vars(db: &Store, name: &str) -> (r: Result<Option<Vec<(String, String)>>, String>)
    ensures
        match first(db@.environments, |e: EnvironmentView| e.name == name@) {
            None => r is Ok && r->Ok_0 is None,
            Some(e) => match json_texts(e.variables) {
                Ok(v) => r is Ok && r->Ok_0 is Some && members(r->Ok_0->0@) == v,
                Err(c) => r is Err && r->Err_0@ == unreadable(name@, c),
            },
        },
{
    let keep: EnvironmentNamed = EnvironmentNamed { name };
    let found: Option<usize> = find_row(&db.environments, &keep);
    assert((|e: EnvironmentView| e.name == name@) =~= (|e: EnvironmentView| keep.keeps(e)));
    match found {
        Some(i) => {
            assert(db@.environments[i as int] == db.environments@[i as int]@);
            match variables_from(name, parse_text_members(db.environments[i].variables.as_str())) {
                Ok(v) => Ok(Some(v)),
                Err(e) => Err(e),
            }
        },
        None => Ok(None),
    }
}

/// A secret of an environment of this name.
pub open spec fn secret_of(
    environments: Seq<EnvironmentView>,
    s: EnvironmentSecretView,
    env: Seq<char>,
    name: Seq<char>,
) -> bool {
    s.name == name && any(environments, |e: EnvironmentView| e.id == s.environment_id && e.name == env)
}

struct EnvironmentWith<'a> {
    id: &'a str,
    name: &'a str,
}

impl<'a> Keep<Environment> for EnvironmentWith<'a> {
    closed spec fn keeps(&self, r: EnvironmentView) -> bool {
        r.id == self.id@ && r.name == self.name@
    }

    fn keep(&self, row: &Environment) -> (r: bool) {
        same(row.id.as_str(), self.id) && same(row.name.as_str(), self.name)
    }
}

struct SecretOf<'a> {
    environments: &'a Vec<Environment>,
    env: &'a str,
    name: &'a str,
}

impl<'a> Keep<EnvironmentSecret> for SecretOf<'a> {
    closed spec fn keeps(&self, s: EnvironmentSecretView) -> bool {
        secret_of(views(self.environments@), s, self.env@, self.name@)
    }

    fn keep(&self, row: &EnvironmentSecret) -> (r: bool) {
        let keep: EnvironmentWith = EnvironmentWith {
            id: row.environment_id.as_str(),
            name: self.env,
        };
        let found: Option<usize> = find_row(self.environments, &keep);
        proof {
            let p = |e: EnvironmentView| e.id == row@.environment_id && e.name == self.env@;
            assert(p =~= (|e: EnvironmentView| keep.keeps(e)));
            lemma_first(views(self.environments@), p);
        }
        same(row.name.as_str(), self.name) && found.is_some()
    }
}

/// The stored ciphertext of a secret of an environment.
pub fn environment_secret(db: &Store, env_name: &str, secret_name: &str) -> (r: Option<String>)
    ensures
        opt(r) == (match first(
            db@.secrets,
            |r: EnvironmentSecretView| secret_of(db@.environments, r, env_name@, secret_name@),
        ) {
            Some(r) => Some(r.ciphertext),
            None => None,
        }),
{
    let keep: SecretOf = SecretOf { environments: &db.environments, env: env_name, name: secret_name };
    let found: Option<usize> = find_row(&db.secrets, &keep);
    assert((|r: EnvironmentSecretView| secret_of(db@.environments, r, env_name@, secret_name@)) =~= (
        |r: EnvironmentSecretView| keep.keeps(r)
    ));
    match found {
        Some(i) => {
            assert(db@.secrets[i as int] == db.secrets@[i as int]@);
            Some(db.secrets[i].ciphertext.clone())
        },
        None => None,
    }
}

} // verus!
