//! Dataset triggers: workflows that start when the datasets they subscribe to
//! are updated.
use vstd::prelude::*;
use vstd::string::*;
use crate::dag::contains_text;
use crate::datasets::{high_water, water_mark};
use crate::order::{
    copy_at, find_row, first, lemma_first, lemma_ordered_members, ordered, places, rows_at, select,
    Keep, Order,
};
use crate::parks::text_pairs;
use crate::rows::{
    opt, views, DatasetEvent, DatasetEventView, DatasetTrigger, DatasetTriggerView, RegisteredWorkflow,
    RegisteredWorkflowView,
};
use crate::store::{Store, StoreView};
use crate::sweeps::{folded, lemma_turn, taken};
use crate::table::{
    amended, any, count, delete_all, lemma_any_same, lemma_count_same, update_all, update_any, Rule,
};
use crate::text::{before, lex_lt, same, texts};

verus! {

// ── Subscriptions ────────────────────────────────────────────────────────────

/// The names and texts of all registered workflows.
pub fn list_registered_workflows(db: &Store) -> (out: Vec<(String, String)>)
    ensures
        text_pairs(out@) == db@.workflows.map_values(|w: RegisteredWorkflowView| (w.name, w.spec)),
{
    let mut out: Vec<(String, String)> = Vec::new();
    let mut i: usize = 0;
    while i < db.workflows.len()
        invariant
            i <= db.workflows@.len(),
            out@.len() == i,
            forall|k: int|
                0 <= k < i ==> (#[trigger] out@[k]).0@ == db@.workflows[k].name && out@[k].1@
                    == db@.workflows[k].spec,
        decreases db.workflows@.len() - i,
    {
        assert(db@.workflows[i as int] == db.workflows@[i as int]@);
        out.push((db.workflows[i].name.clone(), db.workflows[i].spec.clone()));
        i += 1;
    }
    assert(text_pairs(out@) =~= db@.workflows.map_values(
        |w: RegisteredWorkflowView| (w.name, w.spec),
    ));
    out
}

struct WorkflowNamed<'a> {
    name: &'a str,
}

impl<'a> Keep<RegisteredWorkflow> for WorkflowNamed<'a> {
    closed spec fn keeps(&self, w: RegisteredWorkflowView) -> bool {
        w.name == self.name@
    }

    fn keep(&self, row: &RegisteredWorkflow) -> (r: bool) {
        same(row.name.as_str(), self.name)
    }
}

/// The text of the workflow registered under `name`.
pub fn workflow_spec_by_name(db: &Store, name: &str) -> (r: Option<String>)
    ensures
        opt(r) == (match first(db@.workflows, |w: RegisteredWorkflowView| w.name == name@) {
            Some(w) => Some(w.spec),
            None => None,
        }),
{
    let keep: WorkflowNamed = WorkflowNamed { name };
    let found: Option<usize> = find_row(&db.workflows, &keep);
    assert((|w: RegisteredWorkflowView| w.name == name@) =~= (|w: RegisteredWorkflowView|
        keep.keeps(w)));
    match found {
        Some(i) => {
            assert(db@.workflows[i as int] == db.workflows@[i as int]@);
            Some(db.workflows[i].spec.clone())
        },
        None => None,
    }
}

/// A subscription of a workflow to a dataset.
pub open spec fn subscription(t: DatasetTriggerView, workflow: Seq<char>, uri: Seq<char>) -> bool {
    t.workflow_name == workflow && t.uri == uri
}

/// The subscriptions with one more, which starts at the ledger's present mark; one
/// that is there already keeps its cursor.
pub open spec fn subscribed(
    triggers: Seq<DatasetTriggerView>,
    events: Seq<DatasetEventView>,
    workflow: Seq<char>,
    uri: Seq<char>,
    mode: Seq<char>,
) -> Seq<DatasetTriggerView> {
    if any(triggers, |t: DatasetTriggerView| subscription(t, workflow, uri)) {
        amended(
            triggers,
            |t: DatasetTriggerView| subscription(t, workflow, uri),
            |t: DatasetTriggerView| DatasetTriggerView { mode, ..t },
        )
    } else {
        triggers.push(
            DatasetTriggerView {
                workflow_name: workflow,
                uri,
                cursor: high_water(events, uri),
                mode,
                last_fired_at: None,
                last_fired_run_id: None,
            },
        )
    }
}

/// The subscriptions with the first `n` of `uris` added.
pub open spec fn all_subscribed(
    triggers: Seq<DatasetTriggerView>,
    events: Seq<DatasetEventView>,
    workflow: Seq<char>,
    uris: Seq<Seq<char>>,
    mode: Seq<char>,
    n: int,
) -> Seq<DatasetTriggerView>
    decreases n,
{
    if n <= 0 {
        triggers
    } else {
        subscribed(
            all_subscribed(triggers, events, workflow, uris, mode, n - 1),
            events,
            workflow,
            uris[n - 1],
            mode,
        )
    }
}

/// The subscriptions once a workflow subscribes to exactly `uris`.
pub open spec fn synced(
    triggers: Seq<DatasetTriggerView>,
    events: Seq<DatasetEventView>,
    workflow: Seq<char>,
    uris: Seq<Seq<char>>,
    mode: Seq<char>,
) -> Seq<DatasetTriggerView> {
    all_subscribed(
        triggers.filter(
            |t: DatasetTriggerView| !(t.workflow_name == workflow && !uris.contains(t.uri)),
        ),
        events,
        workflow,
        uris,
        mode,
        uris.len() as int,
    )
}

struct Undeclared<'a> {
    workflow: &'a str,
    uris: &'a Vec<String>,
}

impl<'a> Keep<DatasetTrigger> for Undeclared<'a> {
    closed spec fn keeps(&self, t: DatasetTriggerView) -> bool {
        t.workflow_name == self.workflow@ && !texts(self.uris@).contains(t.uri)
    }

    fn keep(&self, row: &DatasetTrigger) -> (r: bool) {
        same(row.workflow_name.as_str(), self.workflow) && !contains_text(self.uris, row.uri.as_str())
    }
}

struct SetMode<'a> {
    workflow: &'a str,
    uri: &'a str,
    mode: &'a str,
}

impl<'a> Rule<DatasetTrigger> for SetMode<'a> {
    closed spec fn hits(&self, t: DatasetTriggerView) -> bool {
        subscription(t, self.workflow@, self.uri@)
    }

    closed spec fn image(&self, t: DatasetTriggerView) -> DatasetTriggerView {
        DatasetTriggerView { mode: self.mode@, ..t }
    }

    closed spec fn fits(&self, t: DatasetTriggerView) -> bool {
        true
    }

    fn apply(&self, row: &mut DatasetTrigger) -> (hit: bool) {
        if same(row.workflow_name.as_str(), self.workflow) && same(row.uri.as_str(), self.uri) {
            row.mode = self.mode.to_owned();
            true
        } else {
            false
        }
    }
}

fn subscribe(
    triggers: &mut Vec<DatasetTrigger>,
    events: &Vec<DatasetEvent>,
    workflow: &str,
    uri: &str,
    mode: &str,
)
    ensures
        views(final(triggers)@) == subscribed(
            views(old(triggers)@),
            views(events@),
            workflow@,
            uri@,
            mode@,
        ),
{
    let ghost was = views(triggers@);
    let ghost hits = |t: DatasetTriggerView| subscription(t, workflow@, uri@);
    let rule: SetMode = SetMode { workflow, uri, mode };
    proof {
        lemma_any_same(was, |t: DatasetTriggerView| rule.hits(t), hits);
    }
    let hit: bool = update_any(triggers, &rule);
    assert(views(triggers@) =~= amended(
        was,
        hits,
        |t: DatasetTriggerView| DatasetTriggerView { mode: mode@, ..t },
    ));
    if !hit {
        assert(views(triggers@) =~= was);
        let row: DatasetTrigger = DatasetTrigger {
            workflow_name: workflow.to_owned(),
            uri: uri.to_owned(),
            cursor: water_mark(events, uri),
            mode: mode.to_owned(),
            last_fired_at: None,
            last_fired_run_id: None,
        };
        let ghost r = row@;
        triggers.push(row);
        assert(views(triggers@) =~= was.push(r));
    }
}

/// Lets a workflow subscribe to exactly `uris`. A new subscription waits for
/// updates that come after it; one that stays keeps its cursor.
pub fn sync_dataset_triggers(db: &mut Store, workflow_name: &str, uris: &Vec<String>, mode: &str)
    ensures
        final(db)@ == (StoreView {
            triggers: synced(
                old(db)@.triggers,
                old(db)@.dataset_events,
                workflow_name@,
                texts(uris@),
                mode@,
            ),
            ..old(db)@
        }),
{
    let ghost was = db@;
    let doomed: Undeclared = Undeclared { workflow: workflow_name, uris };
    let _ = delete_all(&mut db.triggers, &doomed);
    let ghost p = |t: DatasetTriggerView|
        !(t.workflow_name == workflow_name@ && !texts(uris@).contains(t.uri));
    assert(p =~= (|t: DatasetTriggerView| !doomed.keeps(t)));
    let ghost rest = was.triggers.filter(p);
    let mut i: usize = 0;
    while i < uris.len()
        invariant
            i <= uris@.len(),
            db@ == (StoreView {
                triggers: all_subscribed(
                    rest,
                    was.dataset_events,
                    workflow_name@,
                    texts(uris@),
                    mode@,
                    i as int,
                ),
                ..was
            }),
        decreases uris@.len() - i,
    {
        assert(texts(uris@)[i as int] == uris@[i as int]@);
        subscribe(&mut db.triggers, &db.dataset_events, workflow_name, uris[i].as_str(), mode);
        i += 1;
    }
}

/// The subscriptions whose workflow is registered.
pub open spec fn pruned(
    triggers: Seq<DatasetTriggerView>,
    workflows: Seq<RegisteredWorkflowView>,
) -> Seq<DatasetTriggerView> {
    triggers.filter(
        |t: DatasetTriggerView| any(workflows, |w: RegisteredWorkflowView| w.name == t.workflow_name),
    )
}

struct Orphan<'a> {
    workflows: &'a Vec<RegisteredWorkflow>,
}

impl<'a> Keep<DatasetTrigger> for Orphan<'a> {
    closed spec fn keeps(&self, t: DatasetTriggerView) -> bool {
        !any(views(self.workflows@), |w: RegisteredWorkflowView| w.name == t.workflow_name)
    }

    fn keep(&self, row: &DatasetTrigger) -> (r: bool) {
        let keep: WorkflowNamed = WorkflowNamed { name: row.workflow_name.as_str() };
        let found: Option<usize> = find_row(self.workflows, &keep);
        proof {
            let p = |w: RegisteredWorkflowView| w.name == row@.workflow_name;
            assert(p =~= (|w: RegisteredWorkflowView| keep.keeps(w)));
            lemma_first(views(self.workflows@), p);
        }
        found.is_none()
    }
}

/// Drops the subscriptions of workflows that are no longer registered, and says
/// how many there were.
pub fn prune_dataset_triggers(db: &mut Store) -> (n: u64)
    ensures
        n == count(
            old(db)@.triggers,
            |t: DatasetTriggerView|
                !any(old(db)@.workflows, |w: RegisteredWorkflowView| w.name == t.workflow_name),
        ),
        final(db)@ == (StoreView {
            triggers: pruned(old(db)@.triggers, old(db)@.workflows),
            ..old(db)@
        }),
{
    let ghost was = db@;
    let doomed: Orphan = Orphan { workflows: &db.workflows };
    let n: u64 = delete_all(&mut db.triggers, &doomed);
    proof {
        let known = |t: DatasetTriggerView|
            any(was.workflows, |w: RegisteredWorkflowView| w.name == t.workflow_name);
        assert(known =~= (|t: DatasetTriggerView| !doomed.keeps(t)));
        lemma_count_same(
            was.triggers,
            |t: DatasetTriggerView| doomed.keeps(t),
            |t: DatasetTriggerView|
                !any(was.workflows, |w: RegisteredWorkflowView| w.name == t.workflow_name),
        );
    }
    n
}

// ── Firing ───────────────────────────────────────────────────────────────────

/// A fire of a workflow: the subscriptions whose datasets are fresh, each with
/// its cursor and the mark it moves to.
#[derive(Debug, Clone)]
pub struct DatasetFire {
    pub workflow_name: String,
    pub trigger_uri: String,
    pub advanced: Vec<(String, i64, i64)>,
}

#[verifier::ext_equal]
pub struct DatasetFireView {
    pub workflow_name: Seq<char>,
    pub trigger_uri: Seq<char>,
    pub advanced: Seq<(Seq<char>, int, int)>,
}

/// Cursor moves: the dataset, the cursor before, and the mark after.
pub open spec fn moves(v: Seq<(String, i64, i64)>) -> Seq<(Seq<char>, int, int)> {
    v.map_values(|m: (String, i64, i64)| (m.0@, m.1 as int, m.2 as int))
}

impl View for DatasetFire {
    type V = DatasetFireView;

    open spec fn view(&self) -> DatasetFireView {
        DatasetFireView {
            workflow_name: self.workflow_name@,
            trigger_uri: self.trigger_uri@,
            advanced: moves(self.advanced@),
        }
    }
}

/// The dataset has news for the subscription.
pub open spec fn fresh(events: Seq<DatasetEventView>, t: DatasetTriggerView) -> bool {
    high_water(events, t.uri) > t.cursor
}

/// A fresh subscription of a workflow.
pub open spec fn fresh_for(
    events: Seq<DatasetEventView>,
    t: DatasetTriggerView,
    workflow: Seq<char>,
) -> bool {
    t.workflow_name == workflow && fresh(events, t)
}

/// Any of the workflow's subscriptions wants all of them fresh.
pub open spec fn wants_all(triggers: Seq<DatasetTriggerView>, workflow: Seq<char>) -> bool {
    any(triggers, |t: DatasetTriggerView| t.workflow_name == workflow && t.mode == "all"@)
}

/// A stale subscription of a workflow.
pub open spec fn stale_for(
    events: Seq<DatasetEventView>,
    t: DatasetTriggerView,
    workflow: Seq<char>,
) -> bool {
    t.workflow_name == workflow && !fresh(events, t)
}

/// The workflow is due: one of its datasets has news, or each of them where it
/// wants all.
pub open spec fn fire_due(db: StoreView, workflow: Seq<char>) -> bool {
    &&& any(db.triggers, |t: DatasetTriggerView| fresh_for(db.dataset_events, t, workflow))
    &&& wants_all(db.triggers, workflow) ==> !any(
        db.triggers,
        |t: DatasetTriggerView| stale_for(db.dataset_events, t, workflow),
    )
}

/// The places of a workflow's fresh subscriptions, by dataset.
pub open spec fn fresh_places(db: StoreView, workflow: Seq<char>) -> Seq<int> {
    ordered(
        db.triggers,
        |t: DatasetTriggerView| fresh_for(db.dataset_events, t, workflow),
        |a: DatasetTriggerView, b: DatasetTriggerView| lex_lt(a.uri, b.uri),
        db.triggers.len() as int,
    )
}

/// What moves where a workflow fires.
pub open spec fn fire_moves(db: StoreView, workflow: Seq<char>) -> Seq<(Seq<char>, int, int)> {
    fresh_places(db, workflow).map_values(
        |i: int|
            (
                db.triggers[i].uri,
                db.triggers[i].cursor,
                high_water(db.dataset_events, db.triggers[i].uri),
            ),
    )
}

/// The fire of a workflow.
pub open spec fn fire_of(db: StoreView, workflow: Seq<char>) -> DatasetFireView {
    DatasetFireView {
        workflow_name: workflow,
        trigger_uri: db.triggers[fresh_places(db, workflow)[0]].uri,
        advanced: fire_moves(db, workflow),
    }
}

/// The places of the subscriptions, by workflow.
pub open spec fn by_workflow(triggers: Seq<DatasetTriggerView>) -> Seq<int> {
    ordered(
        triggers,
        |t: DatasetTriggerView| true,
        |a: DatasetTriggerView, b: DatasetTriggerView| lex_lt(a.workflow_name, b.workflow_name),
        triggers.len() as int,
    )
}

/// The workflows among the first `n` places of a list by workflow, each once.
pub open spec fn workflows_in(triggers: Seq<DatasetTriggerView>, q: Seq<int>, n: int) -> Seq<Seq<char>>
    decreases n,
{
    if n <= 0 {
        Seq::empty()
    } else {
        let rest = workflows_in(triggers, q, n - 1);
        let name = triggers[q[n - 1]].workflow_name;
        if n >= 2 && triggers[q[n - 2]].workflow_name == name {
            rest
        } else {
            rest.push(name)
        }
    }
}

/// The fires of the workflows that are due among the first `n` of a list.
pub open spec fn fires_in(db: StoreView, names: Seq<Seq<char>>, n: int) -> Seq<DatasetFireView>
    decreases n,
{
    if n <= 0 {
        Seq::empty()
    } else {
        let rest = fires_in(db, names, n - 1);
        if fire_due(db, names[n - 1]) {
            rest.push(fire_of(db, names[n - 1]))
        } else {
            rest
        }
    }
}

/// The fires that are due, by workflow.
pub open spec fn due_fires(db: StoreView) -> Seq<DatasetFireView> {
    let q = by_workflow(db.triggers);
    let names = workflows_in(db.triggers, q, q.len() as int);
    fires_in(db, names, names.len() as int)
}

struct EveryTrigger {}

impl Keep<DatasetTrigger> for EveryTrigger {
    closed spec fn keeps(&self, t: DatasetTriggerView) -> bool {
        true
    }

    fn keep(&self, row: &DatasetTrigger) -> (r: bool) {
        true
    }
}

struct ByWorkflow {}

impl Order<DatasetTrigger> for ByWorkflow {
    closed spec fn lt(&self, a: DatasetTriggerView, b: DatasetTriggerView) -> bool {
        lex_lt(a.workflow_name, b.workflow_name)
    }

    fn sorts_before(&self, a: &DatasetTrigger, b: &DatasetTrigger) -> (r: bool) {
        before(a.workflow_name.as_str(), b.workflow_name.as_str())
    }
}

struct ByUri {}

impl Order<DatasetTrigger> for ByUri {
    closed spec fn lt(&self, a: DatasetTriggerView, b: DatasetTriggerView) -> bool {
        lex_lt(a.uri, b.uri)
    }

    fn sorts_before(&self, a: &DatasetTrigger, b: &DatasetTrigger) -> (r: bool) {
        before(a.uri.as_str(), b.uri.as_str())
    }
}

struct FreshFor<'a> {
    events: &'a Vec<DatasetEvent>,
    workflow: &'a str,
}

impl<'a> Keep<DatasetTrigger> for FreshFor<'a> {
    closed spec fn keeps(&self, t: DatasetTriggerView) -> bool {
        fresh_for(views(self.events@), t, self.workflow@)
    }

    fn keep(&self, row: &DatasetTrigger) -> (r: bool) {
        same(row.workflow_name.as_str(), self.workflow) && water_mark(self.events, row.uri.as_str())
            > row.cursor
    }
}

struct StaleFor<'a> {
    events: &'a Vec<DatasetEvent>,
    workflow: &'a str,
}

impl<'a> Keep<DatasetTrigger> for StaleFor<'a> {
    closed spec fn keeps(&self, t: DatasetTriggerView) -> bool {
        stale_for(views(self.events@), t, self.workflow@)
    }

    fn keep(&self, row: &DatasetTrigger) -> (r: bool) {
        same(row.workflow_name.as_str(), self.workflow) && !(water_mark(
            self.events,
            row.uri.as_str(),
        ) > row.cursor)
    }
}

struct WantsAll<'a> {
    workflow: &'a str,
}

impl<'a> Keep<DatasetTrigger> for WantsAll<'a> {
    closed spec fn keeps(&self, t: DatasetTriggerView) -> bool {
        t.workflow_name == self.workflow@ && t.mode == "all"@
    }

    fn keep(&self, row: &DatasetTrigger) -> (r: bool) {
        same(row.workflow_name.as_str(), self.workflow) && same(row.mode.as_str(), "all")
    }
}

fn is_fire_due(db: &Store, workflow: &str) -> (r: bool)
    ensures
        r == fire_due(db@, workflow@),
{
    let news: FreshFor = FreshFor { events: &db.dataset_events, workflow };
    let stale: StaleFor = StaleFor { events: &db.dataset_events, workflow };
    let all: WantsAll = WantsAll { workflow };
    let has_news: bool = find_row(&db.triggers, &news).is_some();
    let has_stale: bool = find_row(&db.triggers, &stale).is_some();
    let whole: bool = find_row(&db.triggers, &all).is_some();
    proof {
        let a = |t: DatasetTriggerView| fresh_for(db@.dataset_events, t, workflow@);
        let b = |t: DatasetTriggerView| stale_for(db@.dataset_events, t, workflow@);
        let c = |t: DatasetTriggerView| t.workflow_name == workflow@ && t.mode == "all"@;
        assert(a =~= (|t: DatasetTriggerView| news.keeps(t)));
        assert(b =~= (|t: DatasetTriggerView| stale.keeps(t)));
        assert(c =~= (|t: DatasetTriggerView| all.keeps(t)));
        lemma_first(db@.triggers, a);
        lemma_first(db@.triggers, b);
        lemma_first(db@.triggers, c);
    }
    has_news && !(whole && has_stale)
}

/// The fire of a workflow that is due.
fn build_fire(db: &Store, workflow: &str) -> (f: DatasetFire)
    requires
        fire_due(db@, workflow@),
    ensures
        f@ == fire_of(db@, workflow@),
{
    let ghost view = db@;
    let news: FreshFor = FreshFor { events: &db.dataset_events, workflow };
    let order: ByUri = ByUri {};
    let q: Vec<usize> = select(&db.triggers, &news, &order);
    let ghost f = |i: int|
        (
            view.triggers[i].uri,
            view.triggers[i].cursor,
            high_water(view.dataset_events, view.triggers[i].uri),
        );
    proof {
        let p = |t: DatasetTriggerView| fresh_for(view.dataset_events, t, workflow@);
        let lt = |a: DatasetTriggerView, b: DatasetTriggerView| lex_lt(a.uri, b.uri);
        assert(p =~= (|t: DatasetTriggerView| news.keeps(t)));
        assert(lt =~= (|a: DatasetTriggerView, b: DatasetTriggerView| order.lt(a, b)));
        lemma_ordered_members(view.triggers, p, lt, view.triggers.len() as int);
        let i = choose|i: int| 0 <= i < view.triggers.len() && p(#[trigger] view.triggers[i]);
        assert(places(q@).contains(i));
    }
    let mut advanced: Vec<(String, i64, i64)> = Vec::new();
    let mut k: usize = 0;
    assert(moves(advanced@) =~= places(q@).take(0).map_values(f));
    while k < q.len()
        invariant
            k <= q@.len(),
            view == db@,
            f == (|i: int|
                (
                    view.triggers[i].uri,
                    view.triggers[i].cursor,
                    high_water(view.dataset_events, view.triggers[i].uri),
                )),
            forall|x: int| 0 <= x < q@.len() ==> #[trigger] q@[x] < db.triggers@.len(),
            moves(advanced@) == places(q@).take(k as int).map_values(f),
        decreases q@.len() - k,
    {
        let i: usize = q[k];
        let row: &DatasetTrigger = &db.triggers[i];
        assert(view.triggers[i as int] == row@);
        let mark: i64 = water_mark(&db.dataset_events, row.uri.as_str());
        let ghost told = moves(advanced@);
        advanced.push((row.uri.clone(), row.cursor, mark));
        assert(moves(advanced@) =~= told.push(f(i as int)));
        assert(places(q@).take(k as int + 1) =~= places(q@).take(k as int).push(i as int));
        assert(places(q@).take(k as int + 1).map_values(f) =~= places(q@).take(k as int).map_values(
            f,
        ).push(f(i as int)));
        k += 1;
    }
    assert(places(q@).take(q@.len() as int) =~= places(q@));
    assert(places(q@)[0] == q@[0]);
    assert(view.triggers[q@[0] as int] == db.triggers@[q@[0] as int]@);
    let trigger_uri: String = db.triggers[q[0]].uri.clone();
    assert(moves(advanced@) =~= fire_moves(view, workflow@));
    DatasetFire { workflow_name: workflow.to_owned(), trigger_uri, advanced }
}

/// The workflows that are due to fire, with the cursor moves that claim each
/// fire: a workflow is due where one of its datasets has an update past its
/// cursor, or all of them where it wants all.
pub fn due_dataset_fires(db: &Store) -> (out: Vec<DatasetFire>)
    ensures
        views(out@) == due_fires(db@),
{
    let ghost view = db@;
    let keep: EveryTrigger = EveryTrigger {};
    let order: ByWorkflow = ByWorkflow {};
    let q: Vec<usize> = select(&db.triggers, &keep, &order);
    let ghost line = by_workflow(view.triggers);
    proof {
        assert((|t: DatasetTriggerView| true) =~= (|t: DatasetTriggerView| keep.keeps(t)));
        assert((|a: DatasetTriggerView, b: DatasetTriggerView|
            lex_lt(a.workflow_name, b.workflow_name)) =~= (|a: DatasetTriggerView, b: DatasetTriggerView|
            order.lt(a, b)));
        assert(line == places(q@));
    }
    let mut names: Vec<String> = Vec::new();
    let mut k: usize = 0;
    assert(texts(names@) =~= workflows_in(view.triggers, line, 0));
    while k < q.len()
        invariant
            k <= q@.len(),
            view == db@,
            line == places(q@),
            forall|x: int| 0 <= x < q@.len() ==> #[trigger] q@[x] < db.triggers@.len(),
            texts(names@) == workflows_in(view.triggers, line, k as int),
        decreases q@.len() - k,
    {
        let i: usize = q[k];
        assert(line[k as int] == i);
        assert(view.triggers[i as int] == db.triggers@[i as int]@);
        let mut again: bool = false;
        if k >= 1 {
            let j: usize = q[k - 1];
            assert(line[k - 1] == j);
            assert(view.triggers[j as int] == db.triggers@[j as int]@);
            again = same(
                db.triggers[j].workflow_name.as_str(),
                db.triggers[i].workflow_name.as_str(),
            );
        }
        if !again {
            let ghost told = texts(names@);
            names.push(db.triggers[i].workflow_name.clone());
            assert(texts(names@) =~= told.push(view.triggers[i as int].workflow_name));
        }
        k += 1;
    }
    let ghost all = texts(names@);
    let mut out: Vec<DatasetFire> = Vec::new();
    let mut n: usize = 0;
    assert(views(out@) =~= fires_in(view, all, 0));
    while n < names.len()
        invariant
            n <= names@.len(),
            view == db@,
            all == texts(names@),
            views(out@) == fires_in(view, all, n as int),
        decreases names@.len() - n,
    {
        assert(all[n as int] == names@[n as int]@);
        if is_fire_due(db, names[n].as_str()) {
            let fire: DatasetFire = build_fire(db, names[n].as_str());
            let ghost told = views(out@);
            let ghost f = fire@;
            out.push(fire);
            assert(views(out@) =~= told.push(f));
        }
        n += 1;
    }
    out
}

/// The subscription of a workflow to a dataset, where its cursor stands at `at`.
pub open spec fn cursor_at(t: DatasetTriggerView, workflow: Seq<char>, uri: Seq<char>, at: int) -> bool {
    subscription(t, workflow, uri) && t.cursor == at
}

/// The subscriptions with the cursor of one moved from `at` to `to`.
pub open spec fn cursor_moved(
    triggers: Seq<DatasetTriggerView>,
    workflow: Seq<char>,
    uri: Seq<char>,
    at: int,
    to: int,
) -> Seq<DatasetTriggerView> {
    amended(
        triggers,
        |t: DatasetTriggerView| cursor_at(t, workflow, uri, at),
        |t: DatasetTriggerView| DatasetTriggerView { cursor: to, ..t },
    )
}

/// The subscriptions after the first `n` moves of a fire, or `None` where one of
/// them finds its cursor elsewhere.
pub open spec fn all_moved(
    triggers: Seq<DatasetTriggerView>,
    workflow: Seq<char>,
    advanced: Seq<(Seq<char>, int, int)>,
    n: int,
) -> Option<Seq<DatasetTriggerView>>
    decreases n,
{
    if n <= 0 {
        Some(triggers)
    } else {
        match all_moved(triggers, workflow, advanced, n - 1) {
            Some(rest) => {
                let (uri, at, to) = advanced[n - 1];
                if any(rest, |t: DatasetTriggerView| cursor_at(t, workflow, uri, at)) {
                    Some(cursor_moved(rest, workflow, uri, at, to))
                } else {
                    None
                }
            },
            None => None,
        }
    }
}

/// A fire is won.
pub open spec fn fire_won(db: StoreView, f: DatasetFireView) -> bool {
    all_moved(db.triggers, f.workflow_name, f.advanced, f.advanced.len() as int) is Some
}

/// The store after a claim of a fire: all of its cursors move, or none.
pub open spec fn fire_claimed(db: StoreView, f: DatasetFireView) -> StoreView {
    match all_moved(db.triggers, f.workflow_name, f.advanced, f.advanced.len() as int) {
        Some(triggers) => StoreView { triggers, ..db },
        None => db,
    }
}

struct MoveCursor<'a> {
    workflow: &'a str,
    uri: &'a str,
    at: i64,
    to: i64,
}

impl<'a> Rule<DatasetTrigger> for MoveCursor<'a> {
    closed spec fn hits(&self, t: DatasetTriggerView) -> bool {
        cursor_at(t, self.workflow@, self.uri@, self.at as int)
    }

    closed spec fn image(&self, t: DatasetTriggerView) -> DatasetTriggerView {
        DatasetTriggerView { cursor: self.to as int, ..t }
    }

    closed spec fn fits(&self, t: DatasetTriggerView) -> bool {
        true
    }

    fn apply(&self, row: &mut DatasetTrigger) -> (hit: bool) {
        if row.cursor == self.at && same(row.workflow_name.as_str(), self.workflow) && same(
            row.uri.as_str(),
            self.uri,
        ) {
            row.cursor = self.to;
            true
        } else {
            false
        }
    }
}

fn move_cursor(triggers: &mut Vec<DatasetTrigger>, workflow: &str, uri: &str, at: i64, to: i64) -> (hit: bool)
    ensures
        hit == any(
            views(old(triggers)@),
            |t: DatasetTriggerView| cursor_at(t, workflow@, uri@, at as int),
        ),
        views(final(triggers)@) == cursor_moved(
            views(old(triggers)@),
            workflow@,
            uri@,
            at as int,
            to as int,
        ),
{
    let ghost was = views(triggers@);
    let rule: MoveCursor = MoveCursor { workflow, uri, at, to };
    proof {
        lemma_any_same(
            was,
            |t: DatasetTriggerView| rule.hits(t),
            |t: DatasetTriggerView| cursor_at(t, workflow@, uri@, at as int),
        );
    }
    let hit: bool = update_any(triggers, &rule);
    assert(views(triggers@) =~= cursor_moved(was, workflow@, uri@, at as int, to as int));
    hit
}

proof fn lemma_lost(
    triggers: Seq<DatasetTriggerView>,
    workflow: Seq<char>,
    advanced: Seq<(Seq<char>, int, int)>,
    k: int,
    n: int,
)
    requires
        k <= n,
        all_moved(triggers, workflow, advanced, k) is None,
    ensures
        all_moved(triggers, workflow, advanced, n) is None,
    decreases n,
{
    if k < n {
        lemma_lost(triggers, workflow, advanced, k, n - 1);
    }
}

/// Claims a fire: moves all of its cursors, each from where the fire found it.
/// Where one of them is elsewhere by now, another claim owns the fire, and
/// nothing changes.
pub fn claim_dataset_fire(db: &mut Store, fire: &DatasetFire) -> (won: bool)
    ensures
        won == fire_won(old(db)@, fire@),
        final(db)@ == fire_claimed(old(db)@, fire@),
{
    let ghost was = db@;
    let ghost f = fire@;
    let q: Vec<usize> = all_places(db.triggers.len());
    let saved: Vec<DatasetTrigger> = copy_at(&db.triggers, &q, q.len());
    assert(views(saved@) =~= was.triggers) by {
        assert(rows_at(was.triggers, places(q@).take(q@.len() as int)) =~= was.triggers);
    }
    let mut k: usize = 0;
    while k < fire.advanced.len()
        invariant
            k <= fire.advanced@.len(),
            f == fire@,
            was == old(db)@,
            views(saved@) == was.triggers,
            all_moved(was.triggers, f.workflow_name, f.advanced, k as int) == Some(db@.triggers),
            db@ == (StoreView { triggers: db@.triggers, ..was }),
        decreases fire.advanced@.len() - k,
    {
        assert(f.advanced[k as int] == (
            fire.advanced@[k as int].0@,
            fire.advanced@[k as int].1 as int,
            fire.advanced@[k as int].2 as int,
        ));
        let hit: bool = move_cursor(
            &mut db.triggers,
            fire.workflow_name.as_str(),
            fire.advanced[k].0.as_str(),
            fire.advanced[k].1,
            fire.advanced[k].2,
        );
        if !hit {
            proof {
                lemma_lost(
                    was.triggers,
                    f.workflow_name,
                    f.advanced,
                    k as int + 1,
                    f.advanced.len() as int,
                );
            }
            db.triggers = saved;
            return false;
        }
        k += 1;
    }
    true
}

/// The places of all rows of a table.
fn all_places(n: usize) -> (q: Vec<usize>)
    ensures
        q@.len() == n,
        forall|k: int| 0 <= k < n ==> #[trigger] q@[k] == k,
{
    let mut q: Vec<usize> = Vec::new();
    let mut i: usize = 0;
    while i < n
        invariant
            i <= n,
            q@.len() == i,
            forall|k: int| 0 <= k < i ==> #[trigger] q@[k] == k,
        decreases n - i,
    {
        q.push(i);
        i += 1;
    }
    q
}

/// One claim.
pub open spec fn claim_fire() -> spec_fn(StoreView, DatasetFireView) -> StoreView {
    |db: StoreView, f: DatasetFireView| fire_claimed(db, f)
}

/// The claim wins.
pub open spec fn wins_fire() -> spec_fn(StoreView, DatasetFireView) -> bool {
    |db: StoreView, f: DatasetFireView| fire_won(db, f)
}

/// Claims every fire that is due and hands out those that were won. Several
/// updates of one dataset come to one fire.
pub fn claim_due_dataset_triggers(db: &mut Store) -> (out: Vec<DatasetFire>)
    ensures
        final(db)@ == folded(old(db)@, due_fires(old(db)@), claim_fire()),
        views(out@) == taken(old(db)@, due_fires(old(db)@), claim_fire(), wins_fire()),
{
    let ghost was = db@;
    let ghost fires = due_fires(was);
    let ghost step = claim_fire();
    let ghost takes = wins_fire();
    let plan: Vec<DatasetFire> = due_dataset_fires(db);
    let mut out: Vec<DatasetFire> = Vec::new();
    let mut n: usize = 0;
    assert(fires.take(0) =~= Seq::<DatasetFireView>::empty());
    assert(views(out@) =~= taken(was, fires.take(0), step, takes));
    while n < plan.len()
        invariant
            n <= plan@.len(),
            fires == views(plan@),
            step == claim_fire(),
            takes == wins_fire(),
            db@ == folded(was, fires.take(n as int), step),
            views(out@) == taken(was, fires.take(n as int), step, takes),
        decreases plan@.len() - n,
    {
        proof {
            assert(fires[n as int] == plan@[n as int]@);
            lemma_turn(was, fires, step, takes, n as int);
        }
        if claim_dataset_fire(db, &plan[n]) {
            let ghost told = views(out@);
            let copy: DatasetFire = copy_fire(&plan[n]);
            out.push(copy);
            assert(views(out@) =~= told.push(fires[n as int]));
        }
        n += 1;
    }
    assert(fires.take(fires.len() as int) =~= fires);
    out
}

fn copy_fire(fire: &DatasetFire) -> (r: DatasetFire)
    ensures
        r@ == fire@,
{
    let mut advanced: Vec<(String, i64, i64)> = Vec::new();
    let mut i: usize = 0;
    while i < fire.advanced.len()
        invariant
            i <= fire.advanced@.len(),
            advanced@.len() == i,
            forall|k: int|
                0 <= k < i ==> (#[trigger] advanced@[k]).0@ == fire.advanced@[k].0@ && advanced@[k].1
                    == fire.advanced@[k].1 && advanced@[k].2 == fire.advanced@[k].2,
        decreases fire.advanced@.len() - i,
    {
        advanced.push((fire.advanced[i].0.clone(), fire.advanced[i].1, fire.advanced[i].2));
        i += 1;
    }
    assert(moves(advanced@) =~= moves(fire.advanced@));
    DatasetFire {
        workflow_name: fire.workflow_name.clone(),
        trigger_uri: fire.trigger_uri.clone(),
        advanced,
    }
}

/// The subscriptions after the first `n` moves of a fire are taken back.
pub open spec fn all_returned(
    triggers: Seq<DatasetTriggerView>,
    workflow: Seq<char>,
    advanced: Seq<(Seq<char>, int, int)>,
    n: int,
) -> Seq<DatasetTriggerView>
    decreases n,
{
    if n <= 0 {
        triggers
    } else {
        let (uri, at, to) = advanced[n - 1];
        cursor_moved(all_returned(triggers, workflow, advanced, n - 1), workflow, uri, to, at)
    }
}

/// Takes a claimed fire back: every cursor that still stands where the claim put
/// it returns, so that a later sweep fires again.
pub fn unclaim_dataset_trigger(db: &mut Store, workflow_name: &str, advanced: &Vec<(String, i64, i64)>)
    ensures
        final(db)@ == (StoreView {
            triggers: all_returned(
                old(db)@.triggers,
                workflow_name@,
                moves(advanced@),
                advanced@.len() as int,
            ),
            ..old(db)@
        }),
{
    let ghost was = db@;
    let mut k: usize = 0;
    while k < advanced.len()
        invariant
            k <= advanced@.len(),
            db@ == (StoreView {
                triggers: all_returned(was.triggers, workflow_name@, moves(advanced@), k as int),
                ..was
            }),
        decreases advanced@.len() - k,
    {
        assert(moves(advanced@)[k as int] == (
            advanced@[k as int].0@,
            advanced@[k as int].1 as int,
            advanced@[k as int].2 as int,
        ));
        let _ = move_cursor(
            &mut db.triggers,
            workflow_name,
            advanced[k].0.as_str(),
            advanced[k].2,
            advanced[k].1,
        );
        k += 1;
    }
}

struct StampFired<'a> {
    workflow_name: &'a str,
    run_id: &'a str,
    now: &'a str,
}

impl<'a> Rule<DatasetTrigger> for StampFired<'a> {
    closed spec fn hits(&self, t: DatasetTriggerView) -> bool {
        t.workflow_name == self.workflow_name@
    }

    closed spec fn image(&self, t: DatasetTriggerView) -> DatasetTriggerView {
        DatasetTriggerView { last_fired_at: Some(self.now@), last_fired_run_id: Some(self.run_id@), ..t }
    }

    closed spec fn fits(&self, t: DatasetTriggerView) -> bool {
        true
    }

    fn apply(&self, row: &mut DatasetTrigger) -> (hit: bool) {
        if same(row.workflow_name.as_str(), self.workflow_name) {
            row.last_fired_at = Some(self.now.to_owned());
            row.last_fired_run_id = Some(self.run_id.to_owned());
            true
        } else {
            false
        }
    }
}

/// Notes on a workflow's subscriptions which run they started last.
pub fn stamp_dataset_trigger_fired(db: &mut Store, workflow_name: &str, run_id: &str, now: &str)
    ensures
        final(db)@ == (StoreView {
            triggers: amended(
                old(db)@.triggers,
                |t: DatasetTriggerView| t.workflow_name == workflow_name@,
                |t: DatasetTriggerView| DatasetTriggerView {
                    last_fired_at: Some(now@),
                    last_fired_run_id: Some(run_id@),
                    ..t
                },
            ),
            ..old(db)@
        }),
{
    let ghost was = db@;
    let rule: StampFired = StampFired { workflow_name, run_id, now };
    let _ = update_all(&mut db.triggers, &rule);
    assert(db@.triggers =~= amended(
        was.triggers,
        |t: DatasetTriggerView| t.workflow_name == workflow_name@,
        |t: DatasetTriggerView| DatasetTriggerView {
            last_fired_at: Some(now@),
            last_fired_run_id: Some(run_id@),
            ..t
        },
    ));
}

// ── What holds of them ───────────────────────────────────────────────────────

/// A new subscription does not fire on history: it is not fresh until its
/// dataset is updated again.
pub proof fn law_subscription_waits_for_news(
    triggers: Seq<DatasetTriggerView>,
    events: Seq<DatasetEventView>,
    workflow: Seq<char>,
    uri: Seq<char>,
    mode: Seq<char>,
)
    requires
        !any(triggers, |t: DatasetTriggerView| subscription(t, workflow, uri)),
    ensures
        ({
            let after = subscribed(triggers, events, workflow, uri, mode);
            &&& after.len() == triggers.len() + 1
            &&& subscription(after.last(), workflow, uri)
            &&& !fresh(events, after.last())
        }),
{
}

/// A subscription that stays keeps its cursor.
pub proof fn law_subscription_keeps_its_cursor(
    triggers: Seq<DatasetTriggerView>,
    events: Seq<DatasetEventView>,
    workflow: Seq<char>,
    uri: Seq<char>,
    mode: Seq<char>,
    i: int,
)
    requires
        0 <= i < triggers.len(),
    ensures
        subscribed(triggers, events, workflow, uri, mode)[i].cursor == triggers[i].cursor,
{
}

/// No workflow subscribes to a dataset twice.
pub open spec fn distinct_subscriptions(triggers: Seq<DatasetTriggerView>) -> bool {
    forall|a: int, b: int|
        0 <= a < b < triggers.len() ==> !subscription(
            #[trigger] triggers[a],
            (#[trigger] triggers[b]).workflow_name,
            triggers[b].uri,
        )
}

/// No two moves of a fire are of one dataset.
pub open spec fn distinct_moves(advanced: Seq<(Seq<char>, int, int)>) -> bool {
    forall|a: int, b: int| 0 <= a < b < advanced.len() ==> (#[trigger] advanced[a]).0 != (#[trigger] advanced[b]).0
}

/// A subscription after the first `n` moves of a fire.
spec fn row_moved(
    t: DatasetTriggerView,
    workflow: Seq<char>,
    advanced: Seq<(Seq<char>, int, int)>,
    n: int,
) -> DatasetTriggerView
    decreases n,
{
    if n <= 0 {
        t
    } else {
        let r = row_moved(t, workflow, advanced, n - 1);
        let (uri, at, to) = advanced[n - 1];
        if cursor_at(r, workflow, uri, at) {
            DatasetTriggerView { cursor: to, ..r }
        } else {
            r
        }
    }
}

/// A subscription after the first `n` moves of a fire are taken back.
spec fn row_returned(
    t: DatasetTriggerView,
    workflow: Seq<char>,
    advanced: Seq<(Seq<char>, int, int)>,
    n: int,
) -> DatasetTriggerView
    decreases n,
{
    if n <= 0 {
        t
    } else {
        let r = row_returned(t, workflow, advanced, n - 1);
        let (uri, at, to) = advanced[n - 1];
        if cursor_at(r, workflow, uri, to) {
            DatasetTriggerView { cursor: at, ..r }
        } else {
            r
        }
    }
}

proof fn lemma_moved_rows(
    triggers: Seq<DatasetTriggerView>,
    workflow: Seq<char>,
    advanced: Seq<(Seq<char>, int, int)>,
    n: int,
)
    requires
        0 <= n <= advanced.len(),
        all_moved(triggers, workflow, advanced, n) is Some,
    ensures
        all_moved(triggers, workflow, advanced, n)->0 =~= triggers.map_values(
            |t: DatasetTriggerView| row_moved(t, workflow, advanced, n),
        ),
    decreases n,
{
    if n > 0 {
        lemma_moved_rows(triggers, workflow, advanced, n - 1);
    }
}

proof fn lemma_returned_rows(
    triggers: Seq<DatasetTriggerView>,
    workflow: Seq<char>,
    advanced: Seq<(Seq<char>, int, int)>,
    n: int,
)
    requires
        0 <= n <= advanced.len(),
    ensures
        all_returned(triggers, workflow, advanced, n) =~= triggers.map_values(
            |t: DatasetTriggerView| row_returned(t, workflow, advanced, n),
        ),
    decreases n,
{
    if n > 0 {
        lemma_returned_rows(triggers, workflow, advanced, n - 1);
    }
}

proof fn lemma_untouched(
    t: DatasetTriggerView,
    workflow: Seq<char>,
    advanced: Seq<(Seq<char>, int, int)>,
    n: int,
)
    requires
        0 <= n <= advanced.len(),
        forall|k: int| 0 <= k < n ==> !subscription(t, workflow, (#[trigger] advanced[k]).0),
    ensures
        row_moved(t, workflow, advanced, n) == t,
        row_returned(t, workflow, advanced, n) == t,
    decreases n,
{
    if n > 0 {
        lemma_untouched(t, workflow, advanced, n - 1);
        assert(!subscription(t, workflow, advanced[n - 1].0));
    }
}

/// The one move `k` of a fire that is of the subscription's dataset takes its
/// cursor there and back.
proof fn lemma_there_and_back(
    t: DatasetTriggerView,
    workflow: Seq<char>,
    advanced: Seq<(Seq<char>, int, int)>,
    k: int,
    n: int,
)
    requires
        distinct_moves(advanced),
        0 <= k < n <= advanced.len(),
        cursor_at(t, workflow, advanced[k].0, advanced[k].1),
    ensures
        row_moved(t, workflow, advanced, n) == (DatasetTriggerView { cursor: advanced[k].2, ..t }),
        row_returned(
            DatasetTriggerView { cursor: advanced[k].2, ..t },
            workflow,
            advanced,
            n,
        ) == t,
    decreases n,
{
    let u = DatasetTriggerView { cursor: advanced[k].2, ..t };
    if n - 1 > k {
        lemma_there_and_back(t, workflow, advanced, k, n - 1);
        assert(advanced[k].0 != advanced[n - 1].0);
    } else {
        assert forall|m: int| 0 <= m < k implies !subscription(t, workflow, (#[trigger] advanced[m]).0) by {
            assert(advanced[m].0 != advanced[k].0);
        }
        assert forall|m: int| 0 <= m < k implies !subscription(u, workflow, (#[trigger] advanced[m]).0) by {
            assert(advanced[m].0 != advanced[k].0);
        }
        lemma_untouched(t, workflow, advanced, k);
        lemma_untouched(u, workflow, advanced, k);
    }
}

proof fn lemma_found_at(
    triggers: Seq<DatasetTriggerView>,
    workflow: Seq<char>,
    advanced: Seq<(Seq<char>, int, int)>,
    k: int,
    n: int,
    i: int,
)
    requires
        distinct_subscriptions(triggers),
        distinct_moves(advanced),
        0 <= k < n <= advanced.len(),
        0 <= i < triggers.len(),
        all_moved(triggers, workflow, advanced, n) is Some,
        subscription(triggers[i], workflow, advanced[k].0),
    ensures
        triggers[i].cursor == advanced[k].1,
    decreases n,
{
    if n - 1 > k {
        lemma_found_at(triggers, workflow, advanced, k, n - 1, i);
    } else {
        let rest = all_moved(triggers, workflow, advanced, k)->0;
        lemma_moved_rows(triggers, workflow, advanced, k);
        let (uri, at, to) = advanced[k];
        let p = |t: DatasetTriggerView| cursor_at(t, workflow, uri, at);
        let j = choose|j: int| 0 <= j < rest.len() && p(#[trigger] rest[j]);
        lemma_keeps_key(triggers[j], workflow, advanced, k);
        if j < i {
            assert(!subscription(triggers[j], triggers[i].workflow_name, triggers[i].uri));
        } else if i < j {
            assert(!subscription(triggers[i], triggers[j].workflow_name, triggers[j].uri));
        }
        assert forall|m: int| 0 <= m < k implies !subscription(
            triggers[i],
            workflow,
            (#[trigger] advanced[m]).0,
        ) by {
            assert(advanced[m].0 != advanced[k].0);
        }
        lemma_untouched(triggers[i], workflow, advanced, k);
    }
}

proof fn lemma_keeps_key(
    t: DatasetTriggerView,
    workflow: Seq<char>,
    advanced: Seq<(Seq<char>, int, int)>,
    n: int,
)
    requires
        0 <= n <= advanced.len(),
    ensures
        row_moved(t, workflow, advanced, n).workflow_name == t.workflow_name,
        row_moved(t, workflow, advanced, n).uri == t.uri,
    decreases n,
{
    if n > 0 {
        lemma_keeps_key(t, workflow, advanced, n - 1);
    }
}

/// Taking a claimed fire back restores every cursor, so that the fire is due
/// again as it was.
pub proof fn law_unclaim_undoes_claim(
    triggers: Seq<DatasetTriggerView>,
    workflow: Seq<char>,
    advanced: Seq<(Seq<char>, int, int)>,
)
    requires
        distinct_subscriptions(triggers),
        distinct_moves(advanced),
        all_moved(triggers, workflow, advanced, advanced.len() as int) is Some,
    ensures
        all_returned(
            all_moved(triggers, workflow, advanced, advanced.len() as int)->0,
            workflow,
            advanced,
            advanced.len() as int,
        ) == triggers,
{
    let n = advanced.len() as int;
    let moved = all_moved(triggers, workflow, advanced, n)->0;
    let back = all_returned(moved, workflow, advanced, n);
    lemma_moved_rows(triggers, workflow, advanced, n);
    lemma_returned_rows(moved, workflow, advanced, n);
    assert forall|i: int| 0 <= i < triggers.len() implies back[i] == triggers[i] by {
        let t = triggers[i];
        if exists|k: int| 0 <= k < n && subscription(t, workflow, (#[trigger] advanced[k]).0) {
            let k = choose|k: int|
                0 <= k < n && subscription(t, workflow, (#[trigger] advanced[k]).0);
            lemma_found_at(triggers, workflow, advanced, k, n, i);
            lemma_there_and_back(t, workflow, advanced, k, n);
        } else {
            lemma_untouched(t, workflow, advanced, n);
        }
    }
    assert(back =~= triggers);
}

/// A fire moves fresh subscriptions of its workflow, none twice.
pub proof fn lemma_fire_moves(db: StoreView, workflow: Seq<char>)
    requires
        distinct_subscriptions(db.triggers),
    ensures
        distinct_moves(fire_moves(db, workflow)),
        forall|k: int|
            0 <= k < fire_moves(db, workflow).len() ==> 0 <= #[trigger] fresh_places(db, workflow)[k]
                < db.triggers.len() && fresh_for(
                db.dataset_events,
                db.triggers[fresh_places(db, workflow)[k]],
                workflow,
            ),
{
    let q = fresh_places(db, workflow);
    let p = |t: DatasetTriggerView| fresh_for(db.dataset_events, t, workflow);
    let lt = |a: DatasetTriggerView, b: DatasetTriggerView| lex_lt(a.uri, b.uri);
    lemma_ordered_members(db.triggers, p, lt, db.triggers.len() as int);
    assert forall|k: int| 0 <= k < q.len() implies 0 <= #[trigger] q[k] < db.triggers.len() && p(
        db.triggers[q[k]],
    ) by {
        assert(q.contains(q[k]));
    }
    let m = fire_moves(db, workflow);
    assert forall|a: int, b: int| 0 <= a < b < m.len() implies (#[trigger] m[a]).0 != (#[trigger] m[b]).0 by {
        let (x, y) = (q[a], q[b]);
        assert(q[a] != q[b]);
        assert(p(db.triggers[x]) && p(db.triggers[y]));
        if x < y {
            assert(!subscription(
                db.triggers[x],
                db.triggers[y].workflow_name,
                db.triggers[y].uri,
            ));
        } else {
            assert(!subscription(
                db.triggers[y],
                db.triggers[x].workflow_name,
                db.triggers[x].uri,
            ));
        }
    }
}

proof fn lemma_all_found(db: StoreView, workflow: Seq<char>, n: int)
    requires
        distinct_subscriptions(db.triggers),
        0 <= n <= fire_moves(db, workflow).len(),
    ensures
        all_moved(db.triggers, workflow, fire_moves(db, workflow), n) is Some,
    decreases n,
{
    if n > 0 {
        lemma_all_found(db, workflow, n - 1);
        lemma_fire_moves(db, workflow);
        let m = fire_moves(db, workflow);
        let rest = all_moved(db.triggers, workflow, m, n - 1)->0;
        lemma_moved_rows(db.triggers, workflow, m, n - 1);
        let x = fresh_places(db, workflow)[n - 1];
        let t = db.triggers[x];
        assert forall|k: int| 0 <= k < n - 1 implies !subscription(t, workflow, (#[trigger] m[k]).0) by {
            assert(m[k].0 != m[n - 1].0);
        }
        lemma_untouched(t, workflow, m, n - 1);
        assert(cursor_at(rest[x], workflow, m[n - 1].0, m[n - 1].1));
    }
}

/// The subscriptions of the workflows that `due` picks, caught up with the news:
/// the cursor of each fresh one at its dataset's newest event.
pub open spec fn caught_up(
    events: Seq<DatasetEventView>,
    triggers: Seq<DatasetTriggerView>,
    due: spec_fn(Seq<char>) -> bool,
) -> Seq<DatasetTriggerView> {
    amended(
        triggers,
        |t: DatasetTriggerView| due(t.workflow_name) && fresh(events, t),
        |t: DatasetTriggerView| DatasetTriggerView { cursor: high_water(events, t.uri), ..t },
    )
}

proof fn lemma_fire_row(db: StoreView, workflow: Seq<char>, i: int)
    requires
        distinct_subscriptions(db.triggers),
        0 <= i < db.triggers.len(),
    ensures
        ({
            let m = fire_moves(db, workflow);
            row_moved(db.triggers[i], workflow, m, m.len() as int)
        }) == caught_up(db.dataset_events, db.triggers, |w: Seq<char>| w == workflow)[i],
{
    let m = fire_moves(db, workflow);
    let n = m.len() as int;
    lemma_fire_moves(db, workflow);
    let t = db.triggers[i];
    let q = fresh_places(db, workflow);
    if fresh_for(db.dataset_events, t, workflow) {
        let p = |t: DatasetTriggerView| fresh_for(db.dataset_events, t, workflow);
        let lt = |a: DatasetTriggerView, b: DatasetTriggerView| lex_lt(a.uri, b.uri);
        lemma_ordered_members(db.triggers, p, lt, db.triggers.len() as int);
        assert(p(db.triggers[i]));
        assert(q.contains(i));
        let k = choose|k: int| 0 <= k < q.len() && q[k] == i;
        assert(m[k] == (t.uri, t.cursor, high_water(db.dataset_events, t.uri)));
        lemma_there_and_back(t, workflow, m, k, n);
    } else {
        assert forall|k: int| 0 <= k < n implies !subscription(t, workflow, (#[trigger] m[k]).0) by {
            let x = q[k];
            assert(fresh_for(db.dataset_events, db.triggers[x], workflow));
            if subscription(t, workflow, m[k].0) {
                if x < i {
                    assert(!subscription(
                        db.triggers[x],
                        db.triggers[i].workflow_name,
                        db.triggers[i].uri,
                    ));
                } else if i < x {
                    assert(!subscription(
                        db.triggers[i],
                        db.triggers[x].workflow_name,
                        db.triggers[x].uri,
                    ));
                }
            }
        }
        lemma_untouched(t, workflow, m, n);
    }
}

/// A fire that is due is won where nobody else moved its cursors, and moves
/// those of its workflow's fresh subscriptions and no others.
pub proof fn lemma_fire_rows(db: StoreView, workflow: Seq<char>)
    requires
        distinct_subscriptions(db.triggers),
    ensures
        fire_won(db, fire_of(db, workflow)),
        fire_claimed(db, fire_of(db, workflow)) == (StoreView {
            triggers: caught_up(db.dataset_events, db.triggers, |w: Seq<char>| w == workflow),
            ..db
        }),
{
    let m = fire_moves(db, workflow);
    let n = m.len() as int;
    lemma_all_found(db, workflow, n);
    lemma_moved_rows(db.triggers, workflow, m, n);
    let moved = all_moved(db.triggers, workflow, m, n)->0;
    let want = caught_up(db.dataset_events, db.triggers, |w: Seq<char>| w == workflow);
    assert forall|i: int| 0 <= i < moved.len() implies moved[i] == want[i] by {
        lemma_fire_row(db, workflow, i);
    }
    assert(moved =~= want);
}

/// A fire that is due is won where nobody else moved its cursors, and uses up
/// the news: however many updates a dataset had, its subscription is fresh no
/// more. So several updates come to one fire.
pub proof fn law_fire_uses_up_the_news(db: StoreView, workflow: Seq<char>, i: int)
    requires
        distinct_subscriptions(db.triggers),
        0 <= i < db.triggers.len(),
    ensures
        fire_won(db, fire_of(db, workflow)),
        db.triggers[i].workflow_name == workflow ==> !fresh(
            db.dataset_events,
            fire_claimed(db, fire_of(db, workflow)).triggers[i],
        ),
        db.triggers[i].workflow_name != workflow ==> fire_claimed(
            db,
            fire_of(db, workflow),
        ).triggers[i] == db.triggers[i],
{
    lemma_fire_rows(db, workflow);
}

proof fn lemma_filter_distinct(s: Seq<DatasetTriggerView>, p: spec_fn(DatasetTriggerView) -> bool)
    requires
        distinct_subscriptions(s),
    ensures
        distinct_subscriptions(s.filter(p)),
        forall|x: DatasetTriggerView| #[trigger] s.filter(p).contains(x) ==> s.contains(x),
    decreases s.len(),
{
    reveal(Seq::filter);
    if s.len() > 0 {
        let rest = s.drop_last();
        assert forall|a: int, b: int| 0 <= a < b < rest.len() implies !subscription(
            #[trigger] rest[a],
            (#[trigger] rest[b]).workflow_name,
            rest[b].uri,
        ) by {
            assert(rest[a] == s[a] && rest[b] == s[b]);
        }
        lemma_filter_distinct(rest, p);
        let kept = rest.filter(p);
        let out = s.filter(p);
        assert forall|x: DatasetTriggerView| #[trigger] out.contains(x) implies s.contains(x) by {
            let k = choose|k: int| 0 <= k < out.len() && out[k] == x;
            if k < kept.len() {
                assert(kept[k] == x);
                assert(kept.contains(x));
                let m = choose|m: int| 0 <= m < rest.len() && rest[m] == x;
                assert(s[m] == x);
            } else {
                assert(s[s.len() - 1] == x);
            }
        }
        assert forall|a: int, b: int| 0 <= a < b < out.len() implies !subscription(
            #[trigger] out[a],
            (#[trigger] out[b]).workflow_name,
            out[b].uri,
        ) by {
            if b < kept.len() {
                assert(out[a] == kept[a] && out[b] == kept[b]);
            } else {
                assert(out[b] == s[s.len() - 1]);
                assert(out[a] == kept[a]);
                assert(kept.contains(kept[a]));
                let m = choose|m: int| 0 <= m < rest.len() && rest[m] == kept[a];
                assert(s[m] == out[a]);
                assert(!subscription(
                    s[m],
                    s[s.len() - 1].workflow_name,
                    s[s.len() - 1].uri,
                ));
            }
        }
    }
}

proof fn lemma_subscribed_distinct(
    triggers: Seq<DatasetTriggerView>,
    events: Seq<DatasetEventView>,
    workflow: Seq<char>,
    uris: Seq<Seq<char>>,
    mode: Seq<char>,
    n: int,
)
    requires
        distinct_subscriptions(triggers),
        0 <= n <= uris.len(),
    ensures
        distinct_subscriptions(all_subscribed(triggers, events, workflow, uris, mode, n)),
    decreases n,
{
    if n > 0 {
        lemma_subscribed_distinct(triggers, events, workflow, uris, mode, n - 1);
        let rest = all_subscribed(triggers, events, workflow, uris, mode, n - 1);
        let out = all_subscribed(triggers, events, workflow, uris, mode, n);
        let p = |t: DatasetTriggerView| subscription(t, workflow, uris[n - 1]);
        assert forall|a: int, b: int| 0 <= a < b < out.len() implies !subscription(
            #[trigger] out[a],
            (#[trigger] out[b]).workflow_name,
            out[b].uri,
        ) by {
            if b < rest.len() {
                assert(!subscription(rest[a], rest[b].workflow_name, rest[b].uri));
            } else {
                assert(!p(rest[a]));
            }
        }
    }
}

/// A workflow that subscribes anew still subscribes to no dataset twice.
pub proof fn law_sync_keeps_subscriptions_distinct(
    triggers: Seq<DatasetTriggerView>,
    events: Seq<DatasetEventView>,
    workflow: Seq<char>,
    uris: Seq<Seq<char>>,
    mode: Seq<char>,
)
    requires
        distinct_subscriptions(triggers),
    ensures
        distinct_subscriptions(synced(triggers, events, workflow, uris, mode)),
{
    let p = |t: DatasetTriggerView| !(t.workflow_name == workflow && !uris.contains(t.uri));
    lemma_filter_distinct(triggers, p);
    lemma_subscribed_distinct(
        triggers.filter(p),
        events,
        workflow,
        uris,
        mode,
        uris.len() as int,
    );
}

} // verus!
