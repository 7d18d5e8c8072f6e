//! The workflow graph: a validated specification with its dependency edges.
use vstd::prelude::*;
use vstd::string::*;
use vstd::hash_map::StringHashMap;
use crate::expand::{is_producer_row, output_refs, producer_row, when_output_refs};
use crate::graph::{
    add_edge, add_node, count_incoming, graph_edges, graph_nodes, has_cycle, incoming, is_cyclic, new_graph,
};
use crate::messages::{fault_message, fault_text};
use crate::rules::{
    check_header, check_task, count_rows, duplicate_name, fault_if, header_fault, planned_rows, task_fault,
    Edition, Fault,
};
use crate::text::{same, texts};
use crate::workflow::{DagSpec, TaskSpec};

verus! {

/// A workflow that met every rule, and its dependency graph.
pub struct DagGraph {
    pub spec: DagSpec,
    pub links: Links,
}

/// A dependency graph. Only [`DagGraph::from_spec`] makes one.
pub struct Links {
    /// One node per task, in order; one edge per dependency, towards the dependent.
    graph: petgraph::graph::DiGraph<String, ()>,
    /// The node of each task name.
    node_index: StringHashMap<usize>,
}

// ── Names and edges ──────────────────────────────────────────────────────────

/// Some task has this name.
pub open spec fn known(tasks: Seq<TaskSpec>, name: Seq<char>) -> bool {
    exists|i: int| 0 <= i < tasks.len() && #[trigger] tasks[i].name@ == name
}

/// The task that has this name.
pub open spec fn task_index(tasks: Seq<TaskSpec>, name: Seq<char>) -> int {
    choose|i: int| 0 <= i < tasks.len() && #[trigger] tasks[i].name@ == name
}

/// No two tasks share a name.
pub open spec fn distinct_names(tasks: Seq<TaskSpec>) -> bool {
    forall|i: int, j: int|
        0 <= i < j < tasks.len() ==> #[trigger] tasks[i].name@ != #[trigger] tasks[j].name@
}

/// Some task of this name is a hook.
pub open spec fn hook_name(tasks: Seq<TaskSpec>, name: Seq<char>) -> bool {
    exists|i: int|
        0 <= i < tasks.len() && #[trigger] tasks[i].name@ == name && tasks[i].hook is Some
}

/// The edges of task `i` for its first `k` dependencies, from each to the task.
pub open spec fn edges_into(tasks: Seq<TaskSpec>, i: int, k: int) -> Seq<(int, int)>
    decreases k,
{
    if k <= 0 {
        Seq::empty()
    } else {
        edges_into(tasks, i, k - 1).push((task_index(tasks, tasks[i].depends_on@[k - 1]@), i))
    }
}

/// The edges of the first `n` tasks, in order.
pub open spec fn edges_upto(tasks: Seq<TaskSpec>, n: int) -> Seq<(int, int)>
    decreases n,
{
    if n <= 0 {
        Seq::empty()
    } else {
        edges_upto(tasks, n - 1) + edges_into(tasks, n - 1, tasks[n - 1].depends_on@.len() as int)
    }
}

/// The edges of the workflow: one per dependency a task names.
pub open spec fn dependency_edges(tasks: Seq<TaskSpec>) -> Seq<(int, int)> {
    edges_upto(tasks, tasks.len() as int)
}

/// The dependencies that the first `n` tasks name.
pub open spec fn dependency_count(tasks: Seq<TaskSpec>, n: int) -> nat
    decreases n,
{
    if n <= 0 {
        0
    } else {
        dependency_count(tasks, n - 1) + tasks[n - 1].depends_on@.len()
    }
}

// ── The rules that span tasks ────────────────────────────────────────────────

/// The first task from `i` on that breaks a rule on its own.
pub open spec fn tasks_fault(spec: DagSpec, i: int, edition: Edition) -> Option<(Fault, int)>
    decreases spec.tasks@.len() - i,
{
    if i < 0 || i >= spec.tasks@.len() {
        None
    } else {
        match task_fault(spec, i, edition) {
            Some(f) => Some((f, i)),
            None => tasks_fault(spec, i + 1, edition),
        }
    }
}

/// What is wrong with dependency `k` of task `i`.
pub open spec fn dependency_fault(tasks: Seq<TaskSpec>, i: int, k: int) -> Option<Fault> {
    let dep = tasks[i].depends_on@[k]@;
    if !known(tasks, dep) {
        Some(Fault::UnknownDependency { index: k as usize })
    } else {
        fault_if(hook_name(tasks, dep), Fault::DependsOnHook { index: k as usize })
    }
}

/// The first dependency at fault from dependency `k` of task `i` on.
pub open spec fn edges_fault(tasks: Seq<TaskSpec>, i: int, k: int) -> Option<(Fault, int)>
    decreases tasks.len() - i, (if 0 <= i < tasks.len() { tasks[i].depends_on@.len() } else { 0 }) - k,
{
    if i < 0 || i >= tasks.len() {
        None
    } else if k < 0 || k >= tasks[i].depends_on@.len() {
        edges_fault(tasks, i + 1, 0)
    } else {
        match dependency_fault(tasks, i, k) {
            Some(f) => Some((f, i)),
            None => edges_fault(tasks, i, k + 1),
        }
    }
}

/// The first output that a condition refers to, from reference `k` on, without
/// the task depending on it.
pub open spec fn reference_fault(refs: Seq<Seq<char>>, deps: Seq<Seq<char>>, k: int) -> Option<Fault>
    decreases refs.len() - k,
{
    if k < 0 || k >= refs.len() {
        None
    } else if !deps.contains(refs[k]) {
        Some(Fault::WhenReference { index: k as usize })
    } else {
        reference_fault(refs, deps, k + 1)
    }
}

/// The condition of a task refers only to outputs of its dependencies.
pub open spec fn when_fault(t: TaskSpec) -> Option<Fault> {
    match t.when {
        Some(cond) => reference_fault(output_refs(cond@), texts(t.depends_on@), 0),
        None => None,
    }
}

/// The first task from `i` on whose condition refers to an output it may not have.
pub open spec fn whens_fault(tasks: Seq<TaskSpec>, i: int) -> Option<(Fault, int)>
    decreases tasks.len() - i,
{
    if i < 0 || i >= tasks.len() {
        None
    } else {
        match when_fault(tasks[i]) {
            Some(f) => Some((f, i)),
            None => whens_fault(tasks, i + 1),
        }
    }
}

/// A run-time fan-out reads the output of a task it depends on, and not its own.
pub open spec fn fanout_fault(tasks: Seq<TaskSpec>, i: int) -> Option<Fault> {
    let t = tasks[i];
    match t.with_output_of {
        None => None,
        Some(p) => if !(exists|k: int|
            0 <= k < t.depends_on@.len() && producer_row(p@, #[trigger] t.depends_on@[k]@)) {
            if exists|j: int| 0 <= j < tasks.len() && producer_row(p@, #[trigger] tasks[j].name@) {
                Some(Fault::ProducerNotDependency)
            } else {
                Some(Fault::UnknownProducer)
            }
        } else {
            fault_if(p@ == t.name@, Fault::OwnOutput)
        },
    }
}

/// The first task from `i` on whose fan-out is at fault.
pub open spec fn fanouts_fault(tasks: Seq<TaskSpec>, i: int) -> Option<(Fault, int)>
    decreases tasks.len() - i,
{
    if i < 0 || i >= tasks.len() {
        None
    } else {
        match fanout_fault(tasks, i) {
            Some(f) => Some((f, i)),
            None => fanouts_fault(tasks, i + 1),
        }
    }
}

/// The run's result comes from a task that is no hook.
pub open spec fn result_fault(spec: DagSpec) -> Option<Fault> {
    match spec.result_from {
        None => None,
        Some(rf) => if !known(spec.tasks@, rf@) {
            Some(Fault::UnknownResult)
        } else {
            fault_if(hook_name(spec.tasks@, rf@), Fault::HookResult)
        },
    }
}

/// A complaint about the workflow as a whole.
pub open spec fn overall(f: Option<Fault>) -> Option<(Fault, Option<int>)> {
    match f {
        Some(f) => Some((f, None)),
        None => None,
    }
}

/// A complaint about one task.
pub open spec fn of_task(f: Option<(Fault, int)>) -> Option<(Fault, Option<int>)> {
    match f {
        Some((f, i)) => Some((f, Some(i))),
        None => None,
    }
}

pub open spec fn sooner(
    a: Option<(Fault, Option<int>)>,
    b: Option<(Fault, Option<int>)>,
) -> Option<(Fault, Option<int>)> {
    if a is Some { a } else { b }
}

/// The first rule that the workflow breaks, and the task it breaks it in.
pub open spec fn workflow_fault(spec: DagSpec, edition: Edition) -> Option<(Fault, Option<int>)> {
    sooner(
        overall(header_fault(spec, edition)),
        sooner(
            of_task(tasks_fault(spec, 0, edition)),
            sooner(
                of_task(edges_fault(spec.tasks@, 0, 0)),
                sooner(
                    overall(fault_if(has_cycle(dependency_edges(spec.tasks@)), Fault::Cycle)),
                    sooner(
                        of_task(whens_fault(spec.tasks@, 0)),
                        sooner(of_task(fanouts_fault(spec.tasks@, 0)), overall(result_fault(spec))),
                    ),
                ),
            ),
        ),
    )
}

// ── Checking them ────────────────────────────────────────────────────────────

/// `index` finds every task among the first `n` by its name, and nothing else.
pub open spec fn indexes(index: Map<Seq<char>, usize>, tasks: Seq<TaskSpec>, n: int) -> bool {
    &&& forall|i: int| 0 <= i < n ==> index.contains_key(#[trigger] tasks[i].name@) && index[tasks[i].name@] == i
    &&& forall|k: Seq<char>|
        #[trigger] index.contains_key(k) ==> index[k] < n && tasks[index[k] as int].name@ == k
}

/// The names of the first `n` tasks.
pub open spec fn node_names(tasks: Seq<TaskSpec>, n: int) -> Seq<Seq<char>> {
    Seq::new(n as nat, |i: int| tasks[i].name@)
}

proof fn lemma_index_unique(tasks: Seq<TaskSpec>, i: int)
    requires
        0 <= i < tasks.len(),
        distinct_names(tasks),
    ensures
        task_index(tasks, tasks[i].name@) == i,
{
    let j = task_index(tasks, tasks[i].name@);
    assert(0 <= j < tasks.len() && tasks[j].name@ == tasks[i].name@);
}

proof fn lemma_tasks_ok(spec: DagSpec, from: int, i: int, edition: Edition)
    requires
        0 <= from <= i < spec.tasks@.len(),
        tasks_fault(spec, from, edition) is None,
    ensures
        task_fault(spec, i, edition) is None,
        !duplicate_name(spec.tasks@, i),
    decreases i - from,
{
    if from < i {
        lemma_tasks_ok(spec, from + 1, i, edition);
    }
}

proof fn lemma_distinct(spec: DagSpec, edition: Edition)
    requires
        tasks_fault(spec, 0, edition) is None,
    ensures
        distinct_names(spec.tasks@),
{
    assert forall|i: int, j: int| 0 <= i < j < spec.tasks@.len() implies #[trigger] spec.tasks@[i].name@
        != #[trigger] spec.tasks@[j].name@ by {
        lemma_tasks_ok(spec, 0, j, edition);
    }
}

proof fn lemma_count_grows(tasks: Seq<TaskSpec>, a: int, b: int)
    requires
        0 <= a <= b,
    ensures
        dependency_count(tasks, a) <= dependency_count(tasks, b),
    decreases b - a,
{
    if a < b {
        lemma_count_grows(tasks, a, b - 1);
    }
}

proof fn lemma_edges_into_len(tasks: Seq<TaskSpec>, i: int, k: int)
    requires
        0 <= k,
    ensures
        edges_into(tasks, i, k).len() == k,
    decreases k,
{
    if k > 0 {
        lemma_edges_into_len(tasks, i, k - 1);
    }
}

proof fn lemma_edges_len(tasks: Seq<TaskSpec>, n: int)
    requires
        0 <= n <= tasks.len(),
    ensures
        edges_upto(tasks, n).len() == dependency_count(tasks, n),
    decreases n,
{
    if n > 0 {
        lemma_edges_len(tasks, n - 1);
        lemma_edges_into_len(tasks, n - 1, tasks[n - 1].depends_on@.len() as int);
    }
}

fn check_when(t: &TaskSpec) -> (r: Option<Fault>)
    ensures
        r == when_fault(*t),
{
    match &t.when {
        None => None,
        Some(cond) => {
            let refs: Vec<String> = when_output_refs(cond.as_str());
            let ghost want = output_refs(cond@);
            let ghost deps = texts(t.depends_on@);
            let mut k: usize = 0;
            while k < refs.len()
                invariant
                    k <= refs@.len(),
                    texts(refs@) == want,
                    want == output_refs(cond@),
                    t.when == Some(*cond),
                    deps == texts(t.depends_on@),
                    reference_fault(want, deps, 0) == reference_fault(want, deps, k as int),
                decreases refs@.len() - k,
            {
                assert(want[k as int] == refs@[k as int]@);
                if !contains_text(&t.depends_on, refs[k].as_str()) {
                    return Some(Fault::WhenReference { index: k });
                }
                k += 1;
            }
            None
        },
    }
}

/// Whether a list of texts holds `name`.
pub fn contains_text(list: &Vec<String>, name: &str) -> (r: bool)
    ensures
        r == texts(list@).contains(name@),
{
    let mut i: usize = 0;
    while i < list.len()
        invariant
            i <= list@.len(),
            forall|k: int| 0 <= k < i ==> #[trigger] list@[k]@ != name@,
        decreases list@.len() - i,
    {
        if same(list[i].as_str(), name) {
            assert(texts(list@)[i as int] == name@);
            return true;
        }
        i += 1;
    }
    assert forall|k: int| 0 <= k < texts(list@).len() implies texts(list@)[k] != name@ by {
        assert(texts(list@)[k] == list@[k]@);
    }
    false
}

fn check_fanout(tasks: &Vec<TaskSpec>, i: usize) -> (r: Option<Fault>)
    requires
        i < tasks@.len(),
    ensures
        r == fanout_fault(tasks@, i as int),
{
    let t: &TaskSpec = &tasks[i];
    match &t.with_output_of {
        None => None,
        Some(p) => {
            let mut depends: bool = false;
            let mut k: usize = 0;
            while k < t.depends_on.len()
                invariant
                    k <= t.depends_on@.len(),
                    depends == (exists|x: int|
                        0 <= x < k && producer_row(p@, #[trigger] t.depends_on@[x]@)),
                decreases t.depends_on@.len() - k,
            {
                if is_producer_row(p.as_str(), t.depends_on[k].as_str()) {
                    depends = true;
                }
                k += 1;
            }
            if depends {
                return if same(p.as_str(), t.name.as_str()) {
                    Some(Fault::OwnOutput)
                } else {
                    None
                };
            }
            let mut j: usize = 0;
            while j < tasks.len()
                invariant
                    j <= tasks@.len(),
                    forall|x: int| 0 <= x < j ==> !producer_row(p@, #[trigger] tasks@[x].name@),
                    !(exists|x: int|
                        0 <= x < t.depends_on@.len() && producer_row(
                            p@,
                            #[trigger] t.depends_on@[x]@,
                        )),
                    i < tasks@.len(),
                    *t == tasks@[i as int],
                    t.with_output_of == Some(*p),
                decreases tasks@.len() - j,
            {
                if is_producer_row(p.as_str(), tasks[j].name.as_str()) {
                    return Some(Fault::ProducerNotDependency);
                }
                j += 1;
            }
            Some(Fault::UnknownProducer)
        },
    }
}


/// Where the names are distinct, the index decides what is known and what is a hook.
proof fn lemma_lookup(index: Map<Seq<char>, usize>, tasks: Seq<TaskSpec>, name: Seq<char>)
    requires
        indexes(index, tasks, tasks.len() as int),
        distinct_names(tasks),
    ensures
        known(tasks, name) == index.contains_key(name),
        index.contains_key(name) ==> index[name] == task_index(tasks, name) && index[name]
            < tasks.len() && hook_name(tasks, name) == (tasks[index[name] as int].hook is Some),
        !index.contains_key(name) ==> !hook_name(tasks, name),
{
    if index.contains_key(name) {
        let i = index[name] as int;
        assert(tasks[i].name@ == name);
        lemma_index_unique(tasks, i);
    }
}

/// Why a workflow was refused.
#[derive(Debug, Clone)]
pub struct DagError {
    pub fault: Fault,
    /// The task at fault, by its place in the workflow.
    pub task: Option<usize>,
    pub message: String,
}

impl DagError {
    fn new(spec: &DagSpec, fault: Fault, task: Option<usize>) -> (e: DagError)
        ensures
            e.fault == fault,
            e.task == task,
            e.explains(*spec),
    {
        DagError { fault, task, message: fault_message(spec, fault, task) }
    }

    /// The message is the one for the fault and its place.
    pub open spec fn explains(self, spec: DagSpec) -> bool {
        self.message@ == fault_text(spec, self.place().0, self.place().1)
    }

    pub open spec fn place(self) -> (Fault, Option<int>) {
        (
            self.fault,
            match self.task {
                Some(i) => Some(i as int),
                None => None,
            },
        )
    }
}

impl Links {
    /// Nodes, edges and index are those of the tasks.
    pub closed spec fn join(self, tasks: Seq<TaskSpec>) -> bool {
        &&& graph_nodes(self.graph) == node_names(tasks, tasks.len() as int)
        &&& graph_edges(self.graph) == dependency_edges(tasks)
        &&& indexes(self.node_index@, tasks, tasks.len() as int)
    }
}

impl DagGraph {
    /// The graph is that of the specification.
    pub open spec fn wf(&self) -> bool {
        &&& self.spec.tasks@.len() < u32::MAX
        &&& distinct_names(self.spec.tasks@)
        &&& self.links.join(self.spec.tasks@)
    }

    /// Builds the graph of an expanded workflow, in the open edition.
    pub fn from_spec(spec: DagSpec) -> (r: Result<DagGraph, DagError>)
        requires
            spec.tasks@.len() < u32::MAX,
            dependency_count(spec.tasks@, spec.tasks@.len() as int) < u32::MAX,
        ensures
            match r {
                Ok(g) => g.spec == spec && g.wf() && workflow_fault(spec, Edition::Open) is None,
                Err(e) => workflow_fault(spec, Edition::Open) == Some(e.place()) && e.explains(spec),
            },
    {
        DagGraph::from_spec_in(spec, Edition::Open)
    }

    /// Builds the graph of an expanded workflow, or names the first rule it
    /// breaks and the task it breaks it in.
    pub fn from_spec_in(spec: DagSpec, edition: Edition) -> (r: Result<DagGraph, DagError>)
        requires
            spec.tasks@.len() < u32::MAX,
            dependency_count(spec.tasks@, spec.tasks@.len() as int) < u32::MAX,
        ensures
            match r {
                Ok(g) => g.spec == spec && g.wf() && workflow_fault(spec, edition) is None,
                Err(e) => workflow_fault(spec, edition) == Some(e.place()) && e.explains(spec),
            },
    {
        let n: usize = spec.tasks.len();
        let ghost tasks = spec.tasks@;
        match check_header(&spec, edition) {
            Some(fault) => {
                return Err(DagError::new(&spec, fault, None));
            },
            None => {},
        }
        let mut graph: petgraph::graph::DiGraph<String, ()> = new_graph();
        let mut node_index: StringHashMap<usize> = StringHashMap::new();
        let mut i: usize = 0;
        assert(graph_nodes(graph) =~= node_names(tasks, 0));
        assert(graph_edges(graph) =~= Seq::<(int, int)>::empty());
        while i < n
            invariant
                i <= n,
                n == tasks.len(),
                n < u32::MAX,
                tasks == spec.tasks@,
                graph_nodes(graph) == node_names(tasks, i as int),
                graph_edges(graph) == Seq::<(int, int)>::empty(),
                indexes(node_index@, tasks, i as int),
                header_fault(spec, edition) is None,
                tasks_fault(spec, 0, edition) == tasks_fault(spec, i as int, edition),
            decreases n - i,
        {
            let duplicate: bool = node_index.contains_key(spec.tasks[i].name.as_str());
            assert(duplicate == duplicate_name(tasks, i as int)) by {
                if duplicate {
                    let j = node_index@[tasks[i as int].name@] as int;
                    assert(tasks[j].name@ == tasks[i as int].name@);
                }
            }
            match check_task(&spec, i, duplicate, edition) {
                Some(fault) => {
                    return Err(DagError::new(&spec, fault, Some(i)));
                },
                None => {},
            }
            let ghost was = node_index@;
            let idx: usize = add_node(&mut graph, spec.tasks[i].name.clone());
            node_index.insert(spec.tasks[i].name.clone(), idx);
            proof {
                assert(graph_nodes(graph) =~= node_names(tasks, i as int + 1));
                let k = tasks[i as int].name@;
                assert(!was.contains_key(k));
                assert forall|j: int| 0 <= j < i + 1 implies node_index@.contains_key(
                    #[trigger] tasks[j].name@,
                ) && node_index@[tasks[j].name@] == j by {
                    if j < i {
                        assert(was.contains_key(tasks[j].name@));
                    }
                }
            }
            i += 1;
        }
        proof {
            lemma_distinct(spec, edition);
        }
        let mut i: usize = 0;
        while i < n
            invariant
                i <= n,
                n == tasks.len(),
                n < u32::MAX,
                tasks == spec.tasks@,
                dependency_count(tasks, n as int) < u32::MAX,
                distinct_names(tasks),
                graph_nodes(graph) == node_names(tasks, n as int),
                graph_edges(graph) == edges_upto(tasks, i as int),
                indexes(node_index@, tasks, n as int),
                header_fault(spec, edition) is None,
                tasks_fault(spec, 0, edition) is None,
                edges_fault(tasks, 0, 0) == edges_fault(tasks, i as int, 0),
            decreases n - i,
        {
            let deps: &Vec<String> = &spec.tasks[i].depends_on;
            let mut k: usize = 0;
            assert(graph_edges(graph) =~= edges_upto(tasks, i as int) + edges_into(tasks, i as int, 0));
            while k < deps.len()
                invariant
                    i < n,
                    n == tasks.len(),
                    n < u32::MAX,
                    tasks == spec.tasks@,
                    *deps == tasks[i as int].depends_on,
                    k <= deps@.len(),
                    dependency_count(tasks, n as int) < u32::MAX,
                    distinct_names(tasks),
                    graph_nodes(graph) == node_names(tasks, n as int),
                    graph_edges(graph) == edges_upto(tasks, i as int) + edges_into(
                        tasks,
                        i as int,
                        k as int,
                    ),
                    indexes(node_index@, tasks, n as int),
                    header_fault(spec, edition) is None,
                    tasks_fault(spec, 0, edition) is None,
                    edges_fault(tasks, 0, 0) == edges_fault(tasks, i as int, k as int),
                decreases deps@.len() - k,
            {
                proof {
                    lemma_lookup(node_index@, tasks, deps@[k as int]@);
                    lemma_edges_len(tasks, i as int);
                    lemma_edges_into_len(tasks, i as int, k as int);
                    lemma_count_grows(tasks, i as int + 1, n as int);
                }
                match node_index.get(deps[k].as_str()) {
                    None => {
                        return Err(DagError::new(&spec, Fault::UnknownDependency { index: k }, Some(i)));
                    },
                    Some(from) => {
                        if spec.tasks[*from].hook.is_some() {
                            return Err(DagError::new(&spec, Fault::DependsOnHook { index: k }, Some(i)));
                        }
                        add_edge(&mut graph, *from, i);
                    },
                }
                assert(graph_edges(graph) =~= edges_upto(tasks, i as int) + edges_into(
                    tasks,
                    i as int,
                    k as int + 1,
                ));
                k += 1;
            }
            i += 1;
        }
        if is_cyclic(&graph) {
            return Err(DagError::new(&spec, Fault::Cycle, None));
        }
        let mut i: usize = 0;
        while i < n
            invariant
                i <= n,
                n == tasks.len(),
                tasks == spec.tasks@,
                header_fault(spec, edition) is None,
                tasks_fault(spec, 0, edition) is None,
                edges_fault(tasks, 0, 0) is None,
                !has_cycle(dependency_edges(tasks)),
                whens_fault(tasks, 0) == whens_fault(tasks, i as int),
            decreases n - i,
        {
            match check_when(&spec.tasks[i]) {
                Some(fault) => {
                    return Err(DagError::new(&spec, fault, Some(i)));
                },
                None => {},
            }
            i += 1;
        }
        let mut i: usize = 0;
        while i < n
            invariant
                i <= n,
                n == tasks.len(),
                tasks == spec.tasks@,
                header_fault(spec, edition) is None,
                tasks_fault(spec, 0, edition) is None,
                edges_fault(tasks, 0, 0) is None,
                !has_cycle(dependency_edges(tasks)),
                whens_fault(tasks, 0) is None,
                fanouts_fault(tasks, 0) == fanouts_fault(tasks, i as int),
            decreases n - i,
        {
            match check_fanout(&spec.tasks, i) {
                Some(fault) => {
                    return Err(DagError::new(&spec, fault, Some(i)));
                },
                None => {},
            }
            i += 1;
        }
        match &spec.result_from {
            Some(rf) => {
                proof {
                    lemma_lookup(node_index@, tasks, rf@);
                }
                match node_index.get(rf.as_str()) {
                    None => {
                        return Err(DagError::new(&spec, Fault::UnknownResult, None));
                    },
                    Some(at) => {
                        if spec.tasks[*at].hook.is_some() {
                            return Err(DagError::new(&spec, Fault::HookResult, None));
                        }
                    },
                }
            },
            None => {},
        }
        Ok(DagGraph { spec, links: Links { graph, node_index } })
    }

    /// The number of dependency edges into a task.
    pub fn dep_count(&self, task_name: &str) -> (n: usize)
        requires
            self.wf(),
            known(self.spec.tasks@, task_name@),
        ensures
            n == self.spec.tasks@[task_index(self.spec.tasks@, task_name@)].depends_on@.len(),
    {
        proof {
            lemma_lookup(self.links.node_index@, self.spec.tasks@, task_name@);
        }
        match self.links.node_index.get(task_name) {
            Some(idx) => {
                proof {
                    lemma_incoming(self.spec.tasks@, *idx as int, self.spec.tasks@.len() as int);
                }
                count_incoming(&self.links.graph, *idx)
            },
            None => 0,
        }
    }

    /// The task of this name; the first one, if several had it.
    pub fn task_spec(&self, task_name: &str) -> (r: Option<&TaskSpec>)
        ensures
            match r {
                Some(t) => exists|i: int| #![trigger self.spec.tasks@[i]]
                    0 <= i < self.spec.tasks@.len() && self.spec.tasks@[i] == *t && t.name@
                        == task_name@ && (forall|j: int|
                        0 <= j < i ==> #[trigger] self.spec.tasks@[j].name@ != task_name@),
                None => !known(self.spec.tasks@, task_name@),
            },
    {
        let mut i: usize = 0;
        while i < self.spec.tasks.len()
            invariant
                i <= self.spec.tasks@.len(),
                forall|j: int| 0 <= j < i ==> #[trigger] self.spec.tasks@[j].name@ != task_name@,
            decreases self.spec.tasks@.len() - i,
        {
            if same(self.spec.tasks[i].name.as_str(), task_name) {
                assert(self.spec.tasks@[i as int].name@ == task_name@);
                return Some(&self.spec.tasks[i]);
            }
            i += 1;
        }
        None
    }

    /// The task rows a run of this workflow inserts.
    pub fn task_row_count(&self) -> (n: i64)
        requires
            self.spec.tasks@.len() <= u32::MAX,
            planned_rows(self.spec.tasks@, self.spec.tasks@.len() as int) <= i64::MAX,
        ensures
            n == planned_rows(self.spec.tasks@, self.spec.tasks@.len() as int),
    {
        count_rows(&self.spec.tasks) as i64
    }
}

/// Only a task's own dependencies make edges into it, one each.
proof fn lemma_incoming(tasks: Seq<TaskSpec>, i: int, n: int)
    requires
        0 <= i < tasks.len(),
        0 <= n <= tasks.len(),
    ensures
        incoming(edges_upto(tasks, n), i) == if i < n { tasks[i].depends_on@.len() } else { 0 },
    decreases n,
{
    let pred = |e: (int, int)| e.1 == i;
    if n > 0 {
        lemma_incoming(tasks, i, n - 1);
        let own = edges_into(tasks, n - 1, tasks[n - 1].depends_on@.len() as int);
        lemma_incoming_own(tasks, i, n - 1, tasks[n - 1].depends_on@.len() as int);
        Seq::filter_distributes_over_add(edges_upto(tasks, n - 1), own, pred);
    } else {
        reveal(Seq::filter);
    }
}

proof fn lemma_incoming_own(tasks: Seq<TaskSpec>, i: int, j: int, k: int)
    requires
        0 <= k,
    ensures
        incoming(edges_into(tasks, j, k), i) == if i == j { k as nat } else { 0 },
    decreases k,
{
    reveal(Seq::filter);
    if k > 0 {
        lemma_incoming_own(tasks, i, j, k - 1);
        assert(edges_into(tasks, j, k).drop_last() =~= edges_into(tasks, j, k - 1));
    }
}

} // verus!
