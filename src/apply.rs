//! Turning an operation document into an ordered list of single-file steps,
//! and counting what the steps did.
use crate::config::{entry_path_spec, get_configuration_path, path_outcome, ErrorKind, StoreError, XdgRoots};
use crate::schema::{ConfigFile, Entry, EntryContent, Operation};
use crate::store::{decide_write, unescape_result, write_spec, WriteDecision};
use vstd::prelude::*;

verus! {

/// The file that a step acts on.
#[derive(Clone, Debug)]
pub enum Target {
    /// An entry of the store: component, version, entry name and category.
    Address { component: String, version: u64, entry: String, xdg_directory: String },
    /// A file named by its path.
    File(String),
}

/// One read, write or delete of one file; a write carries its value.
#[derive(Clone, Debug)]
pub struct Step {
    pub operation: Operation,
    pub target: Target,
    pub value: Option<String>,
}

/// The view of a target.
pub enum TargetView {
    Address(Seq<char>, u64, Seq<char>, Seq<char>),
    File(Seq<char>),
}

/// The view of a step.
pub struct StepView {
    pub operation: Operation,
    pub target: TargetView,
    pub value: Option<Seq<char>>,
}

impl View for Step {
    type V = StepView;

    open spec fn view(&self) -> StepView {
        StepView {
            operation: self.operation,
            target: match self.target {
                Target::Address { component, version, entry, xdg_directory } => TargetView::Address(
                    component@,
                    version,
                    entry@,
                    xdg_directory@,
                ),
                Target::File(f) => TargetView::File(f@),
            },
            value: match self.value {
                Some(v) => Some(v@),
                None => None,
            },
        }
    }
}

/// The views of a sequence of steps.
pub open spec fn step_views(s: Seq<Step>) -> Seq<StepView> {
    s.map_values(|x: Step| x@)
}

/// One write step per (entry name, value) pair, in order.
pub open spec fn write_steps(c: Seq<char>, v: u64, x: Seq<char>, pairs: Seq<(String, String)>) -> Seq<StepView> {
    pairs.map_values(
        |p: (String, String)|
            StepView {
                operation: Operation::Write,
                target: TargetView::Address(c, v, p.0@, x),
                value: Some(p.1@),
            },
    )
}

/// One read or delete step per entry name, in order.
pub open spec fn key_steps(op: Operation, c: Seq<char>, v: u64, x: Seq<char>, keys: Seq<String>) -> Seq<StepView> {
    keys.map_values(
        |k: String| StepView { operation: op, target: TargetView::Address(c, v, k@, x), value: None },
    )
}

/// The steps of one operation, or `None` where its shape is invalid: a file
/// write without a value, an entry-addressed operation without component,
/// version or entries, or a payload that does not fit the operation.
pub open spec fn entry_steps(e: Entry) -> Option<Seq<StepView>> {
    match e.file {
        Some(f) => match e.operation {
            Operation::Write => match e.value {
                Some(v) => Some(
                    seq![StepView { operation: Operation::Write, target: TargetView::File(f@), value: Some(v@) }],
                ),
                None => None,
            },
            _ => Some(seq![StepView { operation: e.operation, target: TargetView::File(f@), value: None }]),
        },
        None => match (e.component, e.version, e.entries) {
            (Some(c), Some(v), Some(content)) => {
                let x = match e.xdg_directory {
                    Some(x) => x@,
                    None => "config"@,
                };
                match content {
                    EntryContent::WriteEntries(pairs) => if e.operation == Operation::Write {
                        Some(write_steps(c@, v, x, pairs@))
                    } else {
                        None
                    },
                    EntryContent::ReadDeleteEntries(keys) => if e.operation != Operation::Write {
                        Some(key_steps(e.operation, c@, v, x, keys@))
                    } else {
                        None
                    },
                }
            },
            _ => None,
        },
    }
}

/// The steps of a list of operations in document order, or `None` where any
/// operation is invalid.
pub open spec fn plan_spec(ops: Seq<Entry>) -> Option<Seq<StepView>>
    decreases ops.len(),
{
    if ops.len() == 0 {
        Some(Seq::empty())
    } else {
        match (plan_spec(ops.drop_last()), entry_steps(ops.last())) {
            (Some(a), Some(b)) => Some(a + b),
            _ => None,
        }
    }
}

/// Whether planning succeeded with the steps `s`, or failed with `InvalidData`.
pub open spec fn plan_matches(r: Result<Vec<Step>, StoreError>, s: Option<Seq<StepView>>) -> bool {
    match r {
        Ok(steps) => s == Some(step_views(steps@)),
        Err(e) => s is None && e.kind == ErrorKind::InvalidData,
    }
}

proof fn lemma_step_views_push(s: Seq<Step>, x: Step)
    ensures
        step_views(s.push(x)) == step_views(s).push(x@),
{
    assert(step_views(s.push(x)) =~= step_views(s).push(x@));
}

fn invalid_document() -> (r: StoreError)
    ensures
        r.kind == ErrorKind::InvalidData,
{
    StoreError::new(ErrorKind::InvalidData, "Invalid operation configuration")
}

/// Appends the steps of one operation to `steps`; `false`, with `steps`
/// unchanged in view, where the operation is invalid.
fn push_entry_steps(e: &Entry, steps: &mut Vec<Step>) -> (ok: bool)
    ensures
        ok == entry_steps(*e) is Some,
        ok ==> step_views(final(steps)@) == step_views(old(steps)@) + entry_steps(*e)->Some_0,
{
    match &e.file {
        Some(f) => {
            match e.operation {
                Operation::Write => match &e.value {
                    Some(v) => {
                        let ghost before = steps@;
                        let s = Step { operation: Operation::Write, target: Target::File(f.clone()), value: Some(v.clone()) };
                        steps.push(s);
                        proof {
                            lemma_step_views_push(before, s);
                            assert(seq![s@] =~= entry_steps(*e)->Some_0);
                        }
                        return true;
                    },
                    None => return false,
                },
                _ => {
                    let ghost before = steps@;
                    let s = Step { operation: e.operation, target: Target::File(f.clone()), value: None };
                    steps.push(s);
                    proof {
                        lemma_step_views_push(before, s);
                        assert(seq![s@] =~= entry_steps(*e)->Some_0);
                    }
                    return true;
                },
            }
        },
        None => {},
    }
    let c = match &e.component {
        Some(c) => c,
        None => return false,
    };
    let v = match e.version {
        Some(v) => v,
        None => return false,
    };
    let content = match &e.entries {
        Some(content) => content,
        None => return false,
    };
    let x = match &e.xdg_directory {
        Some(x) => x.clone(),
        None => String::from_str("config"),
    };
    let ghost start = step_views(steps@);
    match content {
        EntryContent::WriteEntries(pairs) => {
            if e.operation != Operation::Write {
                return false;
            }
            let mut j: usize = 0;
            assert(write_steps(c@, v, x@, pairs@.take(0)) =~= Seq::<StepView>::empty());
            assert(start + Seq::<StepView>::empty() =~= start);
            while j < pairs.len()
                invariant
                    j <= pairs@.len(),
                    step_views(steps@) == start + write_steps(c@, v, x@, pairs@.take(j as int)),
                decreases pairs@.len() - j,
            {
                let ghost before = steps@;
                let s = Step {
                    operation: Operation::Write,
                    target: Target::Address {
                        component: c.clone(),
                        version: v,
                        entry: pairs[j].0.clone(),
                        xdg_directory: x.clone(),
                    },
                    value: Some(pairs[j].1.clone()),
                };
                steps.push(s);
                proof {
                    lemma_step_views_push(before, s);
                    assert(write_steps(c@, v, x@, pairs@.take(j + 1)) =~= write_steps(
                        c@,
                        v,
                        x@,
                        pairs@.take(j as int),
                    ).push(s@));
                }
                j += 1;
            }
            assert(pairs@.take(j as int) =~= pairs@);
            true
        },
        EntryContent::ReadDeleteEntries(keys) => {
            if e.operation == Operation::Write {
                return false;
            }
            let mut j: usize = 0;
            assert(key_steps(e.operation, c@, v, x@, keys@.take(0)) =~= Seq::<StepView>::empty());
            assert(start + Seq::<StepView>::empty() =~= start);
            while j < keys.len()
                invariant
                    j <= keys@.len(),
                    step_views(steps@) == start + key_steps(e.operation, c@, v, x@, keys@.take(j as int)),
                decreases keys@.len() - j,
            {
                let ghost before = steps@;
                let s = Step {
                    operation: e.operation,
                    target: Target::Address {
                        component: c.clone(),
                        version: v,
                        entry: keys[j].clone(),
                        xdg_directory: x.clone(),
                    },
                    value: None,
                };
                steps.push(s);
                proof {
                    lemma_step_views_push(before, s);
                    assert(key_steps(e.operation, c@, v, x@, keys@.take(j + 1)) =~= key_steps(
                        e.operation,
                        c@,
                        v,
                        x@,
                        keys@.take(j as int),
                    ).push(s@));
                }
                j += 1;
            }
            assert(keys@.take(j as int) =~= keys@);
            true
        },
    }
}

/// Checks every operation of a document and lists its steps in execution
/// order. A document with any invalid operation is rejected as a whole with
/// `InvalidData`, before any step runs.
pub fn plan_operations(doc: &ConfigFile) -> (r: Result<Vec<Step>, StoreError>)
    ensures
        plan_matches(r, plan_spec(doc.operations@)),
{
    let ops = &doc.operations;
    let mut steps: Vec<Step> = Vec::new();
    let mut i: usize = 0;
    assert(ops@.take(0) =~= Seq::<Entry>::empty());
    assert(step_views(steps@) =~= Seq::<StepView>::empty());
    while i < ops.len()
        invariant
            i <= ops@.len(),
            ops@ == doc.operations@,
            plan_spec(ops@.take(i as int)) == Some(step_views(steps@)),
        decreases ops@.len() - i,
    {
        assert(ops@.take(i + 1).drop_last() =~= ops@.take(i as int));
        assert(ops@.take(i + 1).last() == ops@[i as int]);
        if !push_entry_steps(&ops[i], &mut steps) {
            proof {
                assert(entry_steps(ops@[i as int]) is None);
                assert(plan_spec(ops@.take(i + 1)) is None);
                lemma_plan_none_extends(ops@, i as int + 1);
                assert(plan_spec(ops@) is None);
                assert(ops@ == doc.operations@);
            }
            let err = invalid_document();
            assert(plan_matches(Err(err), plan_spec(doc.operations@)));
            return Err(err);
        }
        i += 1;
    }
    assert(ops@.take(i as int) =~= ops@);
    Ok(steps)
}

/// A list whose prefix holds an invalid operation is invalid.
proof fn lemma_plan_none_extends(ops: Seq<Entry>, k: int)
    requires
        0 <= k <= ops.len(),
        plan_spec(ops.take(k)) is None,
    ensures
        plan_spec(ops) is None,
    decreases ops.len() - k,
{
    if k < ops.len() {
        assert(ops.take(k + 1).drop_last() =~= ops.take(k));
        lemma_plan_none_extends(ops, k + 1);
    } else {
        assert(ops.take(k) =~= ops);
    }
}

/// The path that a target resolves to: the entry's file in its category's
/// store, or the file path itself.
pub open spec fn target_path_spec(t: TargetView, roots: XdgRoots) -> Result<Seq<char>, ErrorKind> {
    match t {
        TargetView::Address(c, v, e, x) => entry_path_spec(c, v, e, x, roots),
        TargetView::File(f) => Ok(f),
    }
}

/// Resolves the file that a step acts on.
pub fn resolve_target(step: &Step, roots: &XdgRoots) -> (r: Result<String, StoreError>)
    ensures
        path_outcome(r) == target_path_spec(step@.target, *roots),
{
    match &step.target {
        Target::Address { component, version, entry, xdg_directory } => get_configuration_path(
            component.as_str(),
            *version,
            entry.as_str(),
            xdg_directory.as_str(),
            roots,
        ),
        Target::File(f) => Ok(f.clone()),
    }
}

/// How one step went: it did its work, found nothing to change, or failed.
#[derive(Clone, Copy, Debug, PartialEq, Eq, Structural)]
pub enum Outcome {
    Done,
    Unchanged,
    Failed,
}

/// The counters of an apply run.
#[derive(Clone, Copy, Debug, PartialEq, Eq, Structural)]
pub struct Summary {
    pub writes: u64,
    pub reads: u64,
    pub deletes: u64,
    pub skipped: u64,
}

impl Summary {
    /// The counters after one more step: a step that did its work counts as
    /// a write, read or delete; any other counts as skipped.
    pub open spec fn after(self, op: Operation, outcome: Outcome) -> Summary {
        if outcome == Outcome::Done {
            match op {
                Operation::Write => Summary { writes: (self.writes + 1) as u64, ..self },
                Operation::Read => Summary { reads: (self.reads + 1) as u64, ..self },
                Operation::Delete => Summary { deletes: (self.deletes + 1) as u64, ..self },
            }
        } else {
            Summary { skipped: (self.skipped + 1) as u64, ..self }
        }
    }

    /// Whether every counter can still grow by one.
    pub open spec fn can_grow(self) -> bool {
        self.writes < u64::MAX && self.reads < u64::MAX && self.deletes < u64::MAX && self.skipped
            < u64::MAX
    }

    /// All counters at zero.
    pub fn new() -> (r: Summary)
        ensures
            r == (Summary { writes: 0, reads: 0, deletes: 0, skipped: 0 }),
    {
        Summary { writes: 0, reads: 0, deletes: 0, skipped: 0 }
    }

    /// Counts one step.
    pub fn record(&mut self, op: Operation, outcome: Outcome)
        requires
            old(self).can_grow(),
        ensures
            *final(self) == old(self).after(op, outcome),
    {
        match outcome {
            Outcome::Done => match op {
                Operation::Write => self.writes = self.writes + 1,
                Operation::Read => self.reads = self.reads + 1,
                Operation::Delete => self.deletes = self.deletes + 1,
            },
            _ => self.skipped = self.skipped + 1,
        }
    }
}

/// The files of a store, by path.
pub type Files = Map<Seq<char>, Seq<char>>;

/// The content of the file at `p`, if there is one.
pub open spec fn content_at(files: Files, p: Seq<char>) -> Option<Seq<char>> {
    if files.contains_key(p) {
        Some(files[p])
    } else {
        None
    }
}

/// What one step does to the file at `p`, where every file operation
/// succeeds: the files afterwards and the outcome that is counted.
pub open spec fn effect_at(files: Files, p: Seq<char>, s: StepView) -> (Files, Outcome) {
    match s.operation {
        Operation::Write => match s.value {
            None => (files, Outcome::Failed),
            Some(v) => match write_spec(content_at(files, p), v) {
                Err(_) => (files, Outcome::Failed),
                Ok(None) => (files, Outcome::Unchanged),
                Ok(Some(u)) => (files.insert(p, u), Outcome::Done),
            },
        },
        Operation::Read => if files.contains_key(p) {
            (files, Outcome::Done)
        } else {
            (files, Outcome::Failed)
        },
        Operation::Delete => if files.contains_key(p) {
            (files.remove(p), Outcome::Done)
        } else {
            (files, Outcome::Failed)
        },
    }
}

/// What one step does to the files: nothing where its target does not
/// resolve, else its effect on the resolved file.
pub open spec fn step_effect(files: Files, s: StepView, roots: XdgRoots) -> (Files, Outcome) {
    match target_path_spec(s.target, roots) {
        Err(_) => (files, Outcome::Failed),
        Ok(p) => effect_at(files, p, s),
    }
}

/// What the file system is asked to do for one step.
#[derive(Clone, Debug)]
pub enum Action {
    /// Nothing changes.
    Keep,
    /// The file is replaced atomically with this content.
    Store(String),
    /// The file is removed.
    Remove,
}

/// The files after `a` was carried out on the file at `p`.
pub open spec fn perform(files: Files, p: Seq<char>, a: Action) -> Files {
    match a {
        Action::Keep => files,
        Action::Store(c) => files.insert(p, c@),
        Action::Remove => files.remove(p),
    }
}

/// Decides one step from the content of its file (`None`: there is no such
/// file): what to do to the file, and the outcome to count once that is done.
pub fn decide_step(step: &Step, current: &Option<String>) -> (r: (Action, Outcome))
    ensures
        forall|files: Files, p: Seq<char>|
            content_at(files, p) == (match current {
                Some(c) => Some(c@),
                None => None,
            }) ==> #[trigger] effect_at(files, p, step@) == (perform(files, p, r.0), r.1),
{
    match step.operation {
        Operation::Write => match &step.value {
            None => (Action::Keep, Outcome::Failed),
            Some(v) => match decide_write(current, v.as_str()) {
                Err(_) => (Action::Keep, Outcome::Failed),
                Ok(WriteDecision::Unchanged) => (Action::Keep, Outcome::Unchanged),
                Ok(WriteDecision::Replace(u)) => (Action::Store(u), Outcome::Done),
            },
        },
        Operation::Read => match current {
            Some(_) => (Action::Keep, Outcome::Done),
            None => (Action::Keep, Outcome::Failed),
        },
        Operation::Delete => match current {
            Some(_) => (Action::Remove, Outcome::Done),
            None => (Action::Keep, Outcome::Failed),
        },
    }
}

/// Running `steps` in order from `files` with the counters at `sum`.
pub open spec fn run_steps(files: Files, steps: Seq<StepView>, roots: XdgRoots, sum: Summary) -> (Files, Summary)
    decreases steps.len(),
{
    if steps.len() == 0 {
        (files, sum)
    } else {
        let (f, s) = run_steps(files, steps.drop_last(), roots, sum);
        let (g, o) = step_effect(f, steps.last(), roots);
        (g, s.after(steps.last().operation, o))
    }
}

/// The content that the last write among `steps` to the file `p` leaves
/// there, if any write to `p` has a value whose escape sequences expand.
pub open spec fn last_write(steps: Seq<StepView>, p: Seq<char>, roots: XdgRoots) -> Option<Seq<char>>
    decreases steps.len(),
{
    if steps.len() == 0 {
        None
    } else {
        let s = steps.last();
        if s.operation == Operation::Write && target_path_spec(s.target, roots) == Ok::<Seq<char>, ErrorKind>(p)
            && s.value is Some && unescape_result(s.value->Some_0) is Some {
            unescape_result(s.value->Some_0)
        } else {
            last_write(steps.drop_last(), p, roots)
        }
    }
}

/// Every step is a write.
pub open spec fn all_writes(steps: Seq<StepView>) -> bool {
    forall|i: int| 0 <= i < steps.len() ==> (#[trigger] steps[i]).operation == Operation::Write
}

/// After a run of writes, a file holds what the last write to it left, and is
/// untouched where no write reached it.
pub proof fn lemma_run_writes(files: Files, steps: Seq<StepView>, roots: XdgRoots, sum: Summary, p: Seq<char>)
    requires
        all_writes(steps),
    ensures
        content_at(run_steps(files, steps, roots, sum).0, p) == match last_write(steps, p, roots) {
            Some(u) => Some(u),
            None => content_at(files, p),
        },
    decreases steps.len(),
{
    if steps.len() > 0 {
        let pre = steps.drop_last();
        assert forall|i: int| 0 <= i < pre.len() implies (#[trigger] pre[i]).operation == Operation::Write by {
            assert(pre[i] == steps[i]);
        }
        lemma_run_writes(files, pre, roots, sum, p);
        assert(steps.last() == steps[steps.len() - 1]);
    }
}

/// The last write over two runs in a row: the second one's, where it has one.
pub proof fn lemma_last_write_concat(a: Seq<StepView>, b: Seq<StepView>, p: Seq<char>, roots: XdgRoots)
    ensures
        last_write(a + b, p, roots) == match last_write(b, p, roots) {
            Some(u) => Some(u),
            None => last_write(a, p, roots),
        },
    decreases b.len(),
{
    if b.len() == 0 {
        assert(a + b =~= a);
    } else {
        assert((a + b).drop_last() =~= a + b.drop_last());
        assert((a + b).last() == b.last());
        lemma_last_write_concat(a, b.drop_last(), p, roots);
    }
}

/// Each step writes a value whose escape sequences expand, to a file that
/// resolves, and no two steps write the same file.
pub open spec fn distinct_writes(steps: Seq<StepView>, roots: XdgRoots) -> bool {
    &&& all_writes(steps)
    &&& forall|i: int|
        0 <= i < steps.len() ==> {
            &&& target_path_spec((#[trigger] steps[i]).target, roots) is Ok
            &&& steps[i].value is Some
            &&& unescape_result(steps[i].value->Some_0) is Some
        }
    &&& forall|i: int, j: int|
        0 <= i < j < steps.len() ==> target_path_spec((#[trigger] steps[i]).target, roots) != target_path_spec(
            (#[trigger] steps[j]).target,
            roots,
        )
}

/// The file that step `i` writes.
pub open spec fn step_path(steps: Seq<StepView>, i: int, roots: XdgRoots) -> Seq<char> {
    target_path_spec(steps[i].target, roots)->Ok_0
}

/// The content that step `i` writes.
pub open spec fn step_content(steps: Seq<StepView>, i: int) -> Seq<char> {
    unescape_result(steps[i].value->Some_0)->Some_0
}

proof fn lemma_prefix_distinct(steps: Seq<StepView>, n: int, roots: XdgRoots)
    requires
        distinct_writes(steps, roots),
        0 <= n <= steps.len(),
    ensures
        distinct_writes(steps.take(n), roots),
{
    let t = steps.take(n);
    assert forall|i: int| 0 <= i < t.len() implies (#[trigger] t[i]).operation == Operation::Write by {
        assert(t[i] == steps[i]);
    }
    assert forall|i: int| 0 <= i < t.len() implies {
        &&& target_path_spec((#[trigger] t[i]).target, roots) is Ok
        &&& t[i].value is Some
        &&& unescape_result(t[i].value->Some_0) is Some
    } by {
        assert(t[i] == steps[i]);
    }
    assert forall|i: int, j: int| 0 <= i < j < t.len() implies target_path_spec((#[trigger] t[i]).target, roots)
        != target_path_spec((#[trigger] t[j]).target, roots) by {
        assert(t[i] == steps[i] && t[j] == steps[j]);
    }
}

/// In a run of distinct writes, the last write to the file of step `i` is
/// step `i` itself, and no step before `i` writes that file.
proof fn lemma_last_write_distinct(steps: Seq<StepView>, i: int, roots: XdgRoots)
    requires
        distinct_writes(steps, roots),
        0 <= i < steps.len(),
    ensures
        last_write(steps, step_path(steps, i, roots), roots) == Some(step_content(steps, i)),
        last_write(steps.take(i), step_path(steps, i, roots), roots) is None,
    decreases steps.len(),
{
    let p = step_path(steps, i, roots);
    lemma_no_write_before(steps, i, i, roots);
    if i < steps.len() - 1 {
        let pre = steps.drop_last();
        lemma_prefix_distinct(steps, steps.len() - 1, roots);
        assert(steps.take(steps.len() - 1) =~= pre);
        assert(pre[i] == steps[i]);
        lemma_last_write_distinct(pre, i, roots);
        assert(steps.last() == steps[steps.len() - 1]);
        assert(pre.take(i) =~= steps.take(i));
    } else {
        assert(steps.last() == steps[i]);
        assert(steps.drop_last() =~= steps.take(i));
    }
}

proof fn lemma_no_write_before(steps: Seq<StepView>, i: int, n: int, roots: XdgRoots)
    requires
        distinct_writes(steps, roots),
        0 <= n <= i < steps.len(),
    ensures
        last_write(steps.take(n), step_path(steps, i, roots), roots) is None,
    decreases n,
{
    if n > 0 {
        lemma_no_write_before(steps, i, n - 1, roots);
        assert(steps.take(n).drop_last() =~= steps.take(n - 1));
        assert(steps.take(n).last() == steps[n - 1]);
    }
}

/// Applying a list of writes to distinct files: where no file already holds
/// what its step writes, every step writes, and running the same list again on the
/// result changes nothing, with every step counted as skipped.
pub proof fn lemma_reapply_unchanged(files: Files, steps: Seq<StepView>, roots: XdgRoots, sum: Summary)
    requires
        distinct_writes(steps, roots),
        sum.writes + steps.len() <= u64::MAX,
        sum.skipped + steps.len() <= u64::MAX,
    ensures
        (forall|i: int| 0 <= i < steps.len() ==> content_at(files, #[trigger] step_path(steps, i, roots)) != Some(step_content(steps, i)))
            ==> run_steps(files, steps, roots, sum).1 == (Summary {
            writes: (sum.writes + steps.len()) as u64,
            ..sum
        }),
        run_steps(run_steps(files, steps, roots, sum).0, steps, roots, sum) == (
            run_steps(files, steps, roots, sum).0,
            Summary { skipped: (sum.skipped + steps.len()) as u64, ..sum },
        ),
{
    let f1 = run_steps(files, steps, roots, sum).0;
    assert forall|i: int| 0 <= i < steps.len() implies content_at(f1, #[trigger] step_path(steps, i, roots)) == Some(
        step_content(steps, i),
    ) by {
        lemma_last_write_distinct(steps, i, roots);
        lemma_run_writes(files, steps, roots, sum, step_path(steps, i, roots));
    }
    lemma_second_run(f1, steps, roots, sum, steps.len() as int);
    assert(steps.take(steps.len() as int) =~= steps);
    if forall|i: int| 0 <= i < steps.len() ==> content_at(files, #[trigger] step_path(steps, i, roots)) != Some(step_content(steps, i)) {
        lemma_first_run(files, steps, roots, sum, steps.len() as int);
    }
}

proof fn lemma_second_run(f1: Files, steps: Seq<StepView>, roots: XdgRoots, sum: Summary, n: int)
    requires
        distinct_writes(steps, roots),
        0 <= n <= steps.len(),
        sum.skipped + steps.len() <= u64::MAX,
        forall|i: int| 0 <= i < steps.len() ==> content_at(f1, #[trigger] step_path(steps, i, roots)) == Some(
            step_content(steps, i),
        ),
    ensures
        run_steps(f1, steps.take(n), roots, sum) == (f1, Summary { skipped: (sum.skipped + n) as u64, ..sum }),
    decreases n,
{
    if n == 0 {
        assert(steps.take(0).len() == 0);
    } else {
        lemma_second_run(f1, steps, roots, sum, n - 1);
        assert(steps.take(n).drop_last() =~= steps.take(n - 1));
        assert(steps.take(n).last() == steps[n - 1]);
        assert(content_at(f1, step_path(steps, n - 1, roots)) == Some(step_content(steps, n - 1)));
    }
}

proof fn lemma_first_run(files: Files, steps: Seq<StepView>, roots: XdgRoots, sum: Summary, n: int)
    requires
        distinct_writes(steps, roots),
        0 <= n <= steps.len(),
        sum.writes + steps.len() <= u64::MAX,
        forall|i: int| 0 <= i < steps.len() ==> content_at(files, #[trigger] step_path(steps, i, roots)) != Some(step_content(steps, i)),
    ensures
        run_steps(files, steps.take(n), roots, sum).1 == (Summary { writes: (sum.writes + n) as u64, ..sum }),
    decreases n,
{
    if n == 0 {
        assert(steps.take(0).len() == 0);
    } else {
        lemma_first_run(files, steps, roots, sum, n - 1);
        let pre = steps.take(n - 1);
        assert(steps.take(n).drop_last() =~= pre);
        assert(steps.take(n).last() == steps[n - 1]);
        let p = step_path(steps, n - 1, roots);
        lemma_no_write_before(steps, n - 1, n - 1, roots);
        lemma_prefix_distinct(steps, n - 1, roots);
        lemma_run_writes(files, pre, roots, sum, p);
    }
}

} // verus!
