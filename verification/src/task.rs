//! Background task bookkeeping.
//!
//! Heavy operations (checkout, update, import, export) run in the
//! background; the UI polls the task list.  A task can be cancelled while
//! it runs, and a failed or cancelled task can be retried with the
//! inputs it was started with.  At most `MAX_TASKS` finished tasks are kept.
//!
//! The manager is a plain value: the caller keeps it behind a lock and
//! supplies the clock (milliseconds since the epoch).

use vstd::prelude::*;

verus! {

/// Number of tasks kept after a task finishes.
pub const MAX_TASKS: usize = 50;

/// State of a task.
#[derive(Debug, Clone, Copy, PartialEq, Eq, Structural)]
pub enum TaskState {
    Running,
    Done,
    Failed,
    Cancelled,
}

/// A task as shown to the user.
#[derive(Debug, Clone)]
pub struct TaskInfo {
    pub id: u64,
    pub desc: String,
    pub state: TaskState,
    pub started_at: u64,
    pub finished_at: Option<u64>,
    pub output: String,
    pub result: Option<String>,
}

/// The inputs of a task, kept so that it can be retried.
#[derive(Clone, Debug)]
pub enum RetrySpec {
    Import { local: String, url: String, message: String },
    Checkout { url: String, dest: String },
    Update { path: String },
    Export { url: String, dest: String, rev: Option<i64> },
}

pub enum RetryModel {
    Import { local: Seq<char>, url: Seq<char>, message: Seq<char> },
    Checkout { url: Seq<char>, dest: Seq<char> },
    Update { path: Seq<char> },
    Export { url: Seq<char>, dest: Seq<char>, rev: Option<i64> },
}

impl DeepView for RetrySpec {
    type V = RetryModel;

    open spec fn deep_view(&self) -> RetryModel {
        match self {
            RetrySpec::Import { local, url, message } => RetryModel::Import {
                local: local@,
                url: url@,
                message: message@,
            },
            RetrySpec::Checkout { url, dest } => RetryModel::Checkout { url: url@, dest: dest@ },
            RetrySpec::Update { path } => RetryModel::Update { path: path@ },
            RetrySpec::Export { url, dest, rev } => RetryModel::Export {
                url: url@,
                dest: dest@,
                rev: *rev,
            },
        }
    }
}

impl RetrySpec {
    /// A copy with the same inputs.
    pub fn duplicate(&self) -> (res: RetrySpec)
        ensures
            res.deep_view() == self.deep_view(),
    {
        match self {
            RetrySpec::Import { local, url, message } => RetrySpec::Import {
                local: local.clone(),
                url: url.clone(),
                message: message.clone(),
            },
            RetrySpec::Checkout { url, dest } => RetrySpec::Checkout {
                url: url.clone(),
                dest: dest.clone(),
            },
            RetrySpec::Update { path } => RetrySpec::Update { path: path.clone() },
            RetrySpec::Export { url, dest, rev } => RetrySpec::Export {
                url: url.clone(),
                dest: dest.clone(),
                rev: *rev,
            },
        }
    }
}

pub struct TaskInfoModel {
    pub id: u64,
    pub desc: Seq<char>,
    pub state: TaskState,
    pub started_at: u64,
    pub finished_at: Option<u64>,
    pub output: Seq<char>,
    pub result: Option<Seq<char>>,
}

impl DeepView for TaskInfo {
    type V = TaskInfoModel;

    open spec fn deep_view(&self) -> TaskInfoModel {
        TaskInfoModel {
            id: self.id,
            desc: self.desc@,
            state: self.state,
            started_at: self.started_at,
            finished_at: self.finished_at,
            output: self.output@,
            result: self.result.deep_view(),
        }
    }
}

/// A task with its cancellation request and retry inputs.
pub struct TaskEntry {
    id: u64,
    desc: String,
    state: TaskState,
    started_at: u64,
    finished_at: Option<u64>,
    output: String,
    result: Option<String>,
    cancel: bool,
    retry: Option<RetrySpec>,
}

pub struct TaskEntryModel {
    pub info: TaskInfoModel,
    pub cancel: bool,
    pub retry: Option<RetryModel>,
}

impl DeepView for TaskEntry {
    type V = TaskEntryModel;

    closed spec fn deep_view(&self) -> TaskEntryModel {
        TaskEntryModel {
            info: TaskInfoModel {
                id: self.id,
                desc: self.desc@,
                state: self.state,
                started_at: self.started_at,
                finished_at: self.finished_at,
                output: self.output@,
                result: self.result.deep_view(),
            },
            cancel: self.cancel,
            retry: self.retry.deep_view(),
        }
    }
}

/// The tasks, oldest first, the id the next task gets, and (as ghost
/// state) every id handed out so far.
pub struct TaskManager {
    tasks: Vec<TaskEntry>,
    next_id: u64,
    issued: Ghost<Set<u64>>,
}

pub struct TaskManagerModel {
    pub tasks: Seq<TaskEntryModel>,
    pub next_id: u64,
    pub issued: Set<u64>,
}

impl DeepView for TaskManager {
    type V = TaskManagerModel;

    closed spec fn deep_view(&self) -> TaskManagerModel {
        TaskManagerModel { tasks: self.tasks.deep_view(), next_id: self.next_id, issued: self.issued@ }
    }
}

/// Index of the first task with this id, or the length.
pub open spec fn index_of(tasks: Seq<TaskEntryModel>, id: u64) -> int
    decreases tasks.len(),
{
    if tasks.len() == 0 {
        0
    } else if tasks[0].info.id == id {
        0
    } else {
        1 + index_of(tasks.drop_first(), id)
    }
}

/// A task that ended badly and can be retried.
pub open spec fn retryable(s: TaskState) -> bool {
    s == TaskState::Failed || s == TaskState::Cancelled
}

/// Index of the first retryable task with this id, or the length.
pub open spec fn retry_index(tasks: Seq<TaskEntryModel>, id: u64) -> int
    decreases tasks.len(),
{
    if tasks.len() == 0 {
        0
    } else if tasks[0].info.id == id && retryable(tasks[0].info.state) {
        0
    } else {
        1 + retry_index(tasks.drop_first(), id)
    }
}

proof fn lemma_index_of(tasks: Seq<TaskEntryModel>, id: u64, k: int)
    requires
        0 <= k <= tasks.len(),
        forall|j: int| 0 <= j < k ==> (#[trigger] tasks[j]).info.id != id,
        k == tasks.len() || tasks[k].info.id == id,
    ensures
        index_of(tasks, id) == k,
    decreases k,
{
    if k > 0 {
        assert forall|j: int| 0 <= j < k - 1 implies (#[trigger] tasks.drop_first()[j]).info.id
            != id by {
            assert(tasks.drop_first()[j] == tasks[j + 1]);
        }
        lemma_index_of(tasks.drop_first(), id, k - 1);
    }
}

proof fn lemma_retry_index(tasks: Seq<TaskEntryModel>, id: u64, k: int)
    requires
        0 <= k <= tasks.len(),
        forall|j: int|
            0 <= j < k ==> !((#[trigger] tasks[j]).info.id == id && retryable(tasks[j].info.state)),
        k == tasks.len() || (tasks[k].info.id == id && retryable(tasks[k].info.state)),
    ensures
        retry_index(tasks, id) == k,
    decreases k,
{
    if k > 0 {
        assert forall|j: int| 0 <= j < k - 1 implies !((#[trigger] tasks.drop_first()[j]).info.id
            == id && retryable(tasks.drop_first()[j].info.state)) by {
            assert(tasks.drop_first()[j] == tasks[j + 1]);
        }
        lemma_retry_index(tasks.drop_first(), id, k - 1);
    }
}

/// A new running task.
pub open spec fn new_task(id: u64, desc: Seq<char>, retry: Option<RetryModel>, now: u64) -> TaskEntryModel {
    TaskEntryModel {
        info: TaskInfoModel {
            id,
            desc,
            state: TaskState::Running,
            started_at: now,
            finished_at: None,
            output: seq![],
            result: None,
        },
        cancel: false,
        retry,
    }
}

/// The task list after a task finishes: its final state is recorded, then
/// only the newest `MAX_TASKS` tasks are kept.
pub open spec fn finished(
    tasks: Seq<TaskEntryModel>,
    id: u64,
    state: TaskState,
    output: Seq<char>,
    result: Option<Seq<char>>,
    now: u64,
) -> Seq<TaskEntryModel> {
    let k = index_of(tasks, id);
    let t1 = if k < tasks.len() {
        tasks.update(
            k,
            TaskEntryModel {
                info: TaskInfoModel {
                    state,
                    finished_at: Some(now),
                    output,
                    result,
                    ..tasks[k].info
                },
                ..tasks[k]
            },
        )
    } else {
        tasks
    };
    if t1.len() > MAX_TASKS {
        t1.skip(t1.len() - MAX_TASKS)
    } else {
        t1
    }
}

/// Every id handed out so far is below the counter: the next id is then
/// fresh.  It holds from `new` on, as long as the counter has not wrapped.
pub open spec fn issued_below(m: TaskManagerModel) -> bool {
    forall|x: u64| #[trigger] m.issued.contains(x) ==> x < m.next_id
}

/// The tasks as shown: newest first.
pub open spec fn listed(tasks: Seq<TaskEntryModel>) -> Seq<TaskInfoModel> {
    Seq::new(tasks.len(), |i: int| tasks[tasks.len() - 1 - i].info)
}

impl TaskManager {
    /// No tasks; the first task gets id 1.
    pub fn new() -> (res: Self)
        ensures
            res.deep_view().tasks.len() == 0,
            res.deep_view().next_id == 1,
            res.deep_view().issued == Set::<u64>::empty(),
    {
        let res = TaskManager { tasks: Vec::new(), next_id: 1, issued: Ghost(Set::empty()) };
        assert(res.deep_view().tasks =~= Seq::<TaskEntryModel>::empty());
        res
    }

    /// Starts a task without retry inputs; returns its id.
    pub fn create_task(&mut self, desc: String, now: u64) -> (id: u64)
        ensures
            id == old(self).deep_view().next_id,
            final(self).deep_view().next_id == old(self).deep_view().next_id.wrapping_add(1),
            final(self).deep_view().tasks == old(self).deep_view().tasks.push(
                new_task(id, desc@, None, now),
            ),
            final(self).deep_view().issued == old(self).deep_view().issued.insert(id),
            issued_below(old(self).deep_view()) && old(self).deep_view().next_id < u64::MAX ==> {
                &&& !old(self).deep_view().issued.contains(id)
                &&& issued_below(final(self).deep_view())
            },
    {
        self.create_task_with_retry(desc, None, now)
    }

    /// Starts a task, recording its retry inputs; returns its id.  Ids are
    /// handed out in increasing order (wrapping like an atomic counter).
    pub fn create_task_with_retry(&mut self, desc: String, retry: Option<RetrySpec>, now: u64) -> (id: u64)
        ensures
            id == old(self).deep_view().next_id,
            final(self).deep_view().next_id == old(self).deep_view().next_id.wrapping_add(1),
            final(self).deep_view().tasks == old(self).deep_view().tasks.push(
                new_task(id, desc@, retry.deep_view(), now),
            ),
            final(self).deep_view().issued == old(self).deep_view().issued.insert(id),
            issued_below(old(self).deep_view()) && old(self).deep_view().next_id < u64::MAX ==> {
                &&& !old(self).deep_view().issued.contains(id)
                &&& issued_below(final(self).deep_view())
            },
    {
        let id = self.next_id;
        self.next_id = self.next_id.wrapping_add(1);
        proof {
            self.issued@ = self.issued@.insert(id);
        }
        let ghost before = self.tasks.deep_view();
        let e = TaskEntry {
            id,
            desc,
            state: TaskState::Running,
            started_at: now,
            finished_at: None,
            output: String::new(),
            result: None,
            cancel: false,
            retry,
        };
        let ghost em = e.deep_view();
        self.tasks.push(e);
        assert(self.tasks.deep_view() =~= before.push(em));
        id
    }

    fn find(&self, id: u64) -> (res: usize)
        ensures
            res as int == index_of(self.deep_view().tasks, id),
            res <= self.tasks@.len(),
    {
        let ghost ts = self.tasks.deep_view();
        let mut i: usize = 0;
        while i < self.tasks.len()
            invariant
                ts == self.tasks.deep_view(),
                i <= self.tasks@.len(),
                forall|j: int| 0 <= j < i ==> (#[trigger] ts[j]).info.id != id,
            decreases self.tasks@.len() - i,
        {
            if self.tasks[i].id == id {
                proof {
                    lemma_index_of(ts, id, i as int);
                }
                return i;
            }
            i = i + 1;
        }
        proof {
            lemma_index_of(ts, id, i as int);
        }
        i
    }

    /// Records how a task ended (the running thread calls this last), then
    /// drops the oldest tasks beyond `MAX_TASKS`.
    pub fn finish_task(
        &mut self,
        id: u64,
        state: TaskState,
        output: String,
        result: Option<String>,
        now: u64,
    )
        ensures
            final(self).deep_view().next_id == old(self).deep_view().next_id,
            final(self).deep_view().issued == old(self).deep_view().issued,
            final(self).deep_view().tasks == finished(
                old(self).deep_view().tasks,
                id,
                state,
                output@,
                result.deep_view(),
                now,
            ),
    {
        let k = self.find(id);
        let ghost before = self.tasks.deep_view();
        if k < self.tasks.len() {
            let mut e = self.tasks.remove(k);
            let ghost rest = self.tasks.deep_view();
            e.state = state;
            e.finished_at = Some(now);
            e.output = output;
            e.result = result;
            let ghost em = e.deep_view();
            self.tasks.insert(k, e);
            assert(rest =~= before.remove(k as int));
            assert(self.tasks.deep_view() =~= before.update(k as int, em));
        }
        let ghost t1 = self.tasks.deep_view();
        if self.tasks.len() > MAX_TASKS {
            let drop = self.tasks.len() - MAX_TASKS;
            let tail = self.tasks.split_off(drop);
            self.tasks = tail;
            assert(self.tasks.deep_view() =~= t1.skip(t1.len() - MAX_TASKS));
        }
    }

    /// Requests cancellation of a running task; an unknown or finished
    /// task gives `false`.
    pub fn cancel_task(&mut self, id: u64) -> (res: bool)
        ensures
            final(self).deep_view().next_id == old(self).deep_view().next_id,
            final(self).deep_view().issued == old(self).deep_view().issued,
            ({
                let ts = old(self).deep_view().tasks;
                let k = index_of(ts, id);
                if k < ts.len() && ts[k].info.state == TaskState::Running {
                    &&& res
                    &&& final(self).deep_view().tasks == ts.update(
                        k,
                        TaskEntryModel { cancel: true, ..ts[k] },
                    )
                } else {
                    &&& !res
                    &&& final(self).deep_view().tasks == ts
                }
            }),
    {
        let k = self.find(id);
        let ghost before = self.tasks.deep_view();
        if k < self.tasks.len() && self.tasks[k].state == TaskState::Running {
            let mut e = self.tasks.remove(k);
            e.cancel = true;
            let ghost em = e.deep_view();
            self.tasks.insert(k, e);
            assert(self.tasks.deep_view() =~= before.update(k as int, em));
            true
        } else {
            false
        }
    }

    /// Whether cancellation of the task was requested.
    pub fn cancel_requested(&self, id: u64) -> (res: bool)
        ensures
            ({
                let ts = self.deep_view().tasks;
                let k = index_of(ts, id);
                res == (k < ts.len() && ts[k].cancel)
            }),
    {
        let k = self.find(id);
        k < self.tasks.len() && self.tasks[k].cancel
    }

    /// The retry inputs of a failed or cancelled task.
    pub fn get_retry(&self, id: u64) -> (res: Option<RetrySpec>)
        ensures
            ({
                let ts = self.deep_view().tasks;
                let k = retry_index(ts, id);
                res.deep_view() == (if k < ts.len() {
                    ts[k].retry
                } else {
                    None
                })
            }),
    {
        let ghost ts = self.tasks.deep_view();
        let mut i: usize = 0;
        while i < self.tasks.len()
            invariant
                ts == self.tasks.deep_view(),
                i <= self.tasks@.len(),
                forall|j: int|
                    0 <= j < i ==> !((#[trigger] ts[j]).info.id == id && retryable(
                        ts[j].info.state,
                    )),
            decreases self.tasks@.len() - i,
        {
            let e = &self.tasks[i];
            if e.id == id && (e.state == TaskState::Failed || e.state == TaskState::Cancelled) {
                proof {
                    lemma_retry_index(ts, id, i as int);
                }
                return match &e.retry {
                    Some(r) => Some(r.duplicate()),
                    None => None,
                };
            }
            i = i + 1;
        }
        proof {
            lemma_retry_index(ts, id, i as int);
        }
        None
    }

    /// The tasks, newest first.
    pub fn list_tasks(&self) -> (res: Vec<TaskInfo>)
        ensures
            res.deep_view() == listed(self.deep_view().tasks),
    {
        let ghost ts = self.tasks.deep_view();
        let mut res: Vec<TaskInfo> = Vec::new();
        let n = self.tasks.len();
        let mut i: usize = 0;
        while i < n
            invariant
                ts == self.tasks.deep_view(),
                n == self.tasks@.len(),
                i <= n,
                res.deep_view() == listed(ts).take(i as int),
            decreases n - i,
        {
            let e = &self.tasks[n - 1 - i];
            let info = TaskInfo {
                id: e.id,
                desc: e.desc.clone(),
                state: e.state,
                started_at: e.started_at,
                finished_at: e.finished_at,
                output: e.output.clone(),
                result: match &e.result {
                    Some(r) => Some(r.clone()),
                    None => None,
                },
            };
            let ghost before = res.deep_view();
            assert(info.deep_view() == ts[n - 1 - i].info);
            let ghost im = info.deep_view();
            res.push(info);
            assert(res.deep_view() =~= before.push(im));
            assert(listed(ts)[i as int] == im);
            assert(listed(ts).take(i + 1) =~= listed(ts).take(i as int).push(im));
            i = i + 1;
        }
        assert(listed(ts).take(n as int) =~= listed(ts));
        res
    }
}

// ---------------------------------------------------------------------------
// laws
// ---------------------------------------------------------------------------

pub proof fn lemma_index_of_bound(tasks: Seq<TaskEntryModel>, id: u64)
    ensures
        0 <= index_of(tasks, id) <= tasks.len(),
        index_of(tasks, id) < tasks.len() ==> tasks[index_of(tasks, id)].info.id == id,
    decreases tasks.len(),
{
    if tasks.len() > 0 && tasks[0].info.id != id {
        lemma_index_of_bound(tasks.drop_first(), id);
        let k = index_of(tasks.drop_first(), id);
        if k < tasks.drop_first().len() {
            assert(tasks[k + 1] == tasks.drop_first()[k]);
        }
    }
}

/// After a task finishes at most `MAX_TASKS` tasks remain, and those are
/// the newest ones: the last tasks of the list before, in order.
pub proof fn law_finish_keeps_newest(
    tasks: Seq<TaskEntryModel>,
    id: u64,
    state: TaskState,
    output: Seq<char>,
    result: Option<Seq<char>>,
    now: u64,
)
    ensures
        ({
            let f = finished(tasks, id, state, output, result, now);
            &&& f.len() <= MAX_TASKS
            &&& f.len() == (if tasks.len() > MAX_TASKS {
                MAX_TASKS as int
            } else {
                tasks.len() as int
            })
            &&& forall|j: int|
                0 <= j < f.len() ==> (#[trigger] f[j]).info.id == tasks[j + (tasks.len()
                    - f.len())].info.id
        }),
{
    lemma_index_of_bound(tasks, id);
    let f = finished(tasks, id, state, output, result, now);
    let k = index_of(tasks, id);
    let t1 = if k < tasks.len() {
        tasks.update(
            k,
            TaskEntryModel {
                info: TaskInfoModel {
                    state,
                    finished_at: Some(now),
                    output,
                    result,
                    ..tasks[k].info
                },
                ..tasks[k]
            },
        )
    } else {
        tasks
    };
    assert(t1.len() == tasks.len());
    assert forall|x: int| 0 <= x < t1.len() implies (#[trigger] t1[x]).info.id == tasks[x].info.id by {
    }
    assert forall|j: int| 0 <= j < f.len() implies (#[trigger] f[j]).info.id == tasks[j + (
    tasks.len() - f.len())].info.id by {
        assert(f[j] == t1[j + (t1.len() - f.len())]);
    }
}

/// A newly created task is listed first, running.
pub proof fn law_new_task_listed_first(
    tasks: Seq<TaskEntryModel>,
    id: u64,
    desc: Seq<char>,
    retry: Option<RetryModel>,
    now: u64,
)
    ensures
        listed(tasks.push(new_task(id, desc, retry, now)))[0].id == id,
        listed(tasks.push(new_task(id, desc, retry, now)))[0].state == TaskState::Running,
        listed(tasks.push(new_task(id, desc, retry, now)))[0].desc == desc,
{
    let t = tasks.push(new_task(id, desc, retry, now));
    assert(listed(t)[0] == t[t.len() - 1].info);
}

/// Only a task that failed or was cancelled can be retried.
pub proof fn law_retry_only_after_failure(tasks: Seq<TaskEntryModel>, id: u64)
    ensures
        0 <= retry_index(tasks, id) <= tasks.len(),
        retry_index(tasks, id) < tasks.len() ==> retryable(tasks[retry_index(tasks, id)].info.state)
            && tasks[retry_index(tasks, id)].info.id == id,
    decreases tasks.len(),
{
    if tasks.len() > 0 && !(tasks[0].info.id == id && retryable(tasks[0].info.state)) {
        law_retry_only_after_failure(tasks.drop_first(), id);
        let k = retry_index(tasks.drop_first(), id);
        if k < tasks.drop_first().len() {
            assert(tasks[k + 1] == tasks.drop_first()[k]);
        }
    }
}

/// Every listed task has an id below the counter `next_id`.  A new
/// manager has no tasks, so this holds from the start.
pub open spec fn ids_below(tasks: Seq<TaskEntryModel>, next_id: u64) -> bool {
    forall|i: int| 0 <= i < tasks.len() ==> (#[trigger] tasks[i]).info.id < next_id
}

/// A new task gets an id that no listed task has, and the ids stay below
/// the counter, as long as the 64-bit counter has not wrapped around.
pub proof fn law_new_task_id_is_fresh(
    tasks: Seq<TaskEntryModel>,
    next_id: u64,
    desc: Seq<char>,
    retry: Option<RetryModel>,
    now: u64,
)
    requires
        ids_below(tasks, next_id),
        next_id < u64::MAX,
    ensures
        forall|i: int| 0 <= i < tasks.len() ==> (#[trigger] tasks[i]).info.id != next_id,
        ids_below(tasks.push(new_task(next_id, desc, retry, now)), next_id.wrapping_add(1)),
{
    let t = tasks.push(new_task(next_id, desc, retry, now));
    assert(next_id.wrapping_add(1) == next_id + 1);
    assert forall|i: int| 0 <= i < t.len() implies (#[trigger] t[i]).info.id < next_id.wrapping_add(
        1,
    ) by {
        if i < tasks.len() {
            assert(t[i] == tasks[i]);
        }
    }
}

/// Finishing a task keeps the ids below the counter.
pub proof fn law_finish_keeps_ids_below(
    tasks: Seq<TaskEntryModel>,
    next_id: u64,
    id: u64,
    state: TaskState,
    output: Seq<char>,
    result: Option<Seq<char>>,
    now: u64,
)
    requires
        ids_below(tasks, next_id),
    ensures
        ids_below(finished(tasks, id, state, output, result, now), next_id),
{
    law_finish_keeps_newest(tasks, id, state, output, result, now);
    let f = finished(tasks, id, state, output, result, now);
    assert forall|j: int| 0 <= j < f.len() implies (#[trigger] f[j]).info.id < next_id by {
        assert(f[j].info.id == tasks[j + (tasks.len() - f.len())].info.id);
    }
}

/// Requesting cancellation keeps the ids below the counter.
pub proof fn law_cancel_keeps_ids_below(tasks: Seq<TaskEntryModel>, next_id: u64, id: u64)
    requires
        ids_below(tasks, next_id),
    ensures
        index_of(tasks, id) < tasks.len() ==> ids_below(
            tasks.update(index_of(tasks, id), TaskEntryModel { cancel: true, ..tasks[index_of(tasks, id)] }),
            next_id,
        ),
{
    lemma_index_of_bound(tasks, id);
    let k = index_of(tasks, id);
    if k < tasks.len() {
        let t = tasks.update(k, TaskEntryModel { cancel: true, ..tasks[k] });
        assert forall|j: int| 0 <= j < t.len() implies (#[trigger] t[j]).info.id < next_id by {
            assert(t[j].info.id == tasks[j].info.id);
        }
    }
}

} // verus!
