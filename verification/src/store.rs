//! The keyed registry of live tasks.
//!
//! A task lives in the store exactly while its state is non-terminal:
//! every transition that lands in a terminal state removes the entry
//! before its terminal event is handed back, so the caller publishes the
//! event only after the key is gone.  Ids are unique: an insertion under
//! a live id is refused.

use vstd::prelude::*;

use crate::args::TaskArgs;
use crate::error::Error;
use crate::message::MessageView;
use crate::message::TaskMessage;
use crate::message::TaskRunningMessage;
use crate::progress::ProgressType;
use crate::state_machine::JoinOutcome;
use crate::state_machine::KillOutcome;
use crate::state_machine::SignalOutcome;
use crate::state_machine::SpawnOutcome;
use crate::state_machine::StateView;
use crate::state_machine::TaskState;
use crate::state_machine::TaskStateCode;
use crate::state_machine::spec_error;
use crate::state_machine::spec_finish;
use crate::state_machine::spec_pause;
use crate::state_machine::spec_resume;
use crate::state_machine::spec_start;
use crate::state_machine::spec_stop;
use crate::strutil::str_eq;

verus! {

/// What a task shares besides its state: identity, the two program
/// paths, and its arguments.
pub struct TaskData {
    pub id: String,
    pub ffmpeg_program: String,
    pub ffprobe_program: String,
    pub args: TaskArgs,
}

/// One live task: its shared data and its current state node.
pub struct Task {
    pub data: TaskData,
    pub state: TaskState,
}

/// The keyed store of live tasks.
pub struct TaskStore {
    pub tasks: Vec<Task>,
}

/// What a driven transition reports back: the state the task landed in
/// and the events to publish, in order, after this call returned.
pub struct StepReport {
    pub code: TaskStateCode,
    pub events: Vec<TaskMessage>,
}

/// The views of a list of events.
pub open spec fn events_view(es: Vec<TaskMessage>) -> Seq<MessageView> {
    Seq::new(es@.len(), |i: int| es@[i]@)
}

/// The events a transition into `s` publishes: failing tasks report
/// their reason, finished tasks their completion, and a stop (or a
/// transition that stays live) reports nothing.
pub open spec fn terminal_events(id: Seq<char>, s: StateView) -> Seq<MessageView> {
    match s {
        StateView::Errored(m) => seq![MessageView::Errored { id, reason: m }],
        StateView::Finished => seq![MessageView::Finished { id }],
        _ => Seq::empty(),
    }
}

impl TaskStore {
    /// Whether a live task carries `id`.
    pub open spec fn contains_id(self, id: Seq<char>) -> bool {
        exists|i: int|
            0 <= i < self.tasks@.len() && (#[trigger] self.tasks@[i]).data.id@ == id
    }

    /// The index of the live task carrying `id`.
    pub open spec fn idx_of(self, id: Seq<char>) -> int {
        choose|i: int| 0 <= i < self.tasks@.len() && (#[trigger] self.tasks@[i]).data.id@ == id
    }

    /// Well-formedness: ids are unique and no stored state is terminal.
    pub open spec fn wf(self) -> bool {
        &&& forall|i: int, j: int|
            0 <= i < j < self.tasks@.len() ==> (#[trigger] self.tasks@[i]).data.id@ != (
            #[trigger] self.tasks@[j]).data.id@
        &&& forall|i: int|
            0 <= i < self.tasks@.len() ==> !(#[trigger] self.tasks@[i]).state@.is_terminal()
    }

    /// The store as a map from id to state.
    pub open spec fn as_map(self) -> Map<Seq<char>, StateView> {
        Map::new(
            |id: Seq<char>| self.contains_id(id),
            |id: Seq<char>| self.tasks@[self.idx_of(id)].state@,
        )
    }
}

/// In a well-formed store, an id determines its index: any two entries
/// sharing an id are the same entry.
pub proof fn lemma_id_determines_index(s: TaskStore, i: int, j: int)
    requires
        s.wf(),
        0 <= i < s.tasks@.len(),
        0 <= j < s.tasks@.len(),
        s.tasks@[i].data.id@ == s.tasks@[j].data.id@,
    ensures
        i == j,
{
}

/// The chosen index of an entry's id is that entry.
proof fn lemma_idx_at(s: TaskStore, i: int)
    requires
        s.wf(),
        0 <= i < s.tasks@.len(),
    ensures
        s.contains_id(s.tasks@[i].data.id@),
        s.idx_of(s.tasks@[i].data.id@) == i,
{
    let id = s.tasks@[i].data.id@;
    assert(s.contains_id(id));
    let j = s.idx_of(id);
    lemma_id_determines_index(s, i, j);
}

/// After replacing entry `i` by a live task with the same data, the
/// store maps that id to the new state and nothing else moved.
proof fn lemma_map_after_update(pre: TaskStore, post: TaskStore, i: int, t: Task)
    requires
        pre.wf(),
        0 <= i < pre.tasks@.len(),
        t.data.id@ == pre.tasks@[i].data.id@,
        !t.state@.is_terminal(),
        post.tasks@ == pre.tasks@.remove(i).push(t),
    ensures
        post.wf(),
        post.as_map() == pre.as_map().insert(t.data.id@, t.state@),
{
    let n = pre.tasks@.len() as int;
    let pid = t.data.id@;
    assert(post.tasks@.len() == n);
    assert(forall|k: int|
        0 <= k < n - 1 ==> post.tasks@[k] == (if k < i {
            pre.tasks@[k]
        } else {
            pre.tasks@[k + 1]
        }));
    assert(post.tasks@[n - 1] == t);
    assert(post.wf()) by {
        assert forall|a: int, b: int| 0 <= a < b < n implies (#[trigger] post.tasks@[a]).data.id@
            != (#[trigger] post.tasks@[b]).data.id@ by {
            if b < n - 1 {
                let pa = if a < i {
                    a
                } else {
                    a + 1
                };
                let pb = if b < i {
                    b
                } else {
                    b + 1
                };
                assert(post.tasks@[a] == pre.tasks@[pa]);
                assert(post.tasks@[b] == pre.tasks@[pb]);
            } else {
                let pa = if a < i {
                    a
                } else {
                    a + 1
                };
                assert(post.tasks@[a] == pre.tasks@[pa]);
                if post.tasks@[a].data.id@ == pid {
                    lemma_id_determines_index(pre, pa, i);
                }
            }
        }
    }
    assert forall|x: Seq<char>| true implies #[trigger] post.as_map().contains_key(x)
        == pre.as_map().insert(pid, t.state@).contains_key(x) by {
        if x == pid {
            assert(post.tasks@[n - 1].data.id@ == x);
            assert(post.contains_id(x));
        } else {
            if pre.contains_id(x) {
                let k = pre.idx_of(x);
                assert(pre.tasks@[k].data.id@ == x);
                assert(k != i);
                let pk = if k < i {
                    k
                } else {
                    k - 1
                };
                assert(post.tasks@[pk].data.id@ == x);
                assert(post.contains_id(x));
            }
            if post.contains_id(x) {
                let k = post.idx_of(x);
                assert(post.tasks@[k].data.id@ == x);
                assert(k != n - 1);
                let pk = if k < i {
                    k
                } else {
                    k + 1
                };
                assert(pre.tasks@[pk].data.id@ == x);
                assert(pre.contains_id(x));
            }
        }
    }
    assert forall|x: Seq<char>| post.as_map().contains_key(x) implies #[trigger] post.as_map()[x]
        == pre.as_map().insert(pid, t.state@)[x] by {
        if x == pid {
            lemma_idx_at(post, n - 1);
            assert(post.as_map()[x] == t.state@);
        } else {
            let k = post.idx_of(x);
            assert(post.tasks@[k].data.id@ == x);
            lemma_idx_at(post, k);
            assert(k != n - 1);
            let pk = if k < i {
                k
            } else {
                k + 1
            };
            assert(pre.tasks@[pk].data.id@ == x);
            lemma_idx_at(pre, pk);
            assert(post.as_map()[x] == post.tasks@[k].state@);
            assert(pre.as_map()[x] == pre.tasks@[pk].state@);
            assert(post.tasks@[k] == pre.tasks@[pk]);
        }
    }
    assert(post.as_map() =~= pre.as_map().insert(pid, t.state@));
}

/// After removing entry `i`, the store no longer maps its id and
/// nothing else moved.
proof fn lemma_map_after_remove(pre: TaskStore, post: TaskStore, i: int)
    requires
        pre.wf(),
        0 <= i < pre.tasks@.len(),
        post.tasks@ == pre.tasks@.remove(i),
    ensures
        post.wf(),
        post.as_map() == pre.as_map().remove(pre.tasks@[i].data.id@),
{
    let n = pre.tasks@.len() as int;
    let pid = pre.tasks@[i].data.id@;
    assert(post.tasks@.len() == n - 1);
    assert(forall|k: int|
        0 <= k < n - 1 ==> post.tasks@[k] == (if k < i {
            pre.tasks@[k]
        } else {
            pre.tasks@[k + 1]
        }));
    assert(post.wf()) by {
        assert forall|a: int, b: int| 0 <= a < b < n - 1 implies (#[trigger] post.tasks@[a]).data.id@
            != (#[trigger] post.tasks@[b]).data.id@ by {
            let pa = if a < i {
                a
            } else {
                a + 1
            };
            let pb = if b < i {
                b
            } else {
                b + 1
            };
            assert(post.tasks@[a] == pre.tasks@[pa]);
            assert(post.tasks@[b] == pre.tasks@[pb]);
        }
    }
    assert forall|x: Seq<char>| true implies #[trigger] post.as_map().contains_key(x)
        == pre.as_map().remove(pid).contains_key(x) by {
        if x == pid {
            if post.contains_id(x) {
                let k = post.idx_of(x);
                assert(post.tasks@[k].data.id@ == x);
                let pk = if k < i {
                    k
                } else {
                    k + 1
                };
                assert(pre.tasks@[pk].data.id@ == x);
                lemma_id_determines_index(pre, pk, i);
            }
        } else {
            if pre.contains_id(x) {
                let k = pre.idx_of(x);
                assert(pre.tasks@[k].data.id@ == x);
                assert(k != i);
                let pk = if k < i {
                    k
                } else {
                    k - 1
                };
                assert(post.tasks@[pk].data.id@ == x);
            }
            if post.contains_id(x) {
                let k = post.idx_of(x);
                assert(post.tasks@[k].data.id@ == x);
                let pk = if k < i {
                    k
                } else {
                    k + 1
                };
                assert(pre.tasks@[pk].data.id@ == x);
            }
        }
    }
    assert forall|x: Seq<char>| post.as_map().contains_key(x) implies #[trigger] post.as_map()[x]
        == pre.as_map().remove(pid)[x] by {
        let k = post.idx_of(x);
        assert(post.tasks@[k].data.id@ == x);
        lemma_idx_at(post, k);
        let pk = if k < i {
            k
        } else {
            k + 1
        };
        assert(pre.tasks@[pk].data.id@ == x);
        lemma_idx_at(pre, pk);
        assert(post.tasks@[k] == pre.tasks@[pk]);
    }
    assert(post.as_map() =~= pre.as_map().remove(pid));
}

impl TaskStore {
    /// An empty store.
    pub fn new() -> (r: TaskStore)
        ensures
            r.wf(),
            r.tasks@.len() == 0,
            r.as_map() == Map::<Seq<char>, StateView>::empty(),
    {
        let r = TaskStore { tasks: Vec::new() };
        proof {
            assert(r.as_map() =~= Map::<Seq<char>, StateView>::empty());
        }
        r
    }

    /// The index of the live task carrying `id`, if one does.
    fn find_index(&self, id: &str) -> (r: Option<usize>)
        ensures
            match r {
                Some(i) => i < self.tasks@.len() && self.tasks@[i as int].data.id@ == id@,
                None => !self.contains_id(id@),
            },
    {
        let mut i: usize = 0;
        let n = self.tasks.len();
        while i < n
            invariant
                i <= n,
                n == self.tasks@.len(),
                forall|j: int| 0 <= j < i ==> (#[trigger] self.tasks@[j]).data.id@ != id@,
            decreases n - i,
        {
            if str_eq(self.tasks[i].data.id.as_str(), id) {
                return Some(i);
            }
            i = i + 1;
        }
        None
    }

    /// Registers a new task under `id` in its Idle state.  A live `id`
    /// is refused with `TaskExisting` and the store is unchanged.
    pub fn start(
        &mut self,
        id: String,
        args: TaskArgs,
        ffmpeg_program: String,
        ffprobe_program: String,
    ) -> (r: Result<(), Error>)
        requires
            old(self).wf(),
        ensures
            final(self).wf(),
            match r {
                Result::Err(e) => old(self).contains_id(id@) && (e matches Error::TaskExisting {
                    id: eid,
                } && eid@ == id@) && *final(self) == *old(self),
                Result::Ok(_) => !old(self).contains_id(id@) && final(self).as_map() == old(
                    self,
                ).as_map().insert(id@, StateView::Idle),
            },
    {
        match self.find_index(id.as_str()) {
            Some(i) => {
                proof {
                    lemma_idx_at(*self, i as int);
                }
                Err(Error::task_existing(id))
            },
            None => {
                let ghost pre = *self;
                let task = Task {
                    data: TaskData { id, ffmpeg_program, ffprobe_program, args },
                    state: TaskState::Idle,
                };
                let ghost pid = task.data.id@;
                self.tasks.push(task);
                proof {
                    let n = self.tasks@.len() as int;
                    assert(self.tasks@[n - 1].data.id@ == pid);
                    assert(self.wf()) by {
                        assert forall|a: int, b: int| 0 <= a < b < n implies (
                        #[trigger] self.tasks@[a]).data.id@ != (
                        #[trigger] self.tasks@[b]).data.id@ by {
                            if b < n - 1 {
                                assert(self.tasks@[a] == pre.tasks@[a]);
                                assert(self.tasks@[b] == pre.tasks@[b]);
                            } else {
                                assert(self.tasks@[a] == pre.tasks@[a]);
                                if self.tasks@[a].data.id@ == pid {
                                    assert(pre.contains_id(pid));
                                }
                            }
                        }
                    }
                    assert forall|x: Seq<char>| true implies #[trigger] self.as_map().contains_key(
                        x,
                    ) == pre.as_map().insert(pid, StateView::Idle).contains_key(x) by {
                        if x == pid {
                            assert(self.contains_id(x));
                        } else {
                            if pre.contains_id(x) {
                                let k = pre.idx_of(x);
                                assert(pre.tasks@[k].data.id@ == x);
                                assert(self.tasks@[k].data.id@ == x);
                            }
                            if self.contains_id(x) {
                                let k = self.idx_of(x);
                                assert(self.tasks@[k].data.id@ == x);
                                assert(k != n - 1);
                                assert(pre.tasks@[k].data.id@ == x);
                            }
                        }
                    }
                    assert forall|x: Seq<char>| self.as_map().contains_key(x) implies
                        #[trigger] self.as_map()[x] == pre.as_map().insert(
                        pid,
                        StateView::Idle,
                    )[x] by {
                        if x == pid {
                            lemma_idx_at(*self, n - 1);
                        } else {
                            let k = self.idx_of(x);
                            assert(self.tasks@[k].data.id@ == x);
                            lemma_idx_at(*self, k);
                            assert(k != n - 1);
                            assert(pre.tasks@[k].data.id@ == x);
                            lemma_idx_at(pre, k);
                            assert(self.tasks@[k] == pre.tasks@[k]);
                        }
                    }
                    assert(self.as_map() =~= pre.as_map().insert(pid, StateView::Idle));
                }
                Ok(())
            },
        }
    }
}

} // verus!

verus! {

impl TaskStore {
    /// The common tail of every drive operation: puts a live successor
    /// state back at the removed entry's place, keeps a terminal one
    /// out, and builds the events the transition owes.
    fn settle(
        &mut self,
        Ghost(pre): Ghost<TaskStore>,
        i: usize,
        data: TaskData,
        s1: TaskState,
        id: &str,
    ) -> (rep: StepReport)
        requires
            pre.wf(),
            i < pre.tasks@.len(),
            old(self).tasks@ == pre.tasks@.remove(i as int),
            data == pre.tasks@[i as int].data,
            id@ == data.id@,
        ensures
            final(self).wf(),
            rep.code == s1@.code(),
            events_view(rep.events) == terminal_events(id@, s1@),
            if s1@.is_terminal() {
                final(self).as_map() == pre.as_map().remove(id@)
            } else {
                final(self).as_map() == pre.as_map().insert(id@, s1@)
            },
    {
        let code = s1.code();
        let mut events: Vec<TaskMessage> = Vec::new();
        match &s1 {
            TaskState::Errored { reason: why } => {
                events.push(TaskMessage::errored(String::from_str(id), why.clone()));
            },
            TaskState::Finished => {
                events.push(TaskMessage::finished(String::from_str(id)));
            },
            _ => {},
        }
        proof {
            assert(events_view(events) =~= terminal_events(id@, s1@));
        }
        let terminal = match code {
            TaskStateCode::Stopped => true,
            TaskStateCode::Finished => true,
            TaskStateCode::Errored => true,
            _ => false,
        };
        if terminal {
            proof {
                lemma_map_after_remove(pre, *self, i as int);
            }
        } else {
            let next = Task { data, state: s1 };
            let ghost nextg = next;
            self.tasks.push(next);
            proof {
                lemma_map_after_update(pre, *self, i as int, nextg);
            }
        }
        StepReport { code, events }
    }

    /// Drives a task's start transition from the outcomes of resolving,
    /// directory creation and spawning.
    ///
    /// An unknown `id` is refused with `TaskNotFound` and the store is
    /// unchanged.  A transition that lands in a terminal state removes
    /// the entry; its events are to be published after this call, so the
    /// key is gone before its terminal event goes out.
    pub fn drive_start(
        &mut self,
        id: &str,
        resolve: Result<ProgressType, Error>,
        mkdir: Result<(), String>,
        spawn: SpawnOutcome,
    ) -> (r: Result<StepReport, Error>)
        requires
            old(self).wf(),
        ensures
            final(self).wf(),
            match r {
                Result::Err(e) => !old(self).contains_id(id@) && (e matches Error::TaskNotFound {
                    id: eid,
                } && eid@ == id@) && *final(self) == *old(self),
                Result::Ok(rep) => old(self).contains_id(id@) && ({
                    let program = old(self).tasks@[old(self).idx_of(id@)].data.ffmpeg_program@;
                    let s1 = spec_start(old(self).as_map()[id@], resolve, mkdir, spawn, program);
                    &&& rep.code == s1.code()
                    &&& events_view(rep.events) == terminal_events(id@, s1)
                    &&& if s1.is_terminal() {
                        final(self).as_map() == old(self).as_map().remove(id@)
                    } else {
                        final(self).as_map() == old(self).as_map().insert(id@, s1)
                    }
                }),
            },
    {
        let i = match self.find_index(id) {
            None => {
                return Err(Error::task_not_found(String::from_str(id)));
            },
            Some(i) => i,
        };
        proof {
            lemma_idx_at(*self, i as int);
        }
        let ghost pre = *self;
        let task = self.tasks.remove(i);
        let s1 = task.state.start(resolve, mkdir, spawn, task.data.ffmpeg_program.as_str());
        let rep = self.settle(Ghost(pre), i, task.data, s1, id);
        Ok(rep)
    }


    /// Drives a task's pause transition from the watchdog join and signal
    /// outcomes.
    ///
    /// An unknown `id` is refused with `TaskNotFound` and the store is
    /// unchanged.  A transition that lands in a terminal state removes
    /// the entry; its events are to be published after this call, so the
    /// key is gone before its terminal event goes out.
    pub fn pause(&mut self, id: &str, join: JoinOutcome, signal: SignalOutcome) -> (r: Result<
        StepReport,
        Error,
    >)
        requires
            old(self).wf(),
        ensures
            final(self).wf(),
            match r {
                Result::Err(e) => !old(self).contains_id(id@) && (e matches Error::TaskNotFound {
                    id: eid,
                } && eid@ == id@) && *final(self) == *old(self),
                Result::Ok(rep) => old(self).contains_id(id@) && ({
                    let s1 = spec_pause(old(self).as_map()[id@], join, signal);
                    &&& rep.code == s1.code()
                    &&& events_view(rep.events) == terminal_events(id@, s1)
                    &&& if s1.is_terminal() {
                        final(self).as_map() == old(self).as_map().remove(id@)
                    } else {
                        final(self).as_map() == old(self).as_map().insert(id@, s1)
                    }
                }),
            },
    {
        let i = match self.find_index(id) {
            None => {
                return Err(Error::task_not_found(String::from_str(id)));
            },
            Some(i) => i,
        };
        proof {
            lemma_idx_at(*self, i as int);
        }
        let ghost pre = *self;
        let task = self.tasks.remove(i);
        let s1 = task.state.pause(join, signal);
        let rep = self.settle(Ghost(pre), i, task.data, s1, id);
        Ok(rep)
    }


    /// Drives a task's resume transition from the signal outcome.
    ///
    /// An unknown `id` is refused with `TaskNotFound` and the store is
    /// unchanged.  A transition that lands in a terminal state removes
    /// the entry; its events are to be published after this call, so the
    /// key is gone before its terminal event goes out.
    pub fn resume(&mut self, id: &str, signal: SignalOutcome) -> (r: Result<StepReport, Error>)
        requires
            old(self).wf(),
        ensures
            final(self).wf(),
            match r {
                Result::Err(e) => !old(self).contains_id(id@) && (e matches Error::TaskNotFound {
                    id: eid,
                } && eid@ == id@) && *final(self) == *old(self),
                Result::Ok(rep) => old(self).contains_id(id@) && ({
                    let s1 = spec_resume(old(self).as_map()[id@], signal);
                    &&& rep.code == s1.code()
                    &&& events_view(rep.events) == terminal_events(id@, s1)
                    &&& if s1.is_terminal() {
                        final(self).as_map() == old(self).as_map().remove(id@)
                    } else {
                        final(self).as_map() == old(self).as_map().insert(id@, s1)
                    }
                }),
            },
    {
        let i = match self.find_index(id) {
            None => {
                return Err(Error::task_not_found(String::from_str(id)));
            },
            Some(i) => i,
        };
        proof {
            lemma_idx_at(*self, i as int);
        }
        let ghost pre = *self;
        let task = self.tasks.remove(i);
        let s1 = task.state.resume(signal);
        let rep = self.settle(Ghost(pre), i, task.data, s1, id);
        Ok(rep)
    }


    /// Drives a task's stop transition from the watchdog join and kill
    /// outcomes.
    ///
    /// An unknown `id` is refused with `TaskNotFound` and the store is
    /// unchanged.  A transition that lands in a terminal state removes
    /// the entry; its events are to be published after this call, so the
    /// key is gone before its terminal event goes out.
    pub fn stop(&mut self, id: &str, join: JoinOutcome, kill: KillOutcome) -> (r: Result<
        StepReport,
        Error,
    >)
        requires
            old(self).wf(),
        ensures
            final(self).wf(),
            match r {
                Result::Err(e) => !old(self).contains_id(id@) && (e matches Error::TaskNotFound {
                    id: eid,
                } && eid@ == id@) && *final(self) == *old(self),
                Result::Ok(rep) => old(self).contains_id(id@) && ({
                    let s1 = spec_stop(old(self).as_map()[id@], join, kill);
                    &&& rep.code == s1.code()
                    &&& events_view(rep.events) == terminal_events(id@, s1)
                    &&& if s1.is_terminal() {
                        final(self).as_map() == old(self).as_map().remove(id@)
                    } else {
                        final(self).as_map() == old(self).as_map().insert(id@, s1)
                    }
                }),
            },
    {
        let i = match self.find_index(id) {
            None => {
                return Err(Error::task_not_found(String::from_str(id)));
            },
            Some(i) => i,
        };
        proof {
            lemma_idx_at(*self, i as int);
        }
        let ghost pre = *self;
        let task = self.tasks.remove(i);
        let s1 = task.state.stop(join, kill);
        let rep = self.settle(Ghost(pre), i, task.data, s1, id);
        Ok(rep)
    }


    /// Drives a task's finish transition from the watchdog join outcome.
    ///
    /// An unknown `id` is refused with `TaskNotFound` and the store is
    /// unchanged.  A transition that lands in a terminal state removes
    /// the entry; its events are to be published after this call, so the
    /// key is gone before its terminal event goes out.
    pub fn finish(&mut self, id: &str, join: JoinOutcome) -> (r: Result<StepReport, Error>)
        requires
            old(self).wf(),
        ensures
            final(self).wf(),
            match r {
                Result::Err(e) => !old(self).contains_id(id@) && (e matches Error::TaskNotFound {
                    id: eid,
                } && eid@ == id@) && *final(self) == *old(self),
                Result::Ok(rep) => old(self).contains_id(id@) && ({
                    let s1 = spec_finish(old(self).as_map()[id@], join);
                    &&& rep.code == s1.code()
                    &&& events_view(rep.events) == terminal_events(id@, s1)
                    &&& if s1.is_terminal() {
                        final(self).as_map() == old(self).as_map().remove(id@)
                    } else {
                        final(self).as_map() == old(self).as_map().insert(id@, s1)
                    }
                }),
            },
    {
        let i = match self.find_index(id) {
            None => {
                return Err(Error::task_not_found(String::from_str(id)));
            },
            Some(i) => i,
        };
        proof {
            lemma_idx_at(*self, i as int);
        }
        let ghost pre = *self;
        let task = self.tasks.remove(i);
        let s1 = task.state.finish(join);
        let rep = self.settle(Ghost(pre), i, task.data, s1, id);
        Ok(rep)
    }


    /// Drives a task's error transition: the stop path, then the given
    /// reason unless the stop path failed first.
    ///
    /// An unknown `id` is refused with `TaskNotFound` and the store is
    /// unchanged.  A transition that lands in a terminal state removes
    /// the entry; its events are to be published after this call, so the
    /// key is gone before its terminal event goes out.
    pub fn error(
        &mut self,
        id: &str,
        join: JoinOutcome,
        kill: KillOutcome,
        reason: String,
    ) -> (r: Result<StepReport, Error>)
        requires
            old(self).wf(),
        ensures
            final(self).wf(),
            match r {
                Result::Err(e) => !old(self).contains_id(id@) && (e matches Error::TaskNotFound {
                    id: eid,
                } && eid@ == id@) && *final(self) == *old(self),
                Result::Ok(rep) => old(self).contains_id(id@) && ({
                    let s1 = spec_error(old(self).as_map()[id@], join, kill, reason@);
                    &&& rep.code == s1.code()
                    &&& events_view(rep.events) == terminal_events(id@, s1)
                    &&& if s1.is_terminal() {
                        final(self).as_map() == old(self).as_map().remove(id@)
                    } else {
                        final(self).as_map() == old(self).as_map().insert(id@, s1)
                    }
                }),
            },
    {
        let i = match self.find_index(id) {
            None => {
                return Err(Error::task_not_found(String::from_str(id)));
            },
            Some(i) => i,
        };
        proof {
            lemma_idx_at(*self, i as int);
        }
        let ghost pre = *self;
        let task = self.tasks.remove(i);
        let s1 = task.state.error(join, kill, reason);
        let rep = self.settle(Ghost(pre), i, task.data, s1, id);
        Ok(rep)
    }

    /// The progress event for `msg`, when its task is live and Running;
    /// nothing otherwise.  No progress event ever names an id that is
    /// absent from the store or whose task is not Running.
    pub fn running_event(&self, msg: &TaskRunningMessage) -> (r: Option<TaskMessage>)
        requires
            self.wf(),
        ensures
            match r {
                Some(ev) => self.as_map().contains_key(msg.id@) && self.as_map()[msg.id@]
                    is Running && ev@ == MessageView::Running(msg@),
                None => !(self.as_map().contains_key(msg.id@) && self.as_map()[msg.id@]
                    is Running),
            },
    {
        match self.find_index(msg.id.as_str()) {
            None => None,
            Some(i) => {
                proof {
                    lemma_idx_at(*self, i as int);
                }
                match &self.tasks[i].state {
                    TaskState::Running { .. } => Some(TaskMessage::running(msg)),
                    _ => None,
                }
            },
        }
    }

    /// How many tasks are live.
    pub fn len(&self) -> (r: usize)
        ensures
            r == self.tasks@.len(),
    {
        self.tasks.len()
    }

    /// Whether a live task carries `id`.
    pub fn contains(&self, id: &str) -> (r: bool)
        requires
            self.wf(),
        ensures
            r == self.contains_id(id@),
    {
        match self.find_index(id) {
            Some(i) => {
                proof {
                    lemma_idx_at(*self, i as int);
                }
                true
            },
            None => false,
        }
    }

    /// The state code of the live task carrying `id`.
    pub fn state_code(&self, id: &str) -> (r: Option<TaskStateCode>)
        requires
            self.wf(),
        ensures
            match r {
                Some(c) => self.contains_id(id@) && c == self.as_map()[id@].code(),
                None => !self.contains_id(id@),
            },
    {
        match self.find_index(id) {
            Some(i) => {
                proof {
                    lemma_idx_at(*self, i as int);
                }
                Some(self.tasks[i].state.code())
            },
            None => None,
        }
    }
}

} // verus!

verus! {

/// For a live task, each of stop, finish and error — with the watchdog
/// joined and the kill succeeding — lands in a terminal state, and the
/// events published with it hold exactly one terminal event of that
/// operation's kind: none for a stop, one Finished for a finish, one
/// Errored (with the reason) for an error.  Terminal states absorb
/// every further transition (see
/// [`crate::state_machine::lemma_terminal_absorbs`]) and a terminal
/// transition removes the task, so a task that receives exactly one of
/// the three after starting publishes exactly that operation's events.
pub proof fn lemma_one_terminal_event(s: StateView, id: Seq<char>, reason: Seq<char>)
    requires
        !s.is_terminal(),
    ensures
        spec_stop(s, JoinOutcome::Joined, KillOutcome::Killed).is_terminal(),
        terminal_events(id, spec_stop(s, JoinOutcome::Joined, KillOutcome::Killed))
            == Seq::<MessageView>::empty(),
        s is Running ==> spec_finish(s, JoinOutcome::Joined) == StateView::Finished,
        s is Running ==> terminal_events(id, spec_finish(s, JoinOutcome::Joined)) == seq![
            MessageView::Finished { id },
        ],
        spec_error(s, JoinOutcome::Joined, KillOutcome::Killed, reason) == StateView::Errored(
            reason,
        ),
        terminal_events(id, spec_error(s, JoinOutcome::Joined, KillOutcome::Killed, reason))
            == seq![MessageView::Errored { id, reason }],
{
}

} // verus!
