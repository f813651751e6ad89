//! The life of the long-running tasks, and what their ends mean for the
//! process. Each task starts, runs, and stops when asked to; a task that
//! ends unasked, or does not stop in time, has failed, and one failure ends
//! them all. Running the tasks is not part of this library: whoever runs
//! them reports what happens and acts on what comes back.

use vstd::prelude::*;

verus! {

/// Where a task is in its life.
#[derive(Clone, Copy, Debug, PartialEq, Eq, Structural)]
pub enum TaskState {
    /// The task was given out and has not begun.
    Starting,
    /// The task runs.
    Running,
    /// The task was asked to shut down and winds down.
    Stopping,
    /// The task has ended as asked.
    Stopped,
    /// The task ended unasked, with an error, or not in time.
    Failed,
}

/// What can happen to a task.
#[derive(Clone, Copy, Debug, PartialEq, Eq, Structural)]
pub enum TaskEvent {
    /// The task has begun to run.
    Started,
    /// The task is asked to shut down.
    ShutdownRequested,
    /// The task returned without an error.
    Exited,
    /// The task returned an error or panicked.
    Faulted,
    /// The time given to wind down is over.
    GraceExpired,
}

/// Whether a task in this state has ended.
pub open spec fn terminal(state: TaskState) -> bool {
    state == TaskState::Stopped || state == TaskState::Failed
}

/// The state of a task after an event. A task that has ended stays as it
/// ended. A task that is asked to shut down winds down, and has stopped when
/// it returns. A task that returns unasked, returns an error, or is still
/// winding down or starting when the time is over, has failed.
pub open spec fn next_state(state: TaskState, event: TaskEvent) -> TaskState {
    match (state, event) {
        (TaskState::Starting, TaskEvent::Started) => TaskState::Running,
        (TaskState::Starting, TaskEvent::ShutdownRequested) => TaskState::Stopping,
        (TaskState::Starting, TaskEvent::Exited) => TaskState::Failed,
        (TaskState::Starting, TaskEvent::Faulted) => TaskState::Failed,
        (TaskState::Starting, TaskEvent::GraceExpired) => TaskState::Failed,
        (TaskState::Running, TaskEvent::ShutdownRequested) => TaskState::Stopping,
        (TaskState::Running, TaskEvent::Exited) => TaskState::Failed,
        (TaskState::Running, TaskEvent::Faulted) => TaskState::Failed,
        (TaskState::Stopping, TaskEvent::Exited) => TaskState::Stopped,
        (TaskState::Stopping, TaskEvent::Faulted) => TaskState::Failed,
        (TaskState::Stopping, TaskEvent::GraceExpired) => TaskState::Failed,
        _ => state,
    }
}

/// Whether an event in this state makes the others shut down: it does where
/// a task that was not asked to stop ends.
pub open spec fn raises_shutdown(state: TaskState, event: TaskEvent) -> bool {
    (state == TaskState::Starting || state == TaskState::Running) && (event == TaskEvent::Exited
        || event == TaskEvent::Faulted)
}

/// One step in the life of a task: its next state, and whether all other
/// tasks are to be asked to shut down.
pub fn step(state: TaskState, event: TaskEvent) -> (next: (TaskState, bool))
    ensures
        next.0 == next_state(state, event),
        next.1 == raises_shutdown(state, event),
{
    match state {
        TaskState::Starting => match event {
            TaskEvent::Started => (TaskState::Running, false),
            TaskEvent::ShutdownRequested => (TaskState::Stopping, false),
            TaskEvent::Exited => (TaskState::Failed, true),
            TaskEvent::Faulted => (TaskState::Failed, true),
            TaskEvent::GraceExpired => (TaskState::Failed, false),
        },
        TaskState::Running => match event {
            TaskEvent::Started => (TaskState::Running, false),
            TaskEvent::ShutdownRequested => (TaskState::Stopping, false),
            TaskEvent::Exited => (TaskState::Failed, true),
            TaskEvent::Faulted => (TaskState::Failed, true),
            TaskEvent::GraceExpired => (TaskState::Running, false),
        },
        TaskState::Stopping => match event {
            TaskEvent::Exited => (TaskState::Stopped, false),
            TaskEvent::Faulted => (TaskState::Failed, false),
            TaskEvent::GraceExpired => (TaskState::Failed, false),
            _ => (TaskState::Stopping, false),
        },
        TaskState::Stopped => (TaskState::Stopped, false),
        TaskState::Failed => (TaskState::Failed, false),
    }
}

/// The states of the tasks after one of them meets an event: that task takes
/// its step, and where the step raises a shutdown every other task is asked
/// to shut down.
pub open spec fn after_event(tasks: Seq<TaskState>, task: int, event: TaskEvent) -> Seq<TaskState> {
    Seq::new(
        tasks.len(),
        |i: int|
            if i == task {
                next_state(tasks[i], event)
            } else if raises_shutdown(tasks[task], event) {
                next_state(tasks[i], TaskEvent::ShutdownRequested)
            } else {
                tasks[i]
            },
    )
}

/// The states of the tasks after every one of them meets the event.
pub open spec fn after_all(tasks: Seq<TaskState>, event: TaskEvent) -> Seq<TaskState> {
    Seq::new(tasks.len(), |i: int| next_state(tasks[i], event))
}

/// Whether every task has ended.
pub open spec fn all_ended(tasks: Seq<TaskState>) -> bool {
    forall|i: int| 0 <= i < tasks.len() ==> terminal(#[trigger] tasks[i])
}

/// Whether some task has failed.
pub open spec fn some_failed(tasks: Seq<TaskState>) -> bool {
    exists|i: int| 0 <= i < tasks.len() && #[trigger] tasks[i] == TaskState::Failed
}

/// The tasks of the process, each with its state.
#[derive(Debug)]
pub struct Supervisor {
    tasks: Vec<TaskState>,
}

impl View for Supervisor {
    type V = Seq<TaskState>;

    closed spec fn view(&self) -> Seq<TaskState> {
        self.tasks@
    }
}

impl Supervisor {
    /// A supervisor of `count` tasks, none of which has begun.
    pub fn new(count: usize) -> (supervisor: Supervisor)
        ensures
            supervisor@.len() == count,
            forall|i: int| 0 <= i < count ==> supervisor@[i] == TaskState::Starting,
    {
        let mut tasks: Vec<TaskState> = Vec::new();
        let mut i: usize = 0;
        while i < count
            invariant
                i <= count,
                tasks@.len() == i,
                forall|j: int| 0 <= j < i ==> tasks@[j] == TaskState::Starting,
            decreases count - i,
        {
            tasks.push(TaskState::Starting);
            i += 1;
        }
        Supervisor { tasks }
    }

    /// The state of each task.
    pub fn states(&self) -> (tasks: &Vec<TaskState>)
        ensures
            tasks@ == self@,
    {
        &self.tasks
    }

    /// Takes note of what happened to one task, and returns whether all
    /// other tasks are to be asked to shut down; they are noted as asked. An
    /// event of a task that the supervisor does not have changes nothing.
    pub fn observe(&mut self, task: usize, event: TaskEvent) -> (shutdown: bool)
        ensures
            task < old(self)@.len() ==> final(self)@ == after_event(old(self)@, task as int, event)
                && shutdown == raises_shutdown(old(self)@[task as int], event),
            task >= old(self)@.len() ==> final(self)@ == old(self)@ && !shutdown,
    {
        if task >= self.tasks.len() {
            return false;
        }
        let (next, shutdown) = step(self.tasks[task], event);
        let count: usize = self.tasks.len();
        let mut i: usize = 0;
        while i < count
            invariant
                i <= count,
                task < count,
                count == old(self)@.len(),
                self@.len() == count,
                next == next_state(old(self)@[task as int], event),
                shutdown == raises_shutdown(old(self)@[task as int], event),
                forall|j: int|
                    0 <= j < i ==> self@[j] == after_event(old(self)@, task as int, event)[j],
                forall|j: int| i <= j < count ==> self@[j] == old(self)@[j],
            decreases count - i,
        {
            if i == task {
                self.tasks.set(i, next);
            } else if shutdown {
                let (asked, _) = step(self.tasks[i], TaskEvent::ShutdownRequested);
                self.tasks.set(i, asked);
            }
            i += 1;
        }
        proof {
            assert(self@ =~= after_event(old(self)@, task as int, event));
        }
        shutdown
    }

    /// Takes note of an event that meets every task: a signal to end the
    /// process asks each task to shut down, and the end of the time to wind
    /// down fails each task that has not ended.
    pub fn broadcast(&mut self, event: TaskEvent)
        ensures
            final(self)@ == after_all(old(self)@, event),
    {
        let count: usize = self.tasks.len();
        let mut i: usize = 0;
        while i < count
            invariant
                i <= count,
                count == old(self)@.len(),
                self@.len() == count,
                forall|j: int| 0 <= j < i ==> self@[j] == next_state(old(self)@[j], event),
                forall|j: int| i <= j < count ==> self@[j] == old(self)@[j],
            decreases count - i,
        {
            let (next, _) = step(self.tasks[i], event);
            self.tasks.set(i, next);
            i += 1;
        }
        proof {
            assert(self@ =~= after_all(old(self)@, event));
        }
    }

    /// Whether every task has ended.
    pub fn finished(&self) -> (yes: bool)
        ensures
            yes == all_ended(self@),
    {
        let mut i: usize = 0;
        while i < self.tasks.len()
            invariant
                i <= self.tasks.len(),
                forall|j: int| 0 <= j < i ==> terminal(#[trigger] self@[j]),
            decreases self.tasks.len() - i,
        {
            match self.tasks[i] {
                TaskState::Stopped => {},
                TaskState::Failed => {},
                _ => {
                    proof {
                        assert(!terminal(self@[i as int]));
                    }
                    return false;
                },
            }
            i += 1;
        }
        true
    }

    /// The exit status of the process: zero where no task has failed, one
    /// where some task has.
    pub fn exit_code(&self) -> (code: i32)
        ensures
            code == if some_failed(self@) {
                1i32
            } else {
                0i32
            },
    {
        let mut i: usize = 0;
        while i < self.tasks.len()
            invariant
                i <= self.tasks.len(),
                forall|j: int| 0 <= j < i ==> self@[j] != TaskState::Failed,
            decreases self.tasks.len() - i,
        {
            match self.tasks[i] {
                TaskState::Failed => {
                    return 1;
                },
                _ => {},
            }
            i += 1;
        }
        0
    }
}

/// A task that has ended stays as it ended, whatever happens.
pub proof fn lemma_ended_is_final(state: TaskState, event: TaskEvent)
    requires
        terminal(state),
    ensures
        next_state(state, event) == state,
        !raises_shutdown(state, event),
{
}

/// A task fails only by its own end or by the end of the time to wind down:
/// being asked to shut down fails no task, and a task that winds down and
/// returns has stopped.
pub proof fn lemma_ways_to_fail(state: TaskState, event: TaskEvent)
    requires
        state != TaskState::Failed,
        next_state(state, event) == TaskState::Failed,
    ensures
        event == TaskEvent::Exited || event == TaskEvent::Faulted || event
            == TaskEvent::GraceExpired,
        event == TaskEvent::Exited ==> state != TaskState::Stopping,
{
}

/// When one task ends unasked, it has failed and no other task goes on
/// running: each is winding down or has ended.
pub proof fn lemma_one_failure_ends_all(tasks: Seq<TaskState>, task: int, event: TaskEvent)
    requires
        0 <= task < tasks.len(),
        raises_shutdown(tasks[task], event),
    ensures
        after_event(tasks, task, event)[task] == TaskState::Failed,
        forall|i: int|
            0 <= i < tasks.len() ==> #[trigger] after_event(tasks, task, event)[i]
                != TaskState::Running && after_event(tasks, task, event)[i] != TaskState::Starting,
{
}

/// Once all tasks were asked to shut down, the end of the time to wind down
/// ends every one of them: the process can exit, whatever the tasks do.
pub proof fn lemma_grace_ends_all(tasks: Seq<TaskState>)
    ensures
        all_ended(
            after_all(after_all(tasks, TaskEvent::ShutdownRequested), TaskEvent::GraceExpired),
        ),
{
    let asked = after_all(tasks, TaskEvent::ShutdownRequested);
    let over = after_all(asked, TaskEvent::GraceExpired);
    assert forall|i: int| 0 <= i < over.len() implies terminal(#[trigger] over[i]) by {
        assert(asked[i] == next_state(tasks[i], TaskEvent::ShutdownRequested));
    }
}

} // verus!
