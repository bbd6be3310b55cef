//! The counting semaphore: a non-negative counter plus a FIFO queue of
//! waiting task ids, parking and waking tasks through the scheduler.

use crate::task::{wake, Scheduler, Task, TaskId, TaskState};
use std::collections::VecDeque;
use vstd::prelude::*;

verus! {

/// A counting semaphore: a non-negative counter and a FIFO of the ids of
/// tasks parked in `down`.
pub struct Semaphore {
    /// The counter; `down` consumes a unit, `up` returns one.
    pub counter: usize,
    /// Ids of tasks blocked in `down`, oldest first.
    pub waiting_tasks: VecDeque<TaskId>,
}

/// The mathematical state of a semaphore: its counter and waiter queue.
pub struct SemState {
    /// The counter value.
    pub counter: int,
    /// The parked task ids, oldest first.
    pub waiters: Seq<TaskId>,
}

/// One step of semaphore history, named after the operation that takes it.
pub enum SemEvent {
    /// An `up`: the counter rises by one and the oldest waiter, if any,
    /// leaves the queue to be woken.
    Up,
    /// A `down` that found the counter positive and consumed a unit: the
    /// call returns without blocking.
    DownAcquire,
    /// A `down` that found the counter at zero: the calling task joins the
    /// waiter queue and blocks.
    DownBlock(TaskId),
}

/// Whether `event` may take place in state `s`: a unit can only be consumed
/// while the counter is positive, and a task only blocks while it is zero.
pub open spec fn sem_enabled(s: SemState, event: SemEvent) -> bool {
    match event {
        SemEvent::Up => true,
        SemEvent::DownAcquire => s.counter > 0,
        SemEvent::DownBlock(_) => s.counter == 0,
    }
}

/// The state after `event` takes place in state `s`.
pub open spec fn sem_apply(s: SemState, event: SemEvent) -> SemState {
    match event {
        SemEvent::Up => SemState {
            counter: s.counter + 1,
            waiters: if s.waiters.len() > 0 {
                s.waiters.subrange(1, s.waiters.len() as int)
            } else {
                s.waiters
            },
        },
        SemEvent::DownAcquire => SemState { counter: s.counter - 1, waiters: s.waiters },
        SemEvent::DownBlock(id) => SemState { counter: s.counter, waiters: s.waiters.push(id) },
    }
}

/// Whether the whole history `events` can run from state `s`.
pub open spec fn sem_valid_history(s: SemState, events: Seq<SemEvent>) -> bool
    decreases events.len(),
{
    events.len() == 0 || (sem_enabled(s, events[0]) && sem_valid_history(
        sem_apply(s, events[0]),
        events.subrange(1, events.len() as int),
    ))
}

/// The state after the whole history `events` runs from state `s`.
pub open spec fn sem_run(s: SemState, events: Seq<SemEvent>) -> SemState
    decreases events.len(),
{
    if events.len() == 0 {
        s
    } else {
        sem_run(sem_apply(s, events[0]), events.subrange(1, events.len() as int))
    }
}

/// How many `Up` events a history holds.
pub open spec fn count_ups(events: Seq<SemEvent>) -> int
    decreases events.len(),
{
    if events.len() == 0 {
        0
    } else {
        (if events[0] is Up {
            1int
        } else {
            0int
        }) + count_ups(events.subrange(1, events.len() as int))
    }
}

/// How many `down` calls a history completes without blocking.
pub open spec fn count_acquires(events: Seq<SemEvent>) -> int
    decreases events.len(),
{
    if events.len() == 0 {
        0
    } else {
        (if events[0] is DownAcquire {
            1int
        } else {
            0int
        }) + count_acquires(events.subrange(1, events.len() as int))
    }
}

/// How many tasks a history parks in the waiter queue.
pub open spec fn count_blocks(events: Seq<SemEvent>) -> int
    decreases events.len(),
{
    if events.len() == 0 {
        0
    } else {
        (if events[0] is DownBlock {
            1int
        } else {
            0int
        }) + count_blocks(events.subrange(1, events.len() as int))
    }
}

/// How many waiters a history pops to be woken: the `Up` events that found
/// the queue non-empty, counted along the run from `s`.
pub open spec fn count_wakes(s: SemState, events: Seq<SemEvent>) -> int
    decreases events.len(),
{
    if events.len() == 0 {
        0
    } else {
        (if events[0] is Up && s.waiters.len() > 0 {
            1int
        } else {
            0int
        }) + count_wakes(sem_apply(s, events[0]), events.subrange(1, events.len() as int))
    }
}

/// The accounting law of the semaphore, over every history that can run
/// from a state with a non-negative counter: the counter ends at its
/// initial value plus the `up` calls minus the `down` calls that
/// completed, and the waiter queue grows by the tasks that blocked and
/// shrinks by those popped to be woken. In particular the counter never
/// goes negative.
pub proof fn lemma_semaphore_accounting(s: SemState, events: Seq<SemEvent>)
    requires
        sem_valid_history(s, events),
        s.counter >= 0,
    ensures
        sem_run(s, events).counter == s.counter + count_ups(events) - count_acquires(events),
        sem_run(s, events).waiters.len() == s.waiters.len() + count_blocks(events) - count_wakes(
            s,
            events,
        ),
        sem_run(s, events).counter >= 0,
    decreases events.len(),
{
    if events.len() > 0 {
        let s1 = sem_apply(s, events[0]);
        lemma_semaphore_accounting(s1, events.subrange(1, events.len() as int));
    }
}

impl Semaphore {
    /// The mathematical state of this semaphore.
    pub open spec fn abs(self) -> SemState {
        SemState { counter: self.counter as int, waiters: self.waiting_tasks@ }
    }

    /// Builds a semaphore whose counter starts at `initial_value`, with no
    /// waiters.
    pub fn new(initial_value: usize) -> (s: Semaphore)
        ensures
            s.counter == initial_value,
            s.waiting_tasks@.len() == 0,
    {
        Semaphore { counter: initial_value, waiting_tasks: VecDeque::new() }
    }

    /// One round of the optimistic `down` loop. With a positive counter it
    /// consumes a unit and reports success: the call returns without
    /// blocking. With the counter at zero it parks the current task: the id
    /// joins the waiter queue, the task is marked `Blocked`, and the caller
    /// must yield and run another round once woken.
    pub fn down_step(&mut self, scheduler: &mut Scheduler) -> (acquired: bool)
        requires
            old(scheduler).wf(),
            old(scheduler).tasks@.len() > 0,
        ensures
            final(scheduler).wf(),
            acquired ==> {
                &&& old(self).counter > 0
                &&& final(self).abs() == sem_apply(old(self).abs(), SemEvent::DownAcquire)
                &&& final(scheduler).tasks@ == old(scheduler).tasks@
                &&& final(scheduler).current_index() == old(scheduler).current_index()
            },
            !acquired ==> {
                &&& old(self).counter == 0
                &&& final(self).abs() == sem_apply(
                    old(self).abs(),
                    SemEvent::DownBlock(old(scheduler).tasks@[old(scheduler).current_index()].id),
                )
                &&& final(scheduler).tasks@ == old(scheduler).tasks@.update(
                    old(scheduler).current_index(),
                    (Task {
                        state: TaskState::Blocked,
                        ..old(scheduler).tasks@[old(scheduler).current_index()]
                    }),
                )
                &&& final(scheduler).current_index() == old(scheduler).current_index()
            },
    {
        if self.counter > 0 {
            self.counter = self.counter - 1;
            true
        } else {
            let my_id = scheduler.current_task_id();
            self.waiting_tasks.push_back(my_id);
            let cur = scheduler.current_task;
            scheduler.tasks[cur].state = TaskState::Blocked;
            false
        }
    }

    /// The `up` operation: returns a unit to the counter and, when a task
    /// waits, pops the oldest waiter and marks it `Ready` through the
    /// scheduler.
    pub fn up(&mut self, scheduler: &mut Scheduler)
        requires
            old(scheduler).wf(),
            old(self).counter < usize::MAX,
        ensures
            final(scheduler).wf(),
            final(self).abs() == sem_apply(old(self).abs(), SemEvent::Up),
            final(scheduler).current_index() == old(scheduler).current_index(),
            old(self).waiting_tasks@.len() == 0 ==> final(scheduler).tasks@ == old(
                scheduler,
            ).tasks@,
            old(self).waiting_tasks@.len() > 0 ==> final(scheduler).tasks@ == wake(
                old(scheduler).tasks@,
                old(self).waiting_tasks@[0],
            ),
    {
        self.counter = self.counter + 1;
        let woken = self.waiting_tasks.pop_front();
        match woken {
            None => (),
            Some(task_id) => {
                let ti = scheduler.find_task_index(task_id);
                match ti {
                    Some(i) => {
                        if scheduler.tasks[i].state == TaskState::Blocked {
                            scheduler.tasks[i].state = TaskState::Ready;
                            proof {
                                assert(scheduler.tasks@ =~= wake(old(scheduler).tasks@, task_id));
                            }
                        } else {
                            proof {
                                assert(scheduler.tasks@ =~= wake(old(scheduler).tasks@, task_id));
                            }
                        }
                    },
                    None => {
                        proof {
                            assert(scheduler.tasks@ =~= wake(old(scheduler).tasks@, task_id));
                        }
                    },
                }
            },
        }
    }
}

/// After an `up` on any semaphore state with counter zero, a `down` finds a
/// positive counter, so it consumes a unit and returns without blocking.
pub proof fn lemma_up_then_down_no_block(s: SemState)
    requires
        s.counter == 0,
    ensures
        sem_enabled(sem_apply(s, SemEvent::Up), SemEvent::DownAcquire),
{
}

/// On a semaphore state with counter one, a `down` returns at once without
/// blocking, and the `up` that follows restores the counter to one.
pub proof fn lemma_down_then_up_no_block(s: SemState)
    requires
        s.counter == 1,
    ensures
        sem_enabled(s, SemEvent::DownAcquire),
        sem_apply(sem_apply(s, SemEvent::DownAcquire), SemEvent::Up).counter == 1,
{
}

} // verus!
