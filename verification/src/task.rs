//! Tasks and the round-robin scheduler: task control blocks, saved register
//! contexts, the context-switch primitive on the model register file, and the
//! mailbox layer (`send` / `try_receive`) that couples blocking with the
//! scheduler.

use std::collections::VecDeque;
use vstd::prelude::*;

verus! {

/// A unique identifier for a task, minted by a monotonic counter.
#[derive(Debug, Clone, Copy, PartialEq, Eq, Structural)]
pub struct TaskId {
    pub value: u64,
}

impl TaskId {
    /// Mints a fresh `TaskId` from the monotonic counter `next_id` and
    /// advances the counter, so no two mints from the same counter collide.
    pub fn new(next_id: &mut u64) -> (id: TaskId)
        requires
            *old(next_id) < u64::MAX,
        ensures
            id.value == *old(next_id),
            *final(next_id) == *old(next_id) + 1,
    {
        let id = TaskId { value: *next_id };
        *next_id = *next_id + 1;
        id
    }
}

/// The scheduling state of a task.
#[derive(Debug, Clone, Copy, PartialEq, Eq, Structural)]
pub enum TaskState {
    /// The task is currently executing on the CPU.
    Running,
    /// The task is ready to be picked by the scheduler.
    Ready,
    /// The task is parked, waiting for a message or a semaphore.
    Blocked,
}

/// A message carried through a mailbox: a fixed-width integer.
pub type Message = u64;

/// The callee-saved register set that the context-switch routine stores and
/// reloads: stack pointer, base pointer, the six callee-saved general
/// registers, and the resume instruction pointer.
#[derive(Debug, Clone, Copy, PartialEq, Eq, Structural)]
pub struct TaskContext {
    /// Stack pointer (RSP).
    pub rsp: u64,
    /// Stack base pointer (RBP).
    pub rbp: u64,
    /// Register RBX.
    pub rbx: u64,
    /// Register R12.
    pub r12: u64,
    /// Register R13.
    pub r13: u64,
    /// Register R14.
    pub r14: u64,
    /// Register R15.
    pub r15: u64,
    /// Resume instruction pointer (RIP).
    pub rip: u64,
}

/// What one context switch leaves behind: the slot written for the outgoing
/// task holds the live register file, and the live register file becomes the
/// incoming task's stored set.
pub open spec fn switch_result(cpu: TaskContext, next: TaskContext) -> (TaskContext, TaskContext) {
    (cpu, next)
}

/// The context-switch primitive on the model register file `cpu`: it stores
/// the live callee-saved set into `*current`, then loads the set stored in
/// `*next`. The store happens first, exactly as the save/restore routine
/// does, so switching a slot with itself leaves the register file unchanged.
pub fn context_switch(cpu: &mut TaskContext, current: &mut TaskContext, next: &TaskContext)
    ensures
        (*final(current), *final(cpu)) == switch_result(*old(cpu), *next),
{
    *current = *cpu;
    *cpu = *next;
}

/// Switching from task A to task B and then back restores A's live register
/// file exactly, and leaves B's stored set as it was: on the stored register
/// sets, a round trip of switches is the identity.
pub proof fn lemma_context_switch_round_trip(cpu: TaskContext, b: TaskContext)
    ensures
        ({
            let (a_slot, cpu1) = switch_result(cpu, b);
            let (b_slot, cpu2) = switch_result(cpu1, a_slot);
            cpu2 == cpu && b_slot == b
        }),
{
}

/// A task control block: the task's identity, its scheduling state, its
/// saved register context, its exclusive stack buffer (bottom address and
/// size in bytes), and a non-owning reference to the shared top-level page
/// table, kept as a physical address.
#[derive(Clone, Copy)]
pub struct Task {
    /// The unique id of the task.
    pub id: TaskId,
    /// The current scheduling state.
    pub state: TaskState,
    /// The saved CPU context of the task.
    pub context: TaskContext,
    /// Bottom address of the owned stack buffer.
    pub stack_bottom: u64,
    /// Size of the stack buffer in bytes.
    pub stack_size: u64,
    /// Physical address of the top-level page table the task runs under.
    /// Shared across tasks in this design; tasks have no private spaces.
    pub p4_table: u64,
}

impl Task {
    /// A task is well formed when its stack pointer lies inside its stack
    /// buffer (or is zero for a task that has never run), with the base
    /// pointer treated the same way.
    pub open spec fn wf(self) -> bool {
        &&& self.stack_bottom + self.stack_size <= u64::MAX
        &&& self.context.rsp == 0 || (self.stack_bottom <= self.context.rsp
            <= self.stack_bottom + self.stack_size)
    }

    /// Builds a fresh `Ready` task: the saved context points the stack and
    /// base pointers at the top of the supplied stack buffer, the resume
    /// instruction pointer at the entry function, and zeroes the six
    /// callee-saved registers. A fresh id is minted from `next_id`.
    pub fn new(
        entry_point: u64,
        stack_bottom: u64,
        stack_size: u64,
        p4_table: u64,
        next_id: &mut u64,
    ) -> (t: Task)
        requires
            stack_bottom + stack_size <= u64::MAX,
            *old(next_id) < u64::MAX,
        ensures
            t.id.value == *old(next_id),
            *final(next_id) == *old(next_id) + 1,
            t.state == TaskState::Ready,
            t.context == (TaskContext {
                rsp: (stack_bottom + stack_size) as u64,
                rbp: (stack_bottom + stack_size) as u64,
                rbx: 0,
                r12: 0,
                r13: 0,
                r14: 0,
                r15: 0,
                rip: entry_point,
            }),
            t.stack_bottom == stack_bottom,
            t.stack_size == stack_size,
            t.p4_table == p4_table,
            t.wf(),
    {
        let stack_top = stack_bottom + stack_size;
        Task {
            id: TaskId::new(next_id),
            state: TaskState::Ready,
            context: TaskContext {
                rsp: stack_top,
                rbp: stack_top,
                rbx: 0,
                r12: 0,
                r13: 0,
                r14: 0,
                r15: 0,
                rip: entry_point,
            },
            stack_bottom,
            stack_size,
            p4_table,
        }
    }
}

/// How many slots one round-robin scan visits: with a single task the scan
/// considers that task itself; otherwise it considers every slot but the
/// current one.
pub open spec fn scan_limit(n: int) -> int {
    if n == 1 {
        1
    } else {
        n - 1
    }
}

/// The slot reached `d` steps after slot `c` in cyclic order over `n`
/// slots, for a slot `c < n` and a step count `d <= n`.
pub open spec fn slot_after(c: int, d: int, n: int) -> int {
    if c + d < n {
        c + d
    } else {
        c + d - n
    }
}

/// The slot of the first `Ready` task at cyclic offset `d` or beyond from
/// slot `c`, scanning no further than `scan_limit` steps; `None` when the
/// scan runs out.
pub open spec fn rr_pick_from(tasks: Seq<Task>, c: int, d: int) -> Option<int>
    decreases scan_limit(tasks.len() as int) - d + 1,
{
    let n = tasks.len() as int;
    if n < 1 || !(0 <= c < n) || !(1 <= d <= scan_limit(n)) {
        None
    } else if tasks[slot_after(c, d, n)].state is Ready {
        Some(slot_after(c, d, n))
    } else {
        rr_pick_from(tasks, c, d + 1)
    }
}

/// The slot the round-robin policy selects from current slot `c`: the first
/// `Ready` task in cyclic order starting just after `c`.
pub open spec fn rr_pick(tasks: Seq<Task>, c: int) -> Option<int> {
    rr_pick_from(tasks, c, 1)
}

/// The task states after a scheduling decision that moves the current slot
/// from `c` to `j`: the outgoing task loses `Running` for `Ready` (a
/// `Blocked` outgoing task stays `Blocked`), and the incoming task becomes
/// `Running`.
pub open spec fn rr_apply(tasks: Seq<Task>, c: int, j: int) -> Seq<Task> {
    let outgoing = tasks[c];
    let demoted = if outgoing.state is Running {
        tasks.update(c, (Task { state: TaskState::Ready, ..outgoing }))
    } else {
        tasks
    };
    demoted.update(j, (Task { state: TaskState::Running, ..demoted[j] }))
}

/// The round-robin scheduler: an ordered sequence of tasks and the index of
/// the current slot.
pub struct Scheduler {
    /// The tasks, in the order they were installed.
    pub tasks: Vec<Task>,
    /// The index of the current slot.
    pub current_task: usize,
}

impl Scheduler {
    /// The index of the current slot, as a mathematical integer.
    pub open spec fn current_index(self) -> int {
        self.current_task as int
    }

    /// Scheduler well-formedness: the current index names a slot (or zero
    /// while no task is installed), only the current slot may hold a
    /// `Running` task — so at most one task runs — and task ids are unique.
    pub open spec fn wf(self) -> bool {
        &&& self.tasks@.len() == 0 ==> self.current_index() == 0
        &&& self.tasks@.len() > 0 ==> 0 <= self.current_index() < self.tasks@.len()
        &&& forall|i: int|
            0 <= i < self.tasks@.len() && (#[trigger] self.tasks@[i].state) is Running
                ==> i == self.current_index()
        &&& forall|i: int, j: int|
            0 <= i < self.tasks@.len() && 0 <= j < self.tasks@.len() && i != j
                ==> #[trigger] self.tasks@[i].id != #[trigger] self.tasks@[j].id
    }

    /// Builds an empty scheduler.
    pub fn new() -> (s: Scheduler)
        ensures
            s.tasks@.len() == 0,
            s.current_index() == 0,
            s.wf(),
    {
        Scheduler { tasks: Vec::new(), current_task: 0 }
    }

    /// The id of the task in the current slot.
    pub fn current_task_id(&self) -> (id: TaskId)
        requires
            self.wf(),
            self.tasks@.len() > 0,
        ensures
            id == self.tasks@[self.current_index()].id,
    {
        self.tasks[self.current_task].id
    }

    /// Selects the next `Ready` task in cyclic order starting just after the
    /// current slot. On success the pair `(outgoing, incoming)` of slot
    /// indices is returned, the outgoing task steps from `Running` to
    /// `Ready` (a `Blocked` one stays `Blocked`), the incoming task becomes
    /// `Running`, and the current slot moves to it. When no other task is
    /// `Ready` the scheduler is left untouched and the caller must not
    /// switch.
    pub fn schedule(&mut self) -> (r: Option<(usize, usize)>)
        requires
            old(self).wf(),
            old(self).tasks@.len() >= 1,
        ensures
            final(self).wf(),
            (final(self).tasks@, final(self).current_index()) == rr_step(
                old(self).tasks@,
                old(self).current_index(),
            ),
            match r {
                None => {
                    &&& rr_pick(old(self).tasks@, old(self).current_index()) is None
                    &&& *final(self) == *old(self)
                },
                Some((c, j)) => {
                    &&& c == old(self).current_index()
                    &&& rr_pick(old(self).tasks@, c as int) == Some(j as int)
                    &&& j < old(self).tasks@.len()
                    &&& final(self).current_index() == j
                    &&& final(self).tasks@ == rr_apply(old(self).tasks@, c as int, j as int)
                },
            },
    {
        let n = self.tasks.len();
        let c = self.current_task;
        let limit: usize = if n == 1 { 1 } else { n - 1 };
        let mut d: usize = 1;
        let mut next = if c + 1 < n { c + 1 } else { 0 };
        loop
            invariant
                self == old(self),
                self.wf(),
                n == self.tasks@.len(),
                1 <= n,
                c == self.current_index(),
                limit == scan_limit(n as int),
                1 <= d <= limit,
                next == slot_after(c as int, d as int, n as int),
                rr_pick(self.tasks@, c as int) == rr_pick_from(self.tasks@, c as int, d as int),
            decreases limit - d,
        {
            if self.tasks[next].state == TaskState::Ready {
                let j = next;
                if self.tasks[c].state == TaskState::Running {
                    self.tasks[c].state = TaskState::Ready;
                }
                self.tasks[j].state = TaskState::Running;
                self.current_task = j;
                proof {
                    assert(self.tasks@ =~= rr_apply(old(self).tasks@, c as int, j as int));
                }
                return Some((c, j));
            }
            if d == limit {
                proof {
                    assert(rr_pick_from(self.tasks@, c as int, d as int + 1) is None);
                    assert(rr_pick_from(self.tasks@, c as int, d as int) is None);
                }
                return None;
            }
            d = d + 1;
            next = if next + 1 < n { next + 1 } else { 0 };
        }
    }
}

/// One per-task mailbox: the owning task's id and its unbounded FIFO of
/// fixed-width messages.
pub struct Mailbox {
    /// The id of the task this mailbox belongs to.
    pub owner: TaskId,
    /// The queued messages, oldest first.
    pub messages: VecDeque<Message>,
}

/// The mailbox map: one FIFO per installed task, created when the task is
/// added to the scheduler and never destroyed.
pub struct Mailboxes {
    /// The mailboxes, one per installed task.
    pub boxes: Vec<Mailbox>,
}

impl Mailboxes {
    /// Well-formedness: no two mailboxes share an owner.
    pub open spec fn wf(self) -> bool {
        forall|i: int, j: int|
            0 <= i < self.boxes@.len() && 0 <= j < self.boxes@.len() && i != j
                ==> #[trigger] self.boxes@[i].owner != #[trigger] self.boxes@[j].owner
    }

    /// Whether a mailbox exists for task `id`.
    pub open spec fn has_mailbox(self, id: TaskId) -> bool {
        exists|i: int| 0 <= i < self.boxes@.len() && #[trigger] self.boxes@[i].owner == id
    }

    /// The slot of the mailbox owned by `id` (meaningful when it exists).
    pub open spec fn index_of(self, id: TaskId) -> int {
        choose|i: int| 0 <= i < self.boxes@.len() && #[trigger] self.boxes@[i].owner == id
    }

    /// The queued messages of task `id`, oldest first (meaningful when the
    /// mailbox exists).
    pub open spec fn mailbox(self, id: TaskId) -> Seq<Message> {
        self.boxes@[self.index_of(id)].messages@
    }

    /// Builds an empty mailbox map.
    pub fn new() -> (m: Mailboxes)
        ensures
            m.boxes@.len() == 0,
            forall|id: TaskId| !m.has_mailbox(id),
            m.wf(),
    {
        Mailboxes { boxes: Vec::new() }
    }

    /// In a well-formed mailbox map, a slot whose owner is `id` is the one
    /// slot `index_of` names.
    proof fn lemma_index_of(self, id: TaskId, i: int)
        requires
            self.wf(),
            0 <= i < self.boxes@.len(),
            self.boxes@[i].owner == id,
        ensures
            self.has_mailbox(id),
            self.index_of(id) == i,
    {
        assert(self.has_mailbox(id));
        let k = self.index_of(id);
        assert(0 <= k < self.boxes@.len() && self.boxes@[k].owner == id);
    }

    /// Finds the slot of the mailbox owned by `id`, if one exists.
    fn find_box_index(&self, id: TaskId) -> (r: Option<usize>)
        requires
            self.wf(),
        ensures
            match r {
                Some(i) => {
                    &&& i < self.boxes@.len()
                    &&& self.boxes@[i as int].owner == id
                    &&& self.has_mailbox(id)
                    &&& self.index_of(id) == i
                },
                None => !self.has_mailbox(id),
            },
    {
        let n = self.boxes.len();
        let mut i: usize = 0;
        while i < n
            invariant
                n == self.boxes@.len(),
                0 <= i <= n,
                self.wf(),
                forall|k: int| 0 <= k < i ==> #[trigger] self.boxes@[k].owner != id,
            decreases n - i,
        {
            if self.boxes[i].owner == id {
                proof {
                    self.lemma_index_of(id, i as int);
                }
                return Some(i);
            }
            i = i + 1;
        }
        None
    }

    /// Installs an empty mailbox for task `id`. Every other mailbox keeps
    /// its owner and contents.
    fn create_mailbox(&mut self, id: TaskId)
        requires
            old(self).wf(),
            !old(self).has_mailbox(id),
        ensures
            final(self).wf(),
            final(self).has_mailbox(id),
            final(self).mailbox(id).len() == 0,
            forall|other: TaskId|
                other != id ==> final(self).has_mailbox(other) == old(self).has_mailbox(other),
            forall|other: TaskId|
                other != id && old(self).has_mailbox(other)
                    ==> final(self).mailbox(other) == old(self).mailbox(other),
    {
        self.boxes.push(Mailbox { owner: id, messages: VecDeque::new() });
        proof {
            let n = old(self).boxes@.len() as int;
            assert(self.boxes@[n].owner == id);
            self.lemma_index_of(id, n);
            assert forall|other: TaskId| other != id implies self.has_mailbox(other)
                == old(self).has_mailbox(other) by {
                if old(self).has_mailbox(other) {
                    let k = choose|k: int|
                        0 <= k < old(self).boxes@.len() && #[trigger] old(self).boxes@[k].owner == other;
                    assert(self.boxes@[k].owner == other);
                }
                if self.has_mailbox(other) {
                    let k = self.index_of(other);
                    assert(0 <= k < self.boxes@.len() && self.boxes@[k].owner == other);
                    assert(k != n);
                    assert(old(self).boxes@[k].owner == other);
                }
            }
            assert forall|other: TaskId| other != id && old(self).has_mailbox(other) implies self
                .mailbox(other) == old(self).mailbox(other) by {
                let k = old(self).index_of(other);
                assert(0 <= k < old(self).boxes@.len() && old(self).boxes@[k].owner == other);
                assert(self.boxes@[k].owner == other);
                self.lemma_index_of(other, k);
            }
        }
    }
}

/// Whether some installed task carries id `id`.
pub open spec fn has_task(tasks: Seq<Task>, id: TaskId) -> bool {
    exists|i: int| 0 <= i < tasks.len() && #[trigger] tasks[i].id == id
}

/// The slot of the task carrying id `id` (meaningful when it exists and ids
/// are unique).
pub open spec fn task_index_of(tasks: Seq<Task>, id: TaskId) -> int {
    choose|i: int| 0 <= i < tasks.len() && #[trigger] tasks[i].id == id
}

/// The task states after waking task `id`: a `Blocked` task with that id
/// becomes `Ready`; a task in any other state, or an unknown id, changes
/// nothing.
pub open spec fn wake(tasks: Seq<Task>, id: TaskId) -> Seq<Task> {
    if !has_task(tasks, id) {
        tasks
    } else {
        let i = task_index_of(tasks, id);
        if tasks[i].state is Blocked {
            tasks.update(i, (Task { state: TaskState::Ready, ..tasks[i] }))
        } else {
            tasks
        }
    }
}

impl Scheduler {
    /// In a well-formed scheduler, a slot whose task carries `id` is the one
    /// slot `task_index_of` names.
    proof fn lemma_task_index_of(self, id: TaskId, i: int)
        requires
            self.wf(),
            0 <= i < self.tasks@.len(),
            self.tasks@[i].id == id,
        ensures
            has_task(self.tasks@, id),
            task_index_of(self.tasks@, id) == i,
    {
        assert(has_task(self.tasks@, id));
        let k = task_index_of(self.tasks@, id);
        assert(0 <= k < self.tasks@.len() && self.tasks@[k].id == id);
    }

    /// Finds the slot of the task carrying `id`, if one exists.
    pub(crate) fn find_task_index(&self, id: TaskId) -> (r: Option<usize>)
        requires
            self.wf(),
        ensures
            match r {
                Some(i) => {
                    &&& i < self.tasks@.len()
                    &&& self.tasks@[i as int].id == id
                    &&& has_task(self.tasks@, id)
                    &&& task_index_of(self.tasks@, id) == i
                },
                None => !has_task(self.tasks@, id),
            },
    {
        let n = self.tasks.len();
        let mut i: usize = 0;
        while i < n
            invariant
                n == self.tasks@.len(),
                0 <= i <= n,
                self.wf(),
                forall|k: int| 0 <= k < i ==> #[trigger] self.tasks@[k].id != id,
            decreases n - i,
        {
            if self.tasks[i].id == id {
                proof {
                    self.lemma_task_index_of(id, i as int);
                }
                return Some(i);
            }
            i = i + 1;
        }
        None
    }

    /// Appends a fresh `Ready` task and installs an empty mailbox for it.
    /// The current slot and every other task and mailbox are untouched.
    pub fn add_task(&mut self, mailboxes: &mut Mailboxes, task: Task)
        requires
            old(self).wf(),
            old(mailboxes).wf(),
            task.state == TaskState::Ready,
            !has_task(old(self).tasks@, task.id),
            !old(mailboxes).has_mailbox(task.id),
        ensures
            final(self).wf(),
            final(mailboxes).wf(),
            final(self).tasks@ == old(self).tasks@.push(task),
            final(self).current_index() == old(self).current_index(),
            final(mailboxes).has_mailbox(task.id),
            final(mailboxes).mailbox(task.id).len() == 0,
            forall|other: TaskId|
                other != task.id ==> final(mailboxes).has_mailbox(other) == old(mailboxes).has_mailbox(other),
            forall|other: TaskId|
                other != task.id && old(mailboxes).has_mailbox(other) ==> final(mailboxes).mailbox(
                    other,
                ) == old(mailboxes).mailbox(other),
    {
        proof {
            assert forall|i: int| 0 <= i < old(self).tasks@.len() implies #[trigger] old(self).tasks@[i].id != task.id by {
                if old(self).tasks@[i].id == task.id {
                    assert(has_task(old(self).tasks@, task.id));
                }
            }
        }
        let task_id = task.id;
        self.tasks.push(task);
        mailboxes.create_mailbox(task_id);
    }
}

/// Appends `message` to the mailbox of task `receiver_id` and, when that
/// task is `Blocked`, marks it `Ready` again. Returns false, and changes
/// nothing, exactly when no mailbox exists for `receiver_id`. Never blocks
/// and never fails for capacity: mailboxes are unbounded.
pub fn send(
    mailboxes: &mut Mailboxes,
    scheduler: &mut Scheduler,
    receiver_id: TaskId,
    message: Message,
) -> (delivered: bool)
    requires
        old(mailboxes).wf(),
        old(scheduler).wf(),
    ensures
        final(mailboxes).wf(),
        final(scheduler).wf(),
        delivered == old(mailboxes).has_mailbox(receiver_id),
        !delivered ==> *final(mailboxes) == *old(mailboxes) && *final(scheduler) == *old(scheduler),
        delivered ==> {
            &&& final(mailboxes).mailbox(receiver_id) == old(mailboxes).mailbox(
                receiver_id,
            ).push(message)
            &&& forall|other: TaskId|
                final(mailboxes).has_mailbox(other) == old(mailboxes).has_mailbox(other)
            &&& forall|other: TaskId|
                other != receiver_id && old(mailboxes).has_mailbox(other) ==> final(mailboxes).mailbox(other) == old(mailboxes).mailbox(other)
            &&& final(scheduler).tasks@ == wake(old(scheduler).tasks@, receiver_id)
            &&& final(scheduler).current_index() == old(scheduler).current_index()
        },
{
    let slot = mailboxes.find_box_index(receiver_id);
    match slot {
        None => false,
        Some(bi) => {
            mailboxes.boxes[bi].messages.push_back(message);
            proof {
                mailboxes.lemma_index_of(receiver_id, bi as int);
                assert forall|other: TaskId| mailboxes.has_mailbox(other) == old(mailboxes).has_mailbox(other) by {
                    if old(mailboxes).has_mailbox(other) {
                        let k = old(mailboxes).index_of(other);
                        assert(mailboxes.boxes@[k].owner == other);
                    }
                    if mailboxes.has_mailbox(other) {
                        let k = mailboxes.index_of(other);
                        assert(old(mailboxes).boxes@[k].owner == other);
                    }
                }
                assert forall|other: TaskId|
                    other != receiver_id && old(mailboxes).has_mailbox(other) implies mailboxes
                    .mailbox(other) == old(mailboxes).mailbox(other) by {
                    let k = old(mailboxes).index_of(other);
                    assert(mailboxes.boxes@[k].owner == other);
                    mailboxes.lemma_index_of(other, k);
                }
            }
            let ti = scheduler.find_task_index(receiver_id);
            match ti {
                Some(i) => {
                    if scheduler.tasks[i].state == TaskState::Blocked {
                        scheduler.tasks[i].state = TaskState::Ready;
                        proof {
                            assert(scheduler.tasks@ =~= wake(old(scheduler).tasks@, receiver_id));
                        }
                    } else {
                        proof {
                            assert(scheduler.tasks@ =~= wake(old(scheduler).tasks@, receiver_id));
                        }
                    }
                },
                None => {
                    proof {
                        assert(scheduler.tasks@ =~= wake(old(scheduler).tasks@, receiver_id));
                    }
                },
            }
            true
        },
    }
}

/// Pops the oldest message from the current task's mailbox, if one is
/// queued. On an empty mailbox it instead marks the current task `Blocked`
/// and returns nothing; the caller must then yield and retry once woken, so
/// a task is `Blocked` on receive only while its mailbox was empty at the
/// moment of the decision.
pub fn try_receive(mailboxes: &mut Mailboxes, scheduler: &mut Scheduler) -> (msg: Option<Message>)
    requires
        old(mailboxes).wf(),
        old(scheduler).wf(),
        old(scheduler).tasks@.len() > 0,
        old(mailboxes).has_mailbox(old(scheduler).tasks@[old(scheduler).current_index()].id),
    ensures
        final(mailboxes).wf(),
        final(scheduler).wf(),
        ({
            let cur = old(scheduler).current_index();
            let id = old(scheduler).tasks@[cur].id;
            let queued = old(mailboxes).mailbox(id);
            match msg {
                Some(m) => {
                    &&& queued.len() > 0
                    &&& m == queued[0]
                    &&& final(mailboxes).mailbox(id) == queued.subrange(1, queued.len() as int)
                    &&& final(scheduler).tasks@ == old(scheduler).tasks@
                    &&& final(scheduler).current_index() == cur
                },
                None => {
                    &&& queued.len() == 0
                    &&& final(mailboxes).mailbox(id) == queued
                    &&& final(scheduler).tasks@ == old(scheduler).tasks@.update(
                        cur,
                        (Task { state: TaskState::Blocked, ..old(scheduler).tasks@[cur] }),
                    )
                    &&& final(scheduler).current_index() == cur
                },
            }
        }),
        forall|other: TaskId|
            final(mailboxes).has_mailbox(other) == old(mailboxes).has_mailbox(other),
        forall|other: TaskId|
            other != old(scheduler).tasks@[old(scheduler).current_index()].id && old(mailboxes).has_mailbox(other) ==> final(mailboxes).mailbox(other) == old(mailboxes).mailbox(
                other,
            ),
{
    let my_id = scheduler.current_task_id();
    // The current task has a mailbox: one is created with every task.
    let bi = mailboxes.find_box_index(my_id).unwrap();
    let popped = mailboxes.boxes[bi].messages.pop_front();
    proof {
        mailboxes.lemma_index_of(my_id, bi as int);
        assert forall|other: TaskId| mailboxes.has_mailbox(other) == old(mailboxes).has_mailbox(other) by {
            if old(mailboxes).has_mailbox(other) {
                let k = old(mailboxes).index_of(other);
                assert(mailboxes.boxes@[k].owner == other);
            }
            if mailboxes.has_mailbox(other) {
                let k = mailboxes.index_of(other);
                assert(old(mailboxes).boxes@[k].owner == other);
            }
        }
        assert forall|other: TaskId|
            other != my_id && old(mailboxes).has_mailbox(other) implies mailboxes.mailbox(
            other,
        ) == old(mailboxes).mailbox(other) by {
            let k = old(mailboxes).index_of(other);
            assert(mailboxes.boxes@[k].owner == other);
            mailboxes.lemma_index_of(other, k);
        }
    }
    match popped {
        Some(m) => Some(m),
        None => {
            let cur = scheduler.current_task;
            scheduler.tasks[cur].state = TaskState::Blocked;
            None
        },
    }
}

/// In every well-formed scheduler state, at most one task is `Running`:
/// well-formedness pins any `Running` task to the current slot, so two
/// `Running` slots coincide. Before the first scheduling decision no task
/// is `Running` at all; `schedule`, `send`, `try_receive` and the semaphore
/// operations all preserve well-formedness, so this holds of every
/// reachable state.
pub proof fn lemma_at_most_one_running(s: Scheduler)
    requires
        s.wf(),
    ensures
        forall|i: int, j: int|
            0 <= i < s.tasks@.len() && 0 <= j < s.tasks@.len() && (#[trigger] s.tasks@[i].state)
                is Running && (#[trigger] s.tasks@[j].state) is Running ==> i == j,
{
}

/// Sending then receiving on an empty mailbox yields the sent message and
/// leaves the mailbox empty: `send` appends to the queue and a receive
/// takes the head and keeps the tail, as their contracts state over this
/// queue model.
pub proof fn lemma_send_receive_round_trip(queue: Seq<Message>, m: Message)
    requires
        queue.len() == 0,
    ensures
        queue.push(m)[0] == m,
        queue.push(m).subrange(1, queue.push(m).len() as int) == Seq::<Message>::empty(),
{
    assert(queue.push(m).subrange(1, queue.push(m).len() as int) =~= Seq::<Message>::empty());
}

/// Messages from one sender arrive in send order: the first send places
/// its message ahead of the second in the receiver\'s queue, whatever other
/// senders append between the two.
pub proof fn lemma_fifo_order(queue: Seq<Message>, between: Seq<Message>, m1: Message, m2: Message)
    ensures
        ({
            let q = queue.push(m1) + between.push(m2);
            let i1 = queue.len() as int;
            let i2 = queue.len() + between.len() + 1;
            i1 < i2 && q[i1] == m1 && q[i2 as int] == m2
        }),
{
}

/// Receives drain the queue front to back: after `k` receives the head is
/// the `k`-th queued message, and one more receive leaves the suffix past
/// it, as the contract of a receive states over this queue model.
pub proof fn lemma_receive_in_order(queue: Seq<Message>, k: int)
    requires
        0 <= k < queue.len(),
    ensures
        queue.subrange(k, queue.len() as int)[0] == queue[k],
        queue.subrange(k, queue.len() as int).subrange(
            1,
            queue.len() - k,
        ) == queue.subrange(k + 1, queue.len() as int),
{
    assert(queue.subrange(k, queue.len() as int).subrange(1, queue.len() - k) =~= queue.subrange(
        k + 1,
        queue.len() as int,
    ));
}

/// One scheduling decision as a pure transition on the task states and the
/// current slot: a step does nothing when no other task is `Ready`.
pub open spec fn rr_step(tasks: Seq<Task>, c: int) -> (Seq<Task>, int) {
    match rr_pick(tasks, c) {
        None => (tasks, c),
        Some(j) => (rr_apply(tasks, c, j), j),
    }
}

/// `k` scheduling decisions in a row, from the given state.
pub open spec fn rr_iter(tasks: Seq<Task>, c: int, k: nat) -> (Seq<Task>, int)
    decreases k,
{
    if k == 0 {
        (tasks, c)
    } else {
        let (tasks1, c1) = rr_step(tasks, c);
        rr_iter(tasks1, c1, (k - 1) as nat)
    }
}

/// How many forward steps the scan takes from slot `c` to slot `i` in
/// cyclic order over `n` slots.
pub open spec fn cyclic_distance(c: int, i: int, n: int) -> int {
    if i >= c {
        i - c
    } else {
        i - c + n
    }
}

/// The scan from offset `d` finds a `Ready` task no further than any
/// `Ready` task at or past that offset.
proof fn lemma_rr_pick_from_bounded(tasks: Seq<Task>, c: int, d: int, i: int)
    requires
        1 <= tasks.len(),
        0 <= c < tasks.len(),
        0 <= i < tasks.len(),
        i != c,
        tasks[i].state is Ready,
        1 <= d <= cyclic_distance(c, i, tasks.len() as int),
    ensures
        rr_pick_from(tasks, c, d) is Some,
        ({
            let j = rr_pick_from(tasks, c, d)->Some_0;
            &&& 0 <= j < tasks.len()
            &&& tasks[j].state is Ready
            &&& d <= cyclic_distance(c, j, tasks.len() as int) <= cyclic_distance(
                c,
                i,
                tasks.len() as int,
            )
        }),
    decreases cyclic_distance(c, i, tasks.len() as int) - d,
{
    let n = tasks.len() as int;
    let di = cyclic_distance(c, i, n);
    assert(di <= n - 1);
    assert(scan_limit(n) == n - 1);
    let s = slot_after(c, d, n);
    assert(cyclic_distance(c, s, n) == d);
    if tasks[s].state is Ready {
    } else {
        assert(s != i);
        assert(d < di);
        lemma_rr_pick_from_bounded(tasks, c, d + 1, i);
    }
}

/// Round-robin progress: a `Ready` task other than the current one is
/// selected within its cyclic distance from the current slot, hence within
/// `N` scheduling decisions for `N` installed tasks — provided it stays
/// `Ready` meanwhile, which the decisions themselves guarantee: a step
/// only demotes the outgoing task, and to `Ready`. A `Ready` task in the
/// current slot itself is not covered: the scan starts just past the
/// current slot, so with every other task `Blocked` the scheduler reports
/// no candidate rather than re-selecting it.
pub proof fn lemma_round_robin_progress(tasks: Seq<Task>, c: int, i: int)
    requires
        1 <= tasks.len(),
        0 <= c < tasks.len(),
        0 <= i < tasks.len(),
        i != c,
        tasks[i].state is Ready,
    ensures
        exists|k: nat|
            1 <= k <= cyclic_distance(c, i, tasks.len() as int) && #[trigger] rr_iter(
                tasks,
                c,
                k,
            ).1 == i,
    decreases cyclic_distance(c, i, tasks.len() as int),
{
    let n = tasks.len() as int;
    let di = cyclic_distance(c, i, n);
    lemma_rr_pick_from_bounded(tasks, c, 1, i);
    let j = rr_pick(tasks, c)->Some_0;
    let dj = cyclic_distance(c, j, n);
    let (tasks1, c1) = rr_step(tasks, c);
    if j == i {
        assert(rr_iter(tasks, c, 1nat) == rr_iter(tasks1, c1, 0nat));
        assert(rr_iter(tasks, c, 1nat).1 == i);
        assert(1 <= 1 <= di && rr_iter(tasks, c, 1nat).1 == i);
    } else {
        assert(tasks1 == rr_apply(tasks, c, j));
        assert(tasks1[i] == tasks[i]);
        assert(cyclic_distance(j, i, n) == di - dj);
        lemma_round_robin_progress(tasks1, j, i);
        let k1 = choose|k: nat|
            1 <= k <= cyclic_distance(j, i, n) && #[trigger] rr_iter(tasks1, j, k).1 == i;
        assert(rr_iter(tasks, c, k1 + 1).1 == i);
        assert(1 <= k1 + 1 <= di && rr_iter(tasks, c, (k1 + 1) as nat).1 == i);
    }
}

} // verus!
