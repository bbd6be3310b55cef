use microkernel::interrupts::timer_tick;
use microkernel::task::{
    context_switch, Mailboxes, Scheduler, Task, TaskContext, TaskId, TaskState,
};

fn fresh_task(entry: u64, next_id: &mut u64) -> Task {
    Task::new(entry, 0x1000 * (*next_id + 1), 0x1000, 0x5000, next_id)
}

fn running_count(s: &Scheduler) -> usize {
    s.tasks.iter().filter(|t| t.state == TaskState::Running).count()
}

#[test]
fn task_id_minting_is_monotonic() {
    let mut next_id: u64 = 0;
    let a = TaskId::new(&mut next_id);
    let b = TaskId::new(&mut next_id);
    let c = TaskId::new(&mut next_id);
    assert_eq!(a.value, 0);
    assert_eq!(b.value, 1);
    assert_eq!(c.value, 2);
    assert_ne!(a, b);
    assert_ne!(b, c);
    assert_eq!(next_id, 3);
}

#[test]
fn new_task_is_ready_with_stack_top_context() {
    let mut next_id: u64 = 7;
    let t = Task::new(0x1234, 0x8000, 0x1000, 0x5000, &mut next_id);
    assert_eq!(t.id.value, 7);
    assert_eq!(t.state, TaskState::Ready);
    assert_eq!(t.context.rsp, 0x9000);
    assert_eq!(t.context.rbp, 0x9000);
    assert_eq!(t.context.rip, 0x1234);
    assert_eq!(t.context.rbx, 0);
    assert_eq!(t.context.r12, 0);
    assert_eq!(t.context.r13, 0);
    assert_eq!(t.context.r14, 0);
    assert_eq!(t.context.r15, 0);
    assert_eq!(next_id, 8);
}

#[test]
fn schedule_picks_next_ready_in_cyclic_order() {
    let mut next_id: u64 = 0;
    let mut scheduler = Scheduler::new();
    let mut mailboxes = Mailboxes::new();
    for _ in 0..3 {
        let t = fresh_task(0x40_0000, &mut next_id);
        scheduler.add_task(&mut mailboxes, t);
    }
    // All tasks ready, current slot 0: slot 1 is the first candidate.
    let picked = scheduler.schedule().expect("a ready task exists");
    assert_eq!(picked, (0, 1));
    assert_eq!(scheduler.tasks[1].state, TaskState::Running);
    // Slot 0 was Ready, not Running, so it stays Ready.
    assert_eq!(scheduler.tasks[0].state, TaskState::Ready);
    let picked = scheduler.schedule().expect("a ready task exists");
    assert_eq!(picked, (1, 2));
    assert_eq!(scheduler.tasks[1].state, TaskState::Ready);
    assert_eq!(scheduler.tasks[2].state, TaskState::Running);
}

#[test]
fn at_most_one_task_running() {
    let mut next_id: u64 = 0;
    let mut scheduler = Scheduler::new();
    let mut mailboxes = Mailboxes::new();
    for _ in 0..4 {
        let t = fresh_task(0x40_0000, &mut next_id);
        scheduler.add_task(&mut mailboxes, t);
    }
    assert_eq!(running_count(&scheduler), 0);
    for _ in 0..10 {
        scheduler.schedule();
        assert!(running_count(&scheduler) <= 1);
    }
    assert_eq!(running_count(&scheduler), 1);
}

#[test]
fn schedule_returns_none_when_no_other_ready() {
    let mut next_id: u64 = 0;
    let mut scheduler = Scheduler::new();
    let mut mailboxes = Mailboxes::new();
    for _ in 0..2 {
        let t = fresh_task(0x40_0000, &mut next_id);
        scheduler.add_task(&mut mailboxes, t);
    }
    scheduler.tasks[0].state = TaskState::Running;
    scheduler.tasks[1].state = TaskState::Blocked;
    assert_eq!(scheduler.schedule(), None);
    // Nothing moved: the caller must not switch.
    assert_eq!(scheduler.tasks[0].state, TaskState::Running);
    assert_eq!(scheduler.tasks[1].state, TaskState::Blocked);
}

#[test]
fn blocked_outgoing_task_stays_blocked() {
    let mut next_id: u64 = 0;
    let mut scheduler = Scheduler::new();
    let mut mailboxes = Mailboxes::new();
    for _ in 0..2 {
        let t = fresh_task(0x40_0000, &mut next_id);
        scheduler.add_task(&mut mailboxes, t);
    }
    scheduler.tasks[0].state = TaskState::Blocked;
    let picked = scheduler.schedule().expect("slot 1 is ready");
    assert_eq!(picked, (0, 1));
    assert_eq!(scheduler.tasks[0].state, TaskState::Blocked);
    assert_eq!(scheduler.tasks[1].state, TaskState::Running);
}

#[test]
fn single_ready_task_selects_itself() {
    // The boot case: one installed task, not yet running. The scan of a
    // one-task scheduler considers that task itself.
    let mut next_id: u64 = 0;
    let mut scheduler = Scheduler::new();
    let mut mailboxes = Mailboxes::new();
    let t = fresh_task(0x40_0000, &mut next_id);
    scheduler.add_task(&mut mailboxes, t);
    assert_eq!(scheduler.schedule(), Some((0, 0)));
    assert_eq!(scheduler.tasks[0].state, TaskState::Running);
    // Once it runs, there is no other candidate.
    assert_eq!(scheduler.schedule(), None);
    assert_eq!(scheduler.tasks[0].state, TaskState::Running);
}

#[test]
fn round_robin_three_ticks_run_every_task() {
    // Three compute-bound tasks under the timer: within three ticks each
    // one has been Running at least once.
    let mut next_id: u64 = 0;
    let mut scheduler = Scheduler::new();
    let mut mailboxes = Mailboxes::new();
    for _ in 0..3 {
        let t = fresh_task(0x40_0000, &mut next_id);
        scheduler.add_task(&mut mailboxes, t);
    }
    let mut cpu = TaskContext {
        rsp: 0x9000,
        rbp: 0x9000,
        rbx: 1,
        r12: 2,
        r13: 3,
        r14: 4,
        r15: 5,
        rip: 0x40_0000,
    };
    let mut was_running = [false; 3];
    for _ in 0..3 {
        assert!(timer_tick(&mut scheduler, &mut cpu));
        for (i, task) in scheduler.tasks.iter().enumerate() {
            if task.state == TaskState::Running {
                was_running[i] = true;
            }
        }
    }
    assert!(was_running.iter().all(|&b| b));
}

#[test]
fn timer_tick_saves_and_restores_contexts() {
    let mut next_id: u64 = 0;
    let mut scheduler = Scheduler::new();
    let mut mailboxes = Mailboxes::new();
    for _ in 0..2 {
        let t = fresh_task(0x40_0000, &mut next_id);
        scheduler.add_task(&mut mailboxes, t);
    }
    let live = TaskContext {
        rsp: 0x1111,
        rbp: 0x2222,
        rbx: 3,
        r12: 4,
        r13: 5,
        r14: 6,
        r15: 7,
        rip: 0x8888,
    };
    let mut cpu = live;
    let incoming = scheduler.tasks[1].context;
    assert!(timer_tick(&mut scheduler, &mut cpu));
    // The outgoing slot took the live register file; the incoming slot's
    // stored set became live.
    assert_eq!(scheduler.tasks[0].context, live);
    assert_eq!(cpu, incoming);
}

#[test]
fn context_switch_round_trip_restores_registers() {
    let a = TaskContext {
        rsp: 1,
        rbp: 2,
        rbx: 3,
        r12: 4,
        r13: 5,
        r14: 6,
        r15: 7,
        rip: 8,
    };
    let b = TaskContext {
        rsp: 10,
        rbp: 20,
        rbx: 30,
        r12: 40,
        r13: 50,
        r14: 60,
        r15: 70,
        rip: 80,
    };
    let mut cpu = a;
    let mut slot_a = TaskContext { rsp: 0, rbp: 0, rbx: 0, r12: 0, r13: 0, r14: 0, r15: 0, rip: 0 };
    let mut slot_b = b;
    // A -> B.
    let loaded = slot_b;
    context_switch(&mut cpu, &mut slot_a, &loaded);
    assert_eq!(slot_a, a);
    assert_eq!(cpu, b);
    // B -> A.
    let loaded = slot_a;
    context_switch(&mut cpu, &mut slot_b, &loaded);
    assert_eq!(cpu, a);
    assert_eq!(slot_b, b);
}
