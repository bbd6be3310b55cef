use microkernel::registry::NameRegistry;
use microkernel::sync::Semaphore;
use microkernel::task::{send, try_receive, Mailboxes, Scheduler, Task, TaskState};

fn install_tasks(count: u64) -> (Scheduler, Mailboxes) {
    let mut next_id: u64 = 0;
    let mut scheduler = Scheduler::new();
    let mut mailboxes = Mailboxes::new();
    for _ in 0..count {
        let t = Task::new(0x40_0000, 0x1000 * (next_id + 1), 0x1000, 0x5000, &mut next_id);
        scheduler.add_task(&mut mailboxes, t);
    }
    (scheduler, mailboxes)
}

#[test]
fn send_then_receive_round_trip() {
    let (mut scheduler, mut mailboxes) = install_tasks(2);
    let receiver = scheduler.tasks[0].id;
    assert!(send(&mut mailboxes, &mut scheduler, receiver, 42));
    // Current slot is 0, so the receive drains that task's mailbox.
    assert_eq!(try_receive(&mut mailboxes, &mut scheduler), Some(42));
    // The mailbox is empty afterward: the next receive blocks.
    assert_eq!(try_receive(&mut mailboxes, &mut scheduler), None);
}

#[test]
fn send_to_unknown_task_returns_false() {
    let (mut scheduler, mut mailboxes) = install_tasks(2);
    let stranger = microkernel::task::TaskId { value: 999 };
    assert!(!send(&mut mailboxes, &mut scheduler, stranger, 5));
    // Nothing changed for the installed tasks.
    assert_eq!(scheduler.tasks[0].state, TaskState::Ready);
    assert_eq!(scheduler.tasks[1].state, TaskState::Ready);
}

#[test]
fn fifo_order_from_one_sender() {
    let (mut scheduler, mut mailboxes) = install_tasks(2);
    let receiver = scheduler.tasks[0].id;
    assert!(send(&mut mailboxes, &mut scheduler, receiver, 10));
    assert!(send(&mut mailboxes, &mut scheduler, receiver, 20));
    assert!(send(&mut mailboxes, &mut scheduler, receiver, 30));
    assert_eq!(try_receive(&mut mailboxes, &mut scheduler), Some(10));
    assert_eq!(try_receive(&mut mailboxes, &mut scheduler), Some(20));
    assert_eq!(try_receive(&mut mailboxes, &mut scheduler), Some(30));
}

#[test]
fn blocking_receive_wakes_on_send() {
    // A task receives before any send targets it: it blocks, the other
    // task runs and sends, and the blocked task comes back Ready and
    // returns the message.
    let (mut scheduler, mut mailboxes) = install_tasks(2);
    let receiver = scheduler.tasks[0].id;
    assert_eq!(try_receive(&mut mailboxes, &mut scheduler), None);
    assert_eq!(scheduler.tasks[0].state, TaskState::Blocked);
    // The yield raises the timer vector; the scheduler picks the other task.
    let picked = scheduler.schedule().expect("the other task is ready");
    assert_eq!(picked, (0, 1));
    // That task sends: the blocked receiver becomes Ready again.
    assert!(send(&mut mailboxes, &mut scheduler, receiver, 77));
    assert_eq!(scheduler.tasks[0].state, TaskState::Ready);
    // At the next tick the receiver is selected and retries.
    let picked = scheduler.schedule().expect("the receiver is ready");
    assert_eq!(picked, (1, 0));
    assert_eq!(try_receive(&mut mailboxes, &mut scheduler), Some(77));
}

#[test]
fn ping_pong_exchanges_both_messages() {
    let (mut scheduler, mut mailboxes) = install_tasks(2);
    let mut registry = NameRegistry::new();
    registry.register(String::from("ping"), scheduler.tasks[0].id);
    registry.register(String::from("pong"), scheduler.tasks[1].id);

    let pong_id = registry.lookup(&String::from("pong")).expect("pong is registered");
    let ping_id = registry.lookup(&String::from("ping")).expect("ping is registered");
    assert_eq!(pong_id, scheduler.tasks[1].id);
    assert_eq!(ping_id, scheduler.tasks[0].id);
    assert!(registry.lookup(&String::from("quux")).is_none());

    // ping sends 42 to pong.
    assert!(send(&mut mailboxes, &mut scheduler, pong_id, 42));
    // pong runs and receives it.
    let picked = scheduler.schedule().expect("pong is ready");
    assert_eq!(picked, (0, 1));
    assert_eq!(try_receive(&mut mailboxes, &mut scheduler), Some(42));
    // pong replies with 43; ping receives it.
    assert!(send(&mut mailboxes, &mut scheduler, ping_id, 43));
    let picked = scheduler.schedule().expect("ping is ready");
    assert_eq!(picked, (1, 0));
    assert_eq!(try_receive(&mut mailboxes, &mut scheduler), Some(43));
}

#[test]
fn semaphore_up_then_down_does_not_block() {
    let (mut scheduler, _mailboxes) = install_tasks(2);
    let mut sem = Semaphore::new(0);
    sem.up(&mut scheduler);
    assert_eq!(sem.counter, 1);
    assert!(sem.down_step(&mut scheduler));
    assert_eq!(sem.counter, 0);
    assert_eq!(scheduler.tasks[0].state, TaskState::Ready);
}

#[test]
fn semaphore_down_then_up_with_initial_one() {
    let (mut scheduler, _mailboxes) = install_tasks(2);
    let mut sem = Semaphore::new(1);
    assert!(sem.down_step(&mut scheduler));
    assert_eq!(sem.counter, 0);
    sem.up(&mut scheduler);
    assert_eq!(sem.counter, 1);
    assert!(sem.waiting_tasks.is_empty());
}

#[test]
fn semaphore_blocks_at_zero_and_up_wakes_in_fifo_order() {
    let (mut scheduler, _mailboxes) = install_tasks(3);
    let mut sem = Semaphore::new(0);
    // Task 0 tries to take the unit and parks.
    assert!(!sem.down_step(&mut scheduler));
    assert_eq!(scheduler.tasks[0].state, TaskState::Blocked);
    assert_eq!(sem.waiting_tasks.len(), 1);
    // Task 1 runs and parks too.
    let picked = scheduler.schedule().expect("task 1 is ready");
    assert_eq!(picked, (0, 1));
    assert!(!sem.down_step(&mut scheduler));
    assert_eq!(scheduler.tasks[1].state, TaskState::Blocked);
    assert_eq!(sem.waiting_tasks.len(), 2);
    // Two ups wake the waiters oldest first.
    sem.up(&mut scheduler);
    assert_eq!(scheduler.tasks[0].state, TaskState::Ready);
    assert_eq!(scheduler.tasks[1].state, TaskState::Blocked);
    sem.up(&mut scheduler);
    assert_eq!(scheduler.tasks[1].state, TaskState::Ready);
    assert_eq!(sem.counter, 2);
    assert!(sem.waiting_tasks.is_empty());
}

#[test]
fn semaphore_mutual_exclusion_counts() {
    // Two tasks each do down; record; up a hundred times under a semaphore
    // of initial value one, with the timer interleaving them.
    let (mut scheduler, _mailboxes) = install_tasks(2);
    let mut sem = Semaphore::new(1);
    let mut output: Vec<char> = Vec::new();
    let mut remaining = [100u32, 100u32];
    let mut guard = 0u32;
    while (remaining[0] > 0 || remaining[1] > 0) && guard < 10_000 {
        guard += 1;
        let cur = scheduler.current_task;
        if remaining[cur] > 0 && sem.down_step(&mut scheduler) {
            output.push(if cur == 0 { 'A' } else { 'B' });
            remaining[cur] -= 1;
            sem.up(&mut scheduler);
        }
        // A tick preempts whoever ran.
        scheduler.schedule();
    }
    let a_count = output.iter().filter(|&&c| c == 'A').count();
    let b_count = output.iter().filter(|&&c| c == 'B').count();
    assert_eq!(a_count, 100);
    assert_eq!(b_count, 100);
}
