//! Interrupt dispatch glue for the timer tick that drives preemption: the
//! hardware vector numbers and the decision the tick handler takes. Loading
//! the descriptor table and acknowledging the interrupt controller are
//! hardware work done outside this crate; the handler's scheduling decision
//! and register swap are modeled and proved here.

use crate::task::{rr_apply, rr_pick, Scheduler, TaskContext};
use vstd::prelude::*;

verus! {

/// The vector base the primary interrupt controller is remapped to.
pub const PIC_1_OFFSET: u8 = 32;

/// The vector base of the secondary interrupt controller.
pub const PIC_2_OFFSET: u8 = PIC_1_OFFSET + 8;

/// The hardware interrupt vectors the kernel services.
#[derive(Debug, Clone, Copy, PartialEq, Eq, Structural)]
pub enum InterruptIndex {
    /// The timer interrupt, the sole preemption source.
    Timer,
    /// The keyboard interrupt.
    Keyboard,
}

impl InterruptIndex {
    /// The vector number of this interrupt: the timer sits at the remapped
    /// base, the keyboard one above it.
    pub fn as_u8(self) -> (v: u8)
        ensures
            self is Timer ==> v == PIC_1_OFFSET,
            self is Keyboard ==> v == PIC_1_OFFSET + 1,
    {
        match self {
            InterruptIndex::Timer => PIC_1_OFFSET,
            InterruptIndex::Keyboard => PIC_1_OFFSET + 1,
        }
    }

    /// The vector number widened for use as a table index.
    pub fn as_usize(self) -> (v: usize)
        ensures
            self is Timer ==> v == PIC_1_OFFSET,
            self is Keyboard ==> v == PIC_1_OFFSET + 1,
    {
        self.as_u8() as usize
    }
}

/// The decision the timer tick takes once the interrupt controller has been
/// acknowledged: ask the scheduler for the next `Ready` task and, when one
/// is found, swap the live register file `cpu` with the two stored
/// contexts — the outgoing slot receives the live set, the incoming slot's
/// set becomes live. Returns whether a switch took place; with no other
/// `Ready` task the tick changes nothing.
pub fn timer_tick(scheduler: &mut Scheduler, cpu: &mut TaskContext) -> (switched: bool)
    requires
        old(scheduler).wf(),
        old(scheduler).tasks@.len() >= 1,
    ensures
        final(scheduler).wf(),
        switched == (rr_pick(old(scheduler).tasks@, old(scheduler).current_index()) is Some),
        !switched ==> *final(scheduler) == *old(scheduler) && *final(cpu) == *old(cpu),
        switched ==> ({
            let c = old(scheduler).current_index();
            let j = rr_pick(old(scheduler).tasks@, c)->Some_0;
            let swapped = rr_apply(old(scheduler).tasks@, c, j);
            &&& final(scheduler).current_index() == j
            &&& final(scheduler).tasks@ == swapped.update(
                c,
                (crate::task::Task { context: *old(cpu), ..swapped[c] }),
            )
            &&& *final(cpu) == final(scheduler).tasks@[j].context
        }),
{
    let picked = scheduler.schedule();
    match picked {
        None => false,
        Some((c, j)) => {
            // The same store-then-load order as the save/restore routine:
            // with a single task the incoming slot is the outgoing slot,
            // and the load then returns the register file just saved.
            scheduler.tasks[c].context = *cpu;
            *cpu = scheduler.tasks[j].context;
            proof {
                let swapped = rr_apply(old(scheduler).tasks@, c as int, j as int);
                assert(scheduler.tasks@ =~= swapped.update(
                    c as int,
                    (crate::task::Task { context: *old(cpu), ..swapped[c as int] }),
                ));
            }
            true
        },
    }
}

} // verus!
