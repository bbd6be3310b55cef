//! The service registry: a name-to-task-id map populated before interrupts
//! are enabled, through which tasks look up their peers by short names.

use crate::task::TaskId;
use vstd::prelude::*;

verus! {

/// One registered service: a name and the task that owns it.
pub struct RegistryEntry {
    /// The service name.
    pub name: String,
    /// The task registered under that name.
    pub id: TaskId,
}

/// The name registry: an insert-only map from names to task ids.
pub struct NameRegistry {
    /// The registered services, in registration order.
    pub entries: Vec<RegistryEntry>,
}

impl NameRegistry {
    /// Well-formedness: no name is registered twice.
    pub open spec fn wf(self) -> bool {
        forall|i: int, j: int|
            0 <= i < self.entries@.len() && 0 <= j < self.entries@.len() && i != j
                ==> #[trigger] self.entries@[i].name@ != #[trigger] self.entries@[j].name@
    }

    /// Whether some task is registered under `name`.
    pub open spec fn contains_name(self, name: Seq<char>) -> bool {
        exists|i: int| 0 <= i < self.entries@.len() && #[trigger] self.entries@[i].name@ == name
    }

    /// The id registered under `name` (meaningful when one is).
    pub open spec fn id_of(self, name: Seq<char>) -> TaskId {
        self.entries@[choose|i: int|
            0 <= i < self.entries@.len() && #[trigger] self.entries@[i].name@ == name].id
    }

    /// Builds an empty registry.
    pub fn new() -> (r: NameRegistry)
        ensures
            r.entries@.len() == 0,
            forall|name: Seq<char>| !r.contains_name(name),
            r.wf(),
    {
        NameRegistry { entries: Vec::new() }
    }

    /// Registers `id` under `name`. Names are registered once, before
    /// interrupts are enabled; every earlier registration is kept.
    pub fn register(&mut self, name: String, id: TaskId)
        requires
            old(self).wf(),
            !old(self).contains_name(name@),
        ensures
            final(self).wf(),
            final(self).contains_name(name@),
            final(self).id_of(name@) == id,
            forall|other: Seq<char>|
                other != name@ ==> final(self).contains_name(other) == old(self).contains_name(
                    other,
                ),
            forall|other: Seq<char>|
                other != name@ && old(self).contains_name(other) ==> final(self).id_of(other)
                    == old(self).id_of(other),
    {
        self.entries.push(RegistryEntry { name, id });
        proof {
            let n = old(self).entries@.len() as int;
            assert(self.entries@[n].name@ == name@);
            assert(self.contains_name(name@));
            assert forall|i: int| 0 <= i < n implies self.entries@[i].name@ != name@ by {
                if old(self).entries@[i].name@ == name@ {
                    assert(old(self).contains_name(name@));
                }
            }
            let k = choose|k: int|
                0 <= k < self.entries@.len() && #[trigger] self.entries@[k].name@ == name@;
            assert(k == n);
            assert forall|other: Seq<char>| other != name@ implies self.contains_name(other) == old(
                self,
            ).contains_name(other) by {
                if old(self).contains_name(other) {
                    let k = choose|k: int|
                        0 <= k < old(self).entries@.len() && #[trigger] old(
                            self,
                        ).entries@[k].name@ == other;
                    assert(self.entries@[k].name@ == other);
                }
                if self.contains_name(other) {
                    let k = choose|k: int|
                        0 <= k < self.entries@.len() && #[trigger] self.entries@[k].name@ == other;
                    assert(k != n);
                    assert(old(self).entries@[k].name@ == other);
                }
            }
            assert forall|other: Seq<char>|
                other != name@ && old(self).contains_name(other) implies self.id_of(other) == old(
                self,
            ).id_of(other) by {
                let k_old = choose|k: int|
                    0 <= k < old(self).entries@.len() && #[trigger] old(self).entries@[k].name@
                        == other;
                let k_new = choose|k: int|
                    0 <= k < self.entries@.len() && #[trigger] self.entries@[k].name@ == other;
                assert(self.entries@[k_old].name@ == other);
                assert(k_new != n);
                assert(old(self).entries@[k_new].name@ == other);
                assert(k_old == k_new);
            }
        }
    }

    /// Looks up the task registered under `name`, if any.
    pub fn lookup(&self, name: &String) -> (r: Option<TaskId>)
        requires
            self.wf(),
        ensures
            match r {
                Some(id) => self.contains_name(name@) && id == self.id_of(name@),
                None => !self.contains_name(name@),
            },
    {
        let n = self.entries.len();
        let mut i: usize = 0;
        while i < n
            invariant
                0 <= i <= n,
                n == self.entries@.len(),
                self.wf(),
                forall|k: int| 0 <= k < i ==> #[trigger] self.entries@[k].name@ != name@,
            decreases n - i,
        {
            if self.entries[i].name == *name {
                proof {
                    assert(self.contains_name(name@));
                    let k = choose|k: int|
                        0 <= k < self.entries@.len() && #[trigger] self.entries@[k].name@ == name@;
                    assert(k == i);
                }
                return Some(self.entries[i].id);
            }
            i = i + 1;
        }
        None
    }
}

} // verus!
