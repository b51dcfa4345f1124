//! Missing access control: a privileged write that was accepted from a caller
//! without privileges.

use vstd::prelude::*;

use crate::collections::{SortedMap, SortedSet};
use crate::evm::oracles::{push_report, report};
use crate::evm::types::{EVMAddress, EVMU256};

verus! {

pub const ACCESS_CONTROL_BUG_IDX: u64 = 19;

/// Who may write, and what counts as a privileged write.
pub struct AccessControlState {
    /// Addresses seen as deployer or initial owner during setup.
    pub privileged_addrs: SortedSet<EVMAddress>,
    /// Storage slots considered administrative.
    pub sensitive_slots: SortedSet<EVMU256>,
}

impl Default for AccessControlState {
    fn default() -> (r: AccessControlState)
        ensures
            r.privileged_addrs@ == Set::<EVMAddress>::empty(),
            r.sensitive_slots@ == Set::<EVMU256>::empty(),
    {
        AccessControlState { privileged_addrs: SortedSet::new(), sensitive_slots: SortedSet::new() }
    }
}

impl Clone for AccessControlState {
    fn clone(&self) -> (r: AccessControlState)
        ensures
            r.privileged_addrs@ == self.privileged_addrs@,
            r.sensitive_slots@ == self.sensitive_slots@,
    {
        AccessControlState {
            privileged_addrs: self.privileged_addrs.clone(),
            sensitive_slots: self.sensitive_slots.clone(),
        }
    }
}

impl AccessControlState {
    pub fn new() -> (r: AccessControlState)
        ensures
            r.privileged_addrs@ == Set::<EVMAddress>::empty(),
            r.sensitive_slots@ == Set::<EVMU256>::empty(),
    {
        Self::default()
    }

    /// Gives `addr` privileges.
    pub fn add_privileged(&mut self, addr: EVMAddress)
        ensures
            final(self).privileged_addrs@ == old(self).privileged_addrs@.insert(addr),
            final(self).sensitive_slots@ == old(self).sensitive_slots@,
    {
        self.privileged_addrs.insert(addr);
    }

    /// Makes a write to `slot` a privileged one.
    pub fn add_sensitive_slot(&mut self, slot: EVMU256)
        ensures
            final(self).sensitive_slots@ == old(self).sensitive_slots@.insert(slot),
            final(self).privileged_addrs@ == old(self).privileged_addrs@,
    {
        self.sensitive_slots.insert(slot);
    }
}

/// The number in `slot`: zero where the storage has no entry.
pub open spec fn slot_value(storage: Map<EVMU256, EVMU256>, slot: EVMU256) -> nat {
    if storage.contains_key(slot) {
        storage[slot].value()
    } else {
        0
    }
}

/// Whether some slot of `slots` changed its value.
pub open spec fn some_slot_changed(
    slots: Set<EVMU256>,
    before: Map<EVMU256, EVMU256>,
    after: Map<EVMU256, EVMU256>,
) -> bool {
    exists|slot: EVMU256| #[trigger]
        slots.contains(slot) && slot_value(before, slot) != slot_value(after, slot)
}

fn read_slot(storage: &SortedMap<EVMU256, EVMU256>, slot: &EVMU256) -> (r: EVMU256)
    ensures
        r.value() == slot_value(storage@, *slot),
{
    match storage.get(slot) {
        Some(v) => *v,
        None => EVMU256::zero(),
    }
}

/// Reports privileged writes by callers without privileges.
pub struct AccessControlOracle {
    pub ac_state: AccessControlState,
}

impl AccessControlOracle {
    /// Whether `caller` has no privileges and some sensitive slot changed.
    pub open spec fn breached(
        self,
        caller: EVMAddress,
        before: Map<EVMU256, EVMU256>,
        after: Map<EVMU256, EVMU256>,
    ) -> bool {
        !self.ac_state.privileged_addrs@.contains(caller) && some_slot_changed(
            self.ac_state.sensitive_slots@,
            before,
            after,
        )
    }

    pub fn new(ac_state: AccessControlState) -> (r: AccessControlOracle)
        ensures
            r.ac_state == ac_state,
    {
        AccessControlOracle { ac_state }
    }

    /// Reports a bug where `caller` has no privileges and some sensitive slot
    /// changed its value.
    pub fn inspect(
        &self,
        caller: EVMAddress,
        slot_before: &SortedMap<EVMU256, EVMU256>,
        slot_after: &SortedMap<EVMU256, EVMU256>,
    ) -> (r: Vec<u64>)
        ensures
            r@ == report(
                self.breached(caller, slot_before@, slot_after@),
                ACCESS_CONTROL_BUG_IDX,
            ),
    {
        let mut bugs: Vec<u64> = Vec::new();
        if self.ac_state.privileged_addrs.contains(&caller) {
            return bugs;
        }
        let slots = &self.ac_state.sensitive_slots;
        let n: usize = slots.len();
        let mut i: usize = 0;
        let ghost s = slots.in_order();
        while i < n
            invariant
                i <= n == s.len(),
                s == slots.in_order(),
                *slots == self.ac_state.sensitive_slots,
                !self.ac_state.privileged_addrs@.contains(caller),
                bugs@ == Seq::<u64>::empty(),
                forall|j: int|
                    0 <= j < i ==> slot_value(slot_before@, #[trigger] s[j]) == slot_value(
                        slot_after@,
                        s[j],
                    ),
            decreases n - i,
        {
            let slot = slots.element_at(i);
            let before = read_slot(slot_before, &slot);
            let after = read_slot(slot_after, &slot);
            proof {
                before.lemma_order(after);
            }
            if before != after {
                assert(slots@.contains(slot));
                push_report(&mut bugs, true, ACCESS_CONTROL_BUG_IDX);
                return bugs;
            }
            i = i + 1;
        }
        assert(!some_slot_changed(slots@, slot_before@, slot_after@)) by {
            assert forall|slot: EVMU256| #[trigger] slots@.contains(slot) implies slot_value(
                slot_before@,
                slot,
            ) == slot_value(slot_after@, slot) by {
                let j = choose|j: int| 0 <= j < s.len() && #[trigger] s[j] == slot;
                assert(s[j] == slot);
            }
        }
        bugs
    }

    /// Reports a bug where a relay from `caller`, who has no privileges, made
    /// the queue grow.
    pub fn inspect_relay(&self, caller: EVMAddress, queue_grew: bool) -> (r: Vec<u64>)
        ensures
            r@ == report(
                queue_grew && !self.ac_state.privileged_addrs@.contains(caller),
                ACCESS_CONTROL_BUG_IDX,
            ),
    {
        let mut bugs: Vec<u64> = Vec::new();
        push_report(
            &mut bugs,
            queue_grew && !self.ac_state.privileged_addrs.contains(&caller),
            ACCESS_CONTROL_BUG_IDX,
        );
        bugs
    }
}

/// Nothing is reported of a caller with privileges, and nothing where the
/// storage stayed as it was.
pub proof fn law_breach_needs_stranger_and_change(
    oracle: AccessControlOracle,
    caller: EVMAddress,
    before: Map<EVMU256, EVMU256>,
    after: Map<EVMU256, EVMU256>,
)
    ensures
        oracle.ac_state.privileged_addrs@.contains(caller) ==> !oracle.breached(
            caller,
            before,
            after,
        ),
        !oracle.breached(caller, before, before),
{
}

/// A changed slot is reported of a stranger exactly where it is sensitive.
pub proof fn law_sensitive_change_is_reported(
    oracle: AccessControlOracle,
    caller: EVMAddress,
    before: Map<EVMU256, EVMU256>,
    slot: EVMU256,
    value: EVMU256,
)
    requires
        !oracle.ac_state.privileged_addrs@.contains(caller),
        value.value() != slot_value(before, slot),
    ensures
        oracle.breached(caller, before, before.insert(slot, value))
            == oracle.ac_state.sensitive_slots@.contains(slot),
{
    let after = before.insert(slot, value);
    let slots = oracle.ac_state.sensitive_slots@;
    if slots.contains(slot) {
        assert(slot_value(before, slot) != slot_value(after, slot));
    }
}

} // verus!
