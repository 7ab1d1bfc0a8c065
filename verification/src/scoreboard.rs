//! The scoreboard: the authoritative record of which logical registers have
//! in-flight writes and which functional-unit slots are occupied. It is the
//! gate for safe issue: an instruction may issue only when its sources and
//! destination are free of in-flight writes and a unit of its class is free.
//!
//! Each register carries two flags: "committed busy" (set by successful
//! issue, cleared only by that instruction's completion) and "predicted
//! busy" (advisory: set while an instruction blocked in the dispatch queue
//! will write the register once it issues). Register 0 is the hard-wired
//! zero register and is never marked busy under either flag.

use vstd::prelude::*;
use crate::instruction::Instruction;
use crate::instruction::UnitKind;
use crate::instruction::spec_unit_kind;
use crate::instruction::unit_kind;

verus! {

/// Number of logical registers tracked.
pub const NUM_REGS: usize = 32;

/// Per-register hazard flags and per-unit-slot busy flags.
pub struct Scoreboard {
    /// Committed busy: the register has an issued, uncompleted write.
    pub reg_busy: Vec<bool>,
    /// Predicted busy: a stalled queue entry will write the register.
    pub pending_busy: Vec<bool>,
    /// One busy flag per arithmetic-unit slot.
    pub alu_busy: Vec<bool>,
    /// One busy flag per branch-unit slot.
    pub bru_busy: Vec<bool>,
    /// Busy flag of the single load/store unit.
    pub lsu_busy: bool,
}

/// A vector of `n` cleared flags.
fn bool_vec(n: usize) -> (r: Vec<bool>)
    ensures
        r@.len() == n,
        forall|i: int| 0 <= i < n ==> !r@[i],
{
    let mut r: Vec<bool> = Vec::new();
    let mut i: usize = 0;
    while i < n
        invariant
            i <= n,
            r@.len() == i,
            forall|j: int| 0 <= j < i ==> !r@[j],
        decreases n - i,
    {
        r.push(false);
        i = i + 1;
    }
    r
}

impl Scoreboard {
    /// Both register-flag tables cover exactly the 32 logical registers,
    /// and register 0 is never busy under either flag.
    pub open spec fn wf(self) -> bool {
        &&& self.reg_busy@.len() == NUM_REGS
        &&& self.pending_busy@.len() == NUM_REGS
        &&& !self.reg_busy@[0]
        &&& !self.pending_busy@[0]
    }

    /// Whether issuing `i` would race with an in-flight write: a source
    /// read against a committed or predicted write (read-after-write), or a
    /// destination write against a committed write (write-after-write).
    /// Register 0 is exempt.
    pub open spec fn spec_can_issue(self, i: Instruction) -> bool
        recommends
            self.wf(),
            i.rs1 < NUM_REGS,
            i.rs2 < NUM_REGS,
            i.rd < NUM_REGS,
    {
        let rs1_busy = i.rs1 != 0 && (self.reg_busy@[i.rs1 as int] || self.pending_busy@[i.rs1 as int]);
        let rs2_busy = i.rs2 != 0 && (self.reg_busy@[i.rs2 as int] || self.pending_busy@[i.rs2 as int]);
        let rd_waw = i.rd != 0 && self.reg_busy@[i.rd as int];
        !(rs1_busy || rs2_busy || rd_waw)
    }

    /// Create an empty scoreboard for the given pool sizes: no register
    /// busy, every unit slot free.
    pub fn new(num_alus: usize, num_brus: usize) -> (r: Scoreboard)
        ensures
            r.wf(),
            r.reg_busy@.len() == NUM_REGS,
            r.pending_busy@.len() == NUM_REGS,
            r.alu_busy@.len() == num_alus,
            r.bru_busy@.len() == num_brus,
            forall|i: int| 0 <= i < NUM_REGS ==> !r.reg_busy@[i],
            forall|i: int| 0 <= i < NUM_REGS ==> !r.pending_busy@[i],
            forall|i: int| 0 <= i < num_alus ==> !r.alu_busy@[i],
            forall|i: int| 0 <= i < num_brus ==> !r.bru_busy@[i],
            !r.lsu_busy,
    {
        Scoreboard {
            reg_busy: bool_vec(NUM_REGS),
            pending_busy: bool_vec(NUM_REGS),
            alu_busy: bool_vec(num_alus),
            bru_busy: bool_vec(num_brus),
            lsu_busy: false,
        }
    }

    /// Check whether an instruction can be issued without a data hazard.
    pub fn can_issue(&self, instr: &Instruction) -> (r: bool)
        requires
            self.wf(),
            instr.rs1 < NUM_REGS,
            instr.rs2 < NUM_REGS,
            instr.rd < NUM_REGS,
        ensures
            r == self.spec_can_issue(*instr),
    {
        let rs1_busy = instr.rs1 != 0 && (self.reg_busy[instr.rs1 as usize]
            || self.pending_busy[instr.rs1 as usize]);
        let rs2_busy = instr.rs2 != 0 && (self.reg_busy[instr.rs2 as usize]
            || self.pending_busy[instr.rs2 as usize]);
        let rd_waw = instr.rd != 0 && self.reg_busy[instr.rd as usize];
        !(rs1_busy || rs2_busy || rd_waw)
    }

    /// Record a successful issue: mark the destination committed busy and
    /// clear any stale predicted-busy flag on it. Register 0 is never
    /// marked.
    pub fn mark_issue(&mut self, instr: &Instruction)
        requires
            old(self).wf(),
            instr.rd < NUM_REGS,
        ensures
            final(self).wf(),
            instr.rd != 0 ==> final(self).reg_busy@ == old(self).reg_busy@.update(
                instr.rd as int,
                true,
            ),
            instr.rd != 0 ==> final(self).pending_busy@ == old(self).pending_busy@.update(
                instr.rd as int,
                false,
            ),
            instr.rd == 0 ==> final(self).reg_busy@ == old(self).reg_busy@ && final(self).pending_busy@
                == old(self).pending_busy@,
            final(self).alu_busy@ == old(self).alu_busy@,
            final(self).bru_busy@ == old(self).bru_busy@,
            final(self).lsu_busy == old(self).lsu_busy,
    {
        if instr.rd != 0 {
            self.pending_busy.set(instr.rd as usize, false);
            self.reg_busy.set(instr.rd as usize, true);
        }
    }

    /// Record that a stalled queue entry will write its destination once it
    /// issues: mark the destination predicted busy. Register 0 is never
    /// marked.
    pub fn predict_issue(&mut self, instr: &Instruction)
        requires
            old(self).wf(),
            instr.rd < NUM_REGS,
        ensures
            final(self).wf(),
            instr.rd != 0 ==> final(self).pending_busy@ == old(self).pending_busy@.update(
                instr.rd as int,
                true,
            ),
            instr.rd == 0 ==> final(self).pending_busy@ == old(self).pending_busy@,
            final(self).reg_busy@ == old(self).reg_busy@,
            final(self).alu_busy@ == old(self).alu_busy@,
            final(self).bru_busy@ == old(self).bru_busy@,
            final(self).lsu_busy == old(self).lsu_busy,
    {
        if instr.rd != 0 {
            self.pending_busy.set(instr.rd as usize, true);
        }
    }

    /// Record a completed write-back: clear the destination's committed
    /// busy flag.
    pub fn mark_complete(&mut self, instr: &Instruction)
        requires
            old(self).wf(),
            instr.rd < NUM_REGS,
        ensures
            final(self).wf(),
            instr.rd != 0 ==> final(self).reg_busy@ == old(self).reg_busy@.update(
                instr.rd as int,
                false,
            ),
            instr.rd == 0 ==> final(self).reg_busy@ == old(self).reg_busy@,
            final(self).pending_busy@ == old(self).pending_busy@,
            final(self).alu_busy@ == old(self).alu_busy@,
            final(self).bru_busy@ == old(self).bru_busy@,
            final(self).lsu_busy == old(self).lsu_busy,
    {
        if instr.rd != 0 {
            self.reg_busy.set(instr.rd as usize, false);
        }
    }

    /// Index of the first free arithmetic-unit slot, if any.
    pub fn find_free_alu(&self) -> (r: Option<usize>)
        ensures
            match r {
                Some(i) => {
                    &&& i < self.alu_busy@.len()
                    &&& !self.alu_busy@[i as int]
                    &&& forall|j: int| 0 <= j < i ==> self.alu_busy@[j]
                },
                None => forall|j: int| 0 <= j < self.alu_busy@.len() ==> self.alu_busy@[j],
            },
    {
        let mut i: usize = 0;
        while i < self.alu_busy.len()
            invariant
                i <= self.alu_busy@.len(),
                forall|j: int| 0 <= j < i ==> self.alu_busy@[j],
            decreases self.alu_busy@.len() - i,
        {
            if !self.alu_busy[i] {
                return Some(i);
            }
            i = i + 1;
        }
        None
    }

    /// Index of the first free branch-unit slot, if any.
    pub fn find_free_bru(&self) -> (r: Option<usize>)
        ensures
            match r {
                Some(i) => {
                    &&& i < self.bru_busy@.len()
                    &&& !self.bru_busy@[i as int]
                    &&& forall|j: int| 0 <= j < i ==> self.bru_busy@[j]
                },
                None => forall|j: int| 0 <= j < self.bru_busy@.len() ==> self.bru_busy@[j],
            },
    {
        let mut i: usize = 0;
        while i < self.bru_busy.len()
            invariant
                i <= self.bru_busy@.len(),
                forall|j: int| 0 <= j < i ==> self.bru_busy@[j],
            decreases self.bru_busy@.len() - i,
        {
            if !self.bru_busy[i] {
                return Some(i);
            }
            i = i + 1;
        }
        None
    }

    /// Claim a free unit slot of the instruction's class, marking the first
    /// free slot busy. Returns false, changing nothing, when every slot of
    /// the class is busy or the class is unrecognized.
    pub fn allocate_unit(&mut self, instr: &Instruction) -> (r: bool)
        ensures
            final(self).reg_busy@ == old(self).reg_busy@,
            final(self).pending_busy@ == old(self).pending_busy@,
            old(self).wf() ==> final(self).wf(),
            spec_unit_kind(instr.opcode) == UnitKind::Alu ==> {
                &&& final(self).bru_busy@ == old(self).bru_busy@
                &&& final(self).lsu_busy == old(self).lsu_busy
                &&& if r {
                    exists|i: int|
                        {
                            &&& 0 <= i < old(self).alu_busy@.len()
                            &&& !old(self).alu_busy@[i]
                            &&& (forall|j: int| 0 <= j < i ==> old(self).alu_busy@[j])
                            &&& final(self).alu_busy@ == old(self).alu_busy@.update(i, true)
                        }
                } else {
                    &&& (forall|j: int|
                        0 <= j < old(self).alu_busy@.len() ==> old(self).alu_busy@[j])
                    &&& final(self).alu_busy@ == old(self).alu_busy@
                }
            },
            spec_unit_kind(instr.opcode) == UnitKind::Branch ==> {
                &&& final(self).alu_busy@ == old(self).alu_busy@
                &&& final(self).lsu_busy == old(self).lsu_busy
                &&& if r {
                    exists|i: int|
                        {
                            &&& 0 <= i < old(self).bru_busy@.len()
                            &&& !old(self).bru_busy@[i]
                            &&& (forall|j: int| 0 <= j < i ==> old(self).bru_busy@[j])
                            &&& final(self).bru_busy@ == old(self).bru_busy@.update(i, true)
                        }
                } else {
                    &&& (forall|j: int|
                        0 <= j < old(self).bru_busy@.len() ==> old(self).bru_busy@[j])
                    &&& final(self).bru_busy@ == old(self).bru_busy@
                }
            },
            spec_unit_kind(instr.opcode) == UnitKind::LoadStore ==> {
                &&& final(self).alu_busy@ == old(self).alu_busy@
                &&& final(self).bru_busy@ == old(self).bru_busy@
                &&& r == !old(self).lsu_busy
                &&& final(self).lsu_busy
            },
            spec_unit_kind(instr.opcode) == UnitKind::Unrecognized ==> {
                &&& !r
                &&& final(self).alu_busy@ == old(self).alu_busy@
                &&& final(self).bru_busy@ == old(self).bru_busy@
                &&& final(self).lsu_busy == old(self).lsu_busy
            },
    {
        match unit_kind(instr.opcode) {
            UnitKind::Alu => {
                match self.find_free_alu() {
                    Some(i) => {
                        self.alu_busy.set(i, true);
                        true
                    },
                    None => false,
                }
            },
            UnitKind::Branch => {
                match self.find_free_bru() {
                    Some(i) => {
                        self.bru_busy.set(i, true);
                        true
                    },
                    None => false,
                }
            },
            UnitKind::LoadStore => {
                if !self.lsu_busy {
                    self.lsu_busy = true;
                    true
                } else {
                    false
                }
            },
            UnitKind::Unrecognized => false,
        }
    }

    /// Release a unit slot of the instruction's class after its execution
    /// completes, clearing the first busy slot. A release with every slot
    /// of the class already free, or with an unrecognized class, changes
    /// nothing.
    pub fn release_unit(&mut self, instr: &Instruction)
        ensures
            final(self).reg_busy@ == old(self).reg_busy@,
            final(self).pending_busy@ == old(self).pending_busy@,
            old(self).wf() ==> final(self).wf(),
            spec_unit_kind(instr.opcode) == UnitKind::Alu ==> {
                &&& final(self).bru_busy@ == old(self).bru_busy@
                &&& final(self).lsu_busy == old(self).lsu_busy
                &&& if exists|i: int| 0 <= i < old(self).alu_busy@.len() && old(self).alu_busy@[i] {
                    exists|i: int|
                        {
                            &&& 0 <= i < old(self).alu_busy@.len()
                            &&& old(self).alu_busy@[i]
                            &&& (forall|j: int| 0 <= j < i ==> !old(self).alu_busy@[j])
                            &&& final(self).alu_busy@ == old(self).alu_busy@.update(i, false)
                        }
                } else {
                    final(self).alu_busy@ == old(self).alu_busy@
                }
            },
            spec_unit_kind(instr.opcode) == UnitKind::Branch ==> {
                &&& final(self).alu_busy@ == old(self).alu_busy@
                &&& final(self).lsu_busy == old(self).lsu_busy
                &&& if exists|i: int| 0 <= i < old(self).bru_busy@.len() && old(self).bru_busy@[i] {
                    exists|i: int|
                        {
                            &&& 0 <= i < old(self).bru_busy@.len()
                            &&& old(self).bru_busy@[i]
                            &&& (forall|j: int| 0 <= j < i ==> !old(self).bru_busy@[j])
                            &&& final(self).bru_busy@ == old(self).bru_busy@.update(i, false)
                        }
                } else {
                    final(self).bru_busy@ == old(self).bru_busy@
                }
            },
            spec_unit_kind(instr.opcode) == UnitKind::LoadStore ==> {
                &&& final(self).alu_busy@ == old(self).alu_busy@
                &&& final(self).bru_busy@ == old(self).bru_busy@
                &&& !final(self).lsu_busy
            },
            spec_unit_kind(instr.opcode) == UnitKind::Unrecognized ==> {
                &&& final(self).alu_busy@ == old(self).alu_busy@
                &&& final(self).bru_busy@ == old(self).bru_busy@
                &&& final(self).lsu_busy == old(self).lsu_busy
            },
    {
        match unit_kind(instr.opcode) {
            UnitKind::Alu => {
                let mut i: usize = 0;
                while i < self.alu_busy.len()
                    invariant
                        spec_unit_kind(instr.opcode) == UnitKind::Alu,
                        i <= self.alu_busy@.len(),
                        forall|j: int| 0 <= j < i ==> !self.alu_busy@[j],
                        self.reg_busy@ == old(self).reg_busy@,
                        self.pending_busy@ == old(self).pending_busy@,
                        self.alu_busy@ == old(self).alu_busy@,
                        self.bru_busy@ == old(self).bru_busy@,
                        self.lsu_busy == old(self).lsu_busy,
                        old(self).wf() ==> self.wf(),
                    decreases self.alu_busy@.len() - i,
                {
                    if self.alu_busy[i] {
                        let ghost w: int = i as int;
                        self.alu_busy.set(i, false);
                        proof {
                            assert(0 <= w < old(self).alu_busy@.len());
                            assert(old(self).alu_busy@[w]);
                            assert(forall|j: int| 0 <= j < w ==> !old(self).alu_busy@[j]);
                            assert(self.alu_busy@ =~= old(self).alu_busy@.update(w, false));
                        }
                        return ;
                    }
                    i = i + 1;
                }
            },
            UnitKind::Branch => {
                let mut i: usize = 0;
                while i < self.bru_busy.len()
                    invariant
                        spec_unit_kind(instr.opcode) == UnitKind::Branch,
                        i <= self.bru_busy@.len(),
                        forall|j: int| 0 <= j < i ==> !self.bru_busy@[j],
                        self.reg_busy@ == old(self).reg_busy@,
                        self.pending_busy@ == old(self).pending_busy@,
                        self.alu_busy@ == old(self).alu_busy@,
                        self.bru_busy@ == old(self).bru_busy@,
                        self.lsu_busy == old(self).lsu_busy,
                        old(self).wf() ==> self.wf(),
                    decreases self.bru_busy@.len() - i,
                {
                    if self.bru_busy[i] {
                        let ghost w: int = i as int;
                        self.bru_busy.set(i, false);
                        proof {
                            assert(0 <= w < old(self).bru_busy@.len());
                            assert(old(self).bru_busy@[w]);
                            assert(forall|j: int| 0 <= j < w ==> !old(self).bru_busy@[j]);
                            assert(self.bru_busy@ =~= old(self).bru_busy@.update(w, false));
                        }
                        return ;
                    }
                    i = i + 1;
                }
            },
            UnitKind::LoadStore => {
                self.lsu_busy = false;
            },
            UnitKind::Unrecognized => {},
        }
    }
}

} // verus!
