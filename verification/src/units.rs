//! Execution units: each is a one-slot pipeline with a fixed latency. Issue
//! occupies the slot and starts a countdown; one tick per cycle decrements
//! the countdown, and the held instruction is surrendered on the tick the
//! countdown has already reached zero — so a freshly issued instruction
//! completes on the second tick after a two-cycle-latency issue.

use vstd::prelude::*;
use crate::instruction::Instruction;

verus! {

/// Fixed execution latency of every unit kind, in cycles.
pub const UNIT_LATENCY: u8 = 2;

/// An arithmetic unit: a one-slot fixed-latency pipeline.
#[derive(Copy, Clone)]
pub struct AluUnit {
    pub busy: bool,
    pub remaining: u8,
    pub current: Option<Instruction>,
}

impl AluUnit {
    /// The slot holds an instruction exactly while the unit is busy.
    pub open spec fn wf(self) -> bool {
        self.busy <==> self.current is Some
    }

    /// Create a free unit.
    pub fn new() -> (r: AluUnit)
        ensures
            !r.busy,
            r.remaining == 0,
            r.current is None,
            r.wf(),
    {
        AluUnit { busy: false, remaining: 0, current: None }
    }

    /// Occupy the free slot with an instruction and start its latency
    /// countdown. The caller must have verified that the slot is free.
    pub fn issue(&mut self, instr: Instruction)
        requires
            !old(self).busy,
        ensures
            final(self).busy,
            final(self).remaining == UNIT_LATENCY - 1,
            final(self).current == Some(instr),
            final(self).wf(),
    {
        self.busy = true;
        self.remaining = UNIT_LATENCY - 1;
        self.current = Some(instr);
    }

    /// Advance the unit one cycle: decrement a positive countdown, and
    /// surrender the held instruction once the countdown has reached zero,
    /// freeing the slot. A free unit does nothing.
    pub fn tick(&mut self) -> (r: Option<Instruction>)
        ensures
            !old(self).busy ==> r is None && *final(self) == *old(self),
            old(self).busy && old(self).remaining > 0 ==> {
                &&& r is None
                &&& final(self).busy
                &&& final(self).remaining == old(self).remaining - 1
                &&& final(self).current == old(self).current
            },
            old(self).busy && old(self).remaining == 0 ==> {
                &&& r == old(self).current
                &&& !final(self).busy
                &&& final(self).remaining == 0
                &&& final(self).current is None
            },
            old(self).wf() ==> final(self).wf(),
    {
        if self.busy {
            if self.remaining > 0 {
                self.remaining = self.remaining - 1;
                None
            } else {
                self.busy = false;
                self.current.take()
            }
        } else {
            None
        }
    }
}

/// A branch unit: a one-slot fixed-latency pipeline.
#[derive(Copy, Clone)]
pub struct BruUnit {
    pub busy: bool,
    pub remaining: u8,
    pub current: Option<Instruction>,
}

impl BruUnit {
    /// The slot holds an instruction exactly while the unit is busy.
    pub open spec fn wf(self) -> bool {
        self.busy <==> self.current is Some
    }

    /// Create a free unit.
    pub fn new() -> (r: BruUnit)
        ensures
            !r.busy,
            r.remaining == 0,
            r.current is None,
            r.wf(),
    {
        BruUnit { busy: false, remaining: 0, current: None }
    }

    /// Occupy the free slot with an instruction and start its latency
    /// countdown. The caller must have verified that the slot is free.
    pub fn issue(&mut self, instr: Instruction)
        requires
            !old(self).busy,
        ensures
            final(self).busy,
            final(self).remaining == UNIT_LATENCY - 1,
            final(self).current == Some(instr),
            final(self).wf(),
    {
        self.busy = true;
        self.remaining = UNIT_LATENCY - 1;
        self.current = Some(instr);
    }

    /// Advance the unit one cycle: decrement a positive countdown, and
    /// surrender the held instruction once the countdown has reached zero,
    /// freeing the slot. A free unit does nothing.
    pub fn tick(&mut self) -> (r: Option<Instruction>)
        ensures
            !old(self).busy ==> r is None && *final(self) == *old(self),
            old(self).busy && old(self).remaining > 0 ==> {
                &&& r is None
                &&& final(self).busy
                &&& final(self).remaining == old(self).remaining - 1
                &&& final(self).current == old(self).current
            },
            old(self).busy && old(self).remaining == 0 ==> {
                &&& r == old(self).current
                &&& !final(self).busy
                &&& final(self).remaining == 0
                &&& final(self).current is None
            },
            old(self).wf() ==> final(self).wf(),
    {
        if self.busy {
            if self.remaining > 0 {
                self.remaining = self.remaining - 1;
                None
            } else {
                self.busy = false;
                self.current.take()
            }
        } else {
            None
        }
    }
}

/// The load/store unit: a one-slot fixed-latency pipeline; load and store
/// forms share it. Only timing is modeled, no data movement.
#[derive(Copy, Clone)]
pub struct LsuUnit {
    pub busy: bool,
    pub remaining: u8,
    pub current: Option<Instruction>,
}

impl LsuUnit {
    /// The slot holds an instruction exactly while the unit is busy.
    pub open spec fn wf(self) -> bool {
        self.busy <==> self.current is Some
    }

    /// Create a free unit.
    pub fn new() -> (r: LsuUnit)
        ensures
            !r.busy,
            r.remaining == 0,
            r.current is None,
            r.wf(),
    {
        LsuUnit { busy: false, remaining: 0, current: None }
    }

    /// Occupy the free slot with an instruction and start its latency
    /// countdown. The caller must have verified that the slot is free.
    pub fn issue(&mut self, instr: Instruction)
        requires
            !old(self).busy,
        ensures
            final(self).busy,
            final(self).remaining == UNIT_LATENCY - 1,
            final(self).current == Some(instr),
            final(self).wf(),
    {
        self.busy = true;
        self.remaining = UNIT_LATENCY - 1;
        self.current = Some(instr);
    }

    /// Advance the unit one cycle: decrement a positive countdown, and
    /// surrender the held instruction once the countdown has reached zero,
    /// freeing the slot. A free unit does nothing.
    pub fn tick(&mut self) -> (r: Option<Instruction>)
        ensures
            !old(self).busy ==> r is None && *final(self) == *old(self),
            old(self).busy && old(self).remaining > 0 ==> {
                &&& r is None
                &&& final(self).busy
                &&& final(self).remaining == old(self).remaining - 1
                &&& final(self).current == old(self).current
            },
            old(self).busy && old(self).remaining == 0 ==> {
                &&& r == old(self).current
                &&& !final(self).busy
                &&& final(self).remaining == 0
                &&& final(self).current is None
            },
            old(self).wf() ==> final(self).wf(),
    {
        if self.busy {
            if self.remaining > 0 {
                self.remaining = self.remaining - 1;
                None
            } else {
                self.busy = false;
                self.current.take()
            }
        } else {
            None
        }
    }
}

} // verus!
