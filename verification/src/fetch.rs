//! The fetch stage: several independent program-counter lanes, seeded at
//! evenly spaced addresses, each with at most one in-flight memory read.
//! Every tick a lane without a pending read issues one; a lane with a
//! pending read polls it, and on completion pushes the fetched word into
//! the shared instruction buffer (a push against a full buffer is dropped,
//! stalling that lane's throughput without corrupting state) and advances
//! its counter by one full stride so lanes cover disjoint addresses. A
//! memory stall on one lane never blocks another.

use vstd::prelude::*;
use crate::instruction::InstructionBuffer;
use crate::instruction::RawInstruction;
use crate::io::Poll;
use crate::memory::Itcm;
use crate::memory::ItcmRead;

verus! {

/// Number of independent fetch lanes.
pub const NUM_LANES: usize = 4;

/// Byte stride each lane advances by per completed read: one word per lane.
pub const LANE_STRIDE: u32 = 16;

/// The fetch stage: one program counter and at most one in-flight read per
/// lane.
pub struct FetchStage {
    pub pcs: Vec<u32>,
    pub pending_reads: Vec<Option<ItcmRead>>,
}

/// A lane's program counter after one tick: it advances by the lane
/// stride, wrapping on 32 bits, exactly when the lane's pending read
/// completes this tick.
pub open spec fn spec_lane_pc(pc: u32, pr: Option<ItcmRead>) -> u32 {
    match pr {
        Some(r) => if r.remaining_cycles == 0 {
            if pc + LANE_STRIDE > u32::MAX {
                (pc + LANE_STRIDE - 0x100000000) as u32
            } else {
                (pc + LANE_STRIDE) as u32
            }
        } else {
            pc
        },
        None => pc,
    }
}

/// A lane's pending read after one tick: a lane with none issues one at
/// its program counter; a positive countdown is decremented; a completed
/// read is consumed.
pub open spec fn spec_lane_pending(pc: u32, pr: Option<ItcmRead>, itcm: Itcm) -> Option<ItcmRead> {
    match pr {
        None => Some(
            ItcmRead {
                addr: pc,
                remaining_cycles: if itcm.spec_latency() > 0 {
                    (itcm.spec_latency() - 1) as u8
                } else {
                    0u8
                },
            },
        ),
        Some(r) => if r.remaining_cycles > 0 {
            Some(ItcmRead { addr: r.addr, remaining_cycles: (r.remaining_cycles - 1) as u8 })
        } else {
            None
        },
    }
}

/// The word a lane delivers this tick: the word its read targets, exactly
/// when that read completes.
pub open spec fn spec_lane_word(pr: Option<ItcmRead>, itcm: Itcm) -> Option<RawInstruction> {
    match pr {
        Some(r) => if r.remaining_cycles == 0 {
            Some(itcm.spec_word_at(r.addr))
        } else {
            None
        },
        None => None,
    }
}

/// A capacity-bounded push of an optional word: a full buffer drops it.
pub open spec fn spec_buf_push(q: Seq<RawInstruction>, cap: int, w: Option<RawInstruction>) -> Seq<
    RawInstruction,
> {
    match w {
        Some(x) => if q.len() < cap {
            q.push(x)
        } else {
            q
        },
        None => q,
    }
}

/// The instruction buffer contents after the first `k` lanes have pushed
/// their delivered words, in lane order.
pub open spec fn spec_fetch_buf(
    q: Seq<RawInstruction>,
    cap: int,
    pending: Seq<Option<ItcmRead>>,
    itcm: Itcm,
    k: int,
) -> Seq<RawInstruction>
    decreases k,
{
    if k <= 0 {
        q
    } else {
        spec_buf_push(
            spec_fetch_buf(q, cap, pending, itcm, k - 1),
            cap,
            spec_lane_word(pending[k - 1], itcm),
        )
    }
}

impl FetchStage {
    /// One counter and one read slot per lane, every counter word-aligned.
    pub open spec fn wf(self) -> bool {
        &&& self.pcs@.len() == NUM_LANES
        &&& self.pending_reads@.len() == NUM_LANES
        &&& forall|lane: int| 0 <= lane < NUM_LANES ==> (#[trigger] self.pcs@[lane]) % 4 == 0
    }

    /// Create a fetch stage with lanes seeded at distinct, evenly spaced
    /// word addresses and no read in flight.
    pub fn new() -> (r: FetchStage)
        ensures
            r.wf(),
            r.pcs@.len() == NUM_LANES,
            r.pending_reads@.len() == NUM_LANES,
            forall|lane: int| 0 <= lane < NUM_LANES ==> r.pcs@[lane] == 4 * lane,
            forall|lane: int| 0 <= lane < NUM_LANES ==> r.pending_reads@[lane] is None,
    {
        let pcs: Vec<u32> = vec![0, 4, 8, 12];
        let pending_reads: Vec<Option<ItcmRead>> = vec![None, None, None, None];
        FetchStage { pcs, pending_reads }
    }

    /// One cycle of fetch: for each lane in order, issue a read if none is
    /// pending, else poll the pending read; completed reads push their
    /// word into the instruction buffer and advance the lane's counter by
    /// the lane stride.
    pub fn tick(&mut self, instr_buffer: &mut InstructionBuffer, itcm: &Itcm)
        requires
            old(self).wf(),
            old(instr_buffer).wf(),
        ensures
            final(self).wf(),
            final(instr_buffer).wf(),
            final(instr_buffer).capacity == old(instr_buffer).capacity,
            forall|lane: int|
                0 <= lane < NUM_LANES ==> final(self).pcs@[lane] == spec_lane_pc(
                    old(self).pcs@[lane],
                    old(self).pending_reads@[lane],
                ),
            forall|lane: int|
                0 <= lane < NUM_LANES ==> final(self).pending_reads@[lane] == spec_lane_pending(
                    old(self).pcs@[lane],
                    old(self).pending_reads@[lane],
                    *itcm,
                ),
            final(instr_buffer).queue@ == spec_fetch_buf(
                old(instr_buffer).queue@,
                old(instr_buffer).capacity as int,
                old(self).pending_reads@,
                *itcm,
                NUM_LANES as int,
            ),
    {
        let mut lane: usize = 0;
        while lane < NUM_LANES
            invariant
                lane <= NUM_LANES,
                self.pcs@.len() == NUM_LANES,
                self.pending_reads@.len() == NUM_LANES,
                instr_buffer.capacity == old(instr_buffer).capacity,
                old(instr_buffer).wf(),
                instr_buffer.wf(),
                old(self).wf(),
                forall|j: int|
                    lane <= j < NUM_LANES ==> self.pcs@[j] == old(self).pcs@[j]
                        && self.pending_reads@[j] == old(self).pending_reads@[j],
                forall|j: int|
                    0 <= j < lane ==> self.pcs@[j] == spec_lane_pc(
                        old(self).pcs@[j],
                        old(self).pending_reads@[j],
                    ) && self.pending_reads@[j] == spec_lane_pending(
                        old(self).pcs@[j],
                        old(self).pending_reads@[j],
                        *itcm,
                    ),
                forall|j: int| 0 <= j < NUM_LANES ==> (#[trigger] self.pcs@[j]) % 4 == 0,
                instr_buffer.queue@ == spec_fetch_buf(
                    old(instr_buffer).queue@,
                    old(instr_buffer).capacity as int,
                    old(self).pending_reads@,
                    *itcm,
                    lane as int,
                ),
            decreases NUM_LANES - lane,
        {
            let pr: Option<ItcmRead> = self.pending_reads[lane];
            match pr {
                None => {
                    let rd: ItcmRead = itcm.read(self.pcs[lane]);
                    self.pending_reads.set(lane, Some(rd));
                },
                Some(r) => {
                    let mut r2: ItcmRead = r;
                    match r2.poll(itcm) {
                        Poll::Ready(word) => {
                            self.pending_reads.set(lane, None);
                            instr_buffer.push(word);
                            let pc: u32 = self.pcs[lane];
                            self.pcs.set(lane, pc.wrapping_add(LANE_STRIDE));
                        },
                        Poll::Pending => {
                            self.pending_reads.set(lane, Some(r2));
                        },
                    }
                },
            }
            lane = lane + 1;
        }
    }
}

} // verus!
