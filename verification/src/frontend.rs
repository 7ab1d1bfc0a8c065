//! The pipeline orchestrator: fetch, decode, and dispatch composed into a
//! single cycle step. Each tick advances the stages in fixed order —
//! fetch, then decode, then dispatch (completion before issue) — so a
//! later stage observes the state an earlier stage produced this same
//! tick, deterministically and single-threaded.

use vstd::prelude::*;
use vstd::math::min;
use crate::decode::DECODE_WIDTH;
use crate::decode::DecodeStage;
use crate::decode::lemma_decode_push_entries;
use crate::decode::spec_decode_push;
use crate::dispatch::DispatchModel;
use crate::dispatch::DispatchStage;
use crate::dispatch::in_flight;
use crate::dispatch::inv;
use crate::dispatch::spec_dispatch_tick;
use crate::dispatch::unique_writers;
use crate::fetch::FetchStage;
use crate::fetch::NUM_LANES;
use crate::fetch::spec_fetch_buf;
use crate::fetch::spec_lane_pc;
use crate::fetch::spec_lane_pending;
use crate::instruction::InstructionBuffer;
use crate::memory::Itcm;

verus! {

/// The scalar frontend: the fetch, decode, and dispatch stages with the
/// instruction buffer and instruction memory they share.
pub struct ScalarFrontend {
    pub fetch: FetchStage,
    pub decode: DecodeStage,
    pub dispatch: DispatchStage,
    pub instr_buffer: InstructionBuffer,
    pub itcm: Itcm,
}

impl ScalarFrontend {
    /// Every stage well-formed.
    pub open spec fn wf(self) -> bool {
        &&& self.fetch.wf()
        &&& self.decode.wf()
        &&& self.dispatch.wf()
        &&& self.instr_buffer.wf()
    }

    /// Create a frontend around the given instruction memory: a 4-entry
    /// instruction buffer, 4 fetch lanes, 4 decode lanes, an 8-entry
    /// dispatch queue, 4 arithmetic units, 4 branch units, one load/store
    /// unit, and an issue width of 4.
    /// A freshly constructed pipeline around the given memory: every stage
    /// in its initial state, nothing buffered, nothing in flight.
    pub open spec fn spec_initial(r: ScalarFrontend, itcm: Itcm) -> bool {
        &&& r.wf()
        &&& r.itcm == itcm
        &&& r.instr_buffer.queue@ == Seq::<crate::instruction::RawInstruction>::empty()
        &&& r.instr_buffer.capacity == 4
        &&& r.decode.lanes@ == Seq::<crate::instruction::RawInstruction>::empty()
        &&& r.fetch.pcs@.len() == NUM_LANES
        &&& r.fetch.pending_reads@.len() == NUM_LANES
        &&& (forall|lane: int| 0 <= lane < NUM_LANES ==> r.fetch.pcs@[lane] == 4 * lane)
        &&& (forall|lane: int| 0 <= lane < NUM_LANES ==> r.fetch.pending_reads@[lane] is None)
        &&& r.dispatch@.queue == Seq::<crate::instruction::Instruction>::empty()
        &&& r.dispatch@.queue_capacity == 8
        &&& r.dispatch@.issue_width == 4
        &&& r.dispatch@.alus.len() == 4
        &&& r.dispatch@.brus.len() == 4
        &&& (forall|k: int| 0 <= k < 4 ==> !r.dispatch@.alus[k].busy)
        &&& (forall|k: int| 0 <= k < 4 ==> !r.dispatch@.brus[k].busy)
        &&& !r.dispatch@.lsu.busy
        &&& (forall|j: int|
            0 <= j < crate::scoreboard::NUM_REGS ==> !r.dispatch@.reg[j] && !r.dispatch@.pending[j])
    }

    pub fn with_itcm(itcm: Itcm) -> (r: ScalarFrontend)
        ensures
            ScalarFrontend::spec_initial(r, itcm),
    {
        ScalarFrontend {
            fetch: FetchStage::new(),
            decode: DecodeStage::new(),
            dispatch: DispatchStage::new(),
            instr_buffer: InstructionBuffer::new(4),
            itcm,
        }
    }

    /// Create a frontend whose instruction memory holds the demonstration
    /// program, with a single-cycle memory latency; every stage starts in
    /// its initial state — nothing buffered, nothing in flight, every unit
    /// free.
    pub fn new() -> (r: ScalarFrontend)
        ensures
            ScalarFrontend::spec_initial(r, r.itcm),
            r.itcm@.len() == crate::memory::ITCM_WORDS,
            forall|i: int|
                0 <= i < crate::memory::ITCM_WORDS ==> r.itcm@[i].data
                    == crate::memory::spec_demo_word(i),
            r.itcm.spec_latency() == 1,
    {
        ScalarFrontend::with_itcm(Itcm::new(1))
    }

    /// Advance the whole pipeline by one cycle: fetch polls its lanes and
    /// feeds the instruction buffer; decode moves buffered words, decoded,
    /// onto the dispatch queue under backpressure; dispatch completes
    /// finished instructions and then issues from the queue in program
    /// order, gated by the scoreboard.
    pub fn tick(&mut self)
        requires
            old(self).wf(),
        ensures
            final(self).wf(),
            final(self).itcm == old(self).itcm,
            ({
                let b1 = spec_fetch_buf(
                    old(self).instr_buffer.queue@,
                    old(self).instr_buffer.capacity as int,
                    old(self).fetch.pending_reads@,
                    old(self).itcm,
                    NUM_LANES as int,
                );
                let k = min((DECODE_WIDTH - old(self).decode.lanes@.len()) as int, b1.len() as int);
                let filled = old(self).decode.lanes@ + b1.take(k);
                let (lanes2, q2) = spec_decode_push(
                    filled,
                    old(self).dispatch@.queue,
                    old(self).dispatch@.queue_capacity,
                );
                &&& final(self).instr_buffer.capacity == old(self).instr_buffer.capacity
                &&& final(self).instr_buffer.queue@ == b1.skip(k)
                &&& (forall|lane: int|
                    0 <= lane < NUM_LANES ==> final(self).fetch.pcs@[lane] == spec_lane_pc(
                        old(self).fetch.pcs@[lane],
                        old(self).fetch.pending_reads@[lane],
                    ))
                &&& (forall|lane: int|
                    0 <= lane < NUM_LANES ==> final(self).fetch.pending_reads@[lane]
                        == spec_lane_pending(
                        old(self).fetch.pcs@[lane],
                        old(self).fetch.pending_reads@[lane],
                        old(self).itcm,
                    ))
                &&& final(self).decode.lanes@ == lanes2
                &&& final(self).dispatch@ == spec_dispatch_tick(
                    DispatchModel { queue: q2, ..old(self).dispatch@ },
                )
            }),
    {
        self.fetch.tick(&mut self.instr_buffer, &self.itcm);
        self.decode.tick(&mut self.instr_buffer, &mut self.dispatch.queue);
        proof {
            let vold = old(self).dispatch@;
            let vmid = self.dispatch@;
            let b1 = spec_fetch_buf(
                old(self).instr_buffer.queue@,
                old(self).instr_buffer.capacity as int,
                old(self).fetch.pending_reads@,
                old(self).itcm,
                NUM_LANES as int,
            );
            let k = min((DECODE_WIDTH - old(self).decode.lanes@.len()) as int, b1.len() as int);
            let filled = old(self).decode.lanes@ + b1.take(k);
            assert(vmid =~= DispatchModel {
                queue: spec_decode_push(filled, vold.queue, vold.queue_capacity).1,
                ..vold
            });
            assert(inv(vmid)) by {
                lemma_decode_push_entries(filled, vold.queue, vold.queue_capacity);
                assert(forall|r: int| in_flight(vmid, r) == in_flight(vold, r));
                assert(unique_writers(vmid) == unique_writers(vold));
            }
        }
        self.dispatch.tick();
    }
}

} // verus!
