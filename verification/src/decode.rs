//! The decode stage: each tick it tops its lanes up with raw instructions
//! popped from the instruction buffer, decodes them in program order, and
//! pushes the decoded instructions onto the dispatch queue. The stage
//! exerts true backpressure: an instruction the dispatch queue rejects
//! stays in its lane and is retried next tick, and the stage only pops
//! from the buffer what its free lanes can hold, so no instruction is
//! lost between fetch and dispatch.

use vstd::prelude::*;
use vstd::math::min;
use crate::dispatch::DispatchQueue;
use crate::instruction::Instruction;
use crate::instruction::InstructionBuffer;
use crate::instruction::RawInstruction;
use crate::instruction::lemma_spec_decode_wf;
use crate::instruction::spec_decode;

verus! {

/// Number of decode lanes: raw instructions decoded per tick.
pub const DECODE_WIDTH: usize = 4;

/// The decode stage: held raw instructions, in program order, not yet
/// accepted by the dispatch queue.
pub struct DecodeStage {
    pub lanes: Vec<RawInstruction>,
}

/// Decoding and pushing held instructions in order until the lanes are
/// empty or the dispatch queue is full: returns the lanes and the queue
/// afterwards.
pub open spec fn spec_decode_push(
    lanes: Seq<RawInstruction>,
    q: Seq<Instruction>,
    cap: int,
) -> (Seq<RawInstruction>, Seq<Instruction>)
    decreases lanes.len(),
{
    if lanes.len() == 0 {
        (lanes, q)
    } else if q.len() < cap {
        spec_decode_push(lanes.skip(1), q.push(spec_decode(lanes[0].data)), cap)
    } else {
        (lanes, q)
    }
}

/// Everything `spec_decode_push` adds to the queue is a decoded (hence
/// well-formed) instruction, the existing entries stay in place, and the
/// queue never grows past its capacity.
pub proof fn lemma_decode_push_entries(lanes: Seq<RawInstruction>, q: Seq<Instruction>, cap: int)
    requires
        q.len() <= cap,
    ensures
        ({
            let (lanes2, q2) = spec_decode_push(lanes, q, cap);
            &&& q2.len() <= cap || q2.len() == q.len()
            &&& q2.len() >= q.len()
            &&& (forall|j: int| 0 <= j < q.len() ==> q2[j] == q[j])
            &&& (forall|j: int|
                q.len() <= j < q2.len() ==> (#[trigger] q2[j]).wf())
        }),
    decreases lanes.len(),
{
    if lanes.len() == 0 || q.len() >= cap {
    } else {
        lemma_spec_decode_wf(lanes[0].data);
        lemma_decode_push_entries(lanes.skip(1), q.push(spec_decode(lanes[0].data)), cap);
    }
}

/// Decode progress: whenever the dispatch queue has room, the front held
/// instruction is decoded and appended this very tick, behind the
/// undisturbed existing entries.
pub proof fn lemma_decode_push_progress(lanes: Seq<RawInstruction>, q: Seq<Instruction>, cap: int)
    requires
        lanes.len() > 0,
        q.len() < cap,
    ensures
        ({
            let (lanes2, q2) = spec_decode_push(lanes, q, cap);
            &&& q2.len() > q.len()
            &&& q2[q.len() as int] == spec_decode(lanes[0].data)
            &&& (forall|j: int| 0 <= j < q.len() ==> q2[j] == q[j])
        }),
{
    let d = spec_decode(lanes[0].data);
    lemma_decode_push_entries(lanes.skip(1), q.push(d), cap);
}

impl DecodeStage {
    /// The lanes never hold more than the decode width.
    pub open spec fn wf(self) -> bool {
        self.lanes@.len() <= DECODE_WIDTH
    }

    /// Create a decode stage with empty lanes.
    pub fn new() -> (r: DecodeStage)
        ensures
            r.lanes@ =~= Seq::<RawInstruction>::empty(),
            r.wf(),
    {
        DecodeStage { lanes: Vec::new() }
    }

    /// Accept a batch of raw instructions into the free lanes, in order;
    /// instructions beyond the free lanes are dropped.
    pub fn accept_batch(&mut self, instrs: Vec<RawInstruction>)
        requires
            old(self).wf(),
        ensures
            final(self).wf(),
            final(self).lanes@ == old(self).lanes@ + instrs@.take(
                min((DECODE_WIDTH - old(self).lanes@.len()) as int, instrs@.len() as int),
            ),
    {
        let ghost k: int = min((DECODE_WIDTH - self.lanes@.len()) as int, instrs@.len() as int);
        let mut i: usize = 0;
        while i < instrs.len() && self.lanes.len() < DECODE_WIDTH
            invariant
                i <= instrs@.len(),
                i <= k,
                k == min((DECODE_WIDTH - old(self).lanes@.len()) as int, instrs@.len() as int),
                self.lanes@ =~= old(self).lanes@ + instrs@.take(i as int),
                self.lanes@.len() == old(self).lanes@.len() + i,
                old(self).wf(),
            decreases instrs@.len() - i,
        {
            self.lanes.push(instrs[i]);
            i = i + 1;
        }
        proof {
            assert(i == k);
            assert(self.lanes@ =~= old(self).lanes@ + instrs@.take(k));
        }
    }

    /// One cycle of decode: top the lanes up from the instruction buffer
    /// (popping only what the free lanes can hold), then decode and push
    /// held instructions in program order onto the dispatch queue until
    /// the lanes are empty or the queue is full; rejected instructions
    /// stay held for the next tick.
    pub fn tick(&mut self, instr_buffer: &mut InstructionBuffer, dispatch_q: &mut DispatchQueue)
        requires
            old(self).wf(),
            old(instr_buffer).wf(),
            old(dispatch_q).wf(),
        ensures
            final(self).wf(),
            final(instr_buffer).wf(),
            final(dispatch_q).wf(),
            final(instr_buffer).capacity == old(instr_buffer).capacity,
            final(dispatch_q).capacity == old(dispatch_q).capacity,
            ({
                let k = min(
                    (DECODE_WIDTH - old(self).lanes@.len()) as int,
                    old(instr_buffer).queue@.len() as int,
                );
                let filled = old(self).lanes@ + old(instr_buffer).queue@.take(k);
                &&& final(instr_buffer).queue@ == old(instr_buffer).queue@.skip(k)
                &&& (final(self).lanes@, final(dispatch_q).inner@) == spec_decode_push(
                    filled,
                    old(dispatch_q).inner@,
                    old(dispatch_q).capacity as int,
                )
            }),
    {
        let free: usize = DECODE_WIDTH - self.lanes.len();
        let batch: Vec<RawInstruction> = instr_buffer.pop_batch(free);
        let ghost batch_view: Seq<RawInstruction> = batch@;
        self.accept_batch(batch);
        proof {
            let kk = min(
                (DECODE_WIDTH - old(self).lanes@.len()) as int,
                old(instr_buffer).queue@.len() as int,
            );
            assert(batch_view =~= old(instr_buffer).queue@.take(kk));
            assert(batch_view.take(
                min((DECODE_WIDTH - old(self).lanes@.len()) as int, batch_view.len() as int),
            ) =~= batch_view);
            assert(self.lanes@ =~= old(self).lanes@ + old(instr_buffer).queue@.take(kk));
        }
        let ghost filled: Seq<RawInstruction> = self.lanes@;
        let ghost q0: Seq<Instruction> = dispatch_q.inner@;
        let ghost cap: int = dispatch_q.capacity as int;
        while self.lanes.len() > 0
            invariant_except_break
                self.wf(),
                dispatch_q.wf(),
                dispatch_q.capacity as int == cap,
                spec_decode_push(filled, q0, cap) == spec_decode_push(
                    self.lanes@,
                    dispatch_q.inner@,
                    cap,
                ),
            ensures
                self.wf(),
                dispatch_q.wf(),
                dispatch_q.capacity as int == cap,
                (self.lanes@, dispatch_q.inner@) == spec_decode_push(filled, q0, cap),
            decreases self.lanes@.len(),
        {
            let ghost prev_lanes: Seq<RawInstruction> = self.lanes@;
            let ghost prev_q: Seq<Instruction> = dispatch_q.inner@;
            let raw: RawInstruction = self.lanes[0];
            let decoded: Instruction = Instruction::decode(raw);
            if dispatch_q.push(decoded) {
                self.lanes.remove(0);
                proof {
                    assert(self.lanes@ =~= prev_lanes.skip(1));
                    assert(dispatch_q.inner@ == prev_q.push(decoded));
                    assert(spec_decode_push(prev_lanes, prev_q, cap) == spec_decode_push(
                        self.lanes@,
                        dispatch_q.inner@,
                        cap,
                    ));
                }
            } else {
                proof {
                    assert(dispatch_q.inner@.len() >= cap);
                    assert(spec_decode_push(self.lanes@, dispatch_q.inner@, cap) == (
                        self.lanes@,
                        dispatch_q.inner@,
                    ));
                }
                break ;
            }
        }
    }
}

} // verus!
