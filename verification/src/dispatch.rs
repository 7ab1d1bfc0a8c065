//! The dispatch stage: the scoreboard-gated issue/execute/complete state
//! machine at the heart of the pipeline. Each tick first processes
//! completions (freeing unit slots and clearing committed-busy flags), then
//! issues up to `issue_width` instructions from the front of the dispatch
//! queue, in program order, stopping at the first instruction that stalls on
//! a data hazard or on unit availability. Unrecognized instructions are
//! dropped as consumed no-ops. The whole tick is specified as a function of
//! the stage's mathematical model, and the hazard invariants are proved to
//! be preserved by it.

use vstd::prelude::*;
use crate::instruction::Instruction;
use crate::instruction::UnitKind;
use crate::instruction::spec_unit_kind;
use crate::instruction::unit_kind;
use crate::scoreboard::NUM_REGS;
use crate::scoreboard::Scoreboard;
use crate::units::AluUnit;
use crate::units::BruUnit;
use crate::units::LsuUnit;
use crate::units::UNIT_LATENCY;

verus! {

/// Number of flags set in a flag sequence.
pub open spec fn count_true(s: Seq<bool>) -> int
    decreases s.len(),
{
    if s.len() == 0 {
        0
    } else {
        count_true(s.drop_last()) + if s.last() {
            1int
        } else {
            0int
        }
    }
}

/// The set-flag count is between zero and the length.
pub proof fn lemma_count_true_bounds(s: Seq<bool>)
    ensures
        0 <= count_true(s) <= s.len(),
    decreases s.len(),
{
    if s.len() > 0 {
        lemma_count_true_bounds(s.drop_last());
    }
}

/// How setting or clearing one flag changes the set-flag count.
pub proof fn lemma_count_true_update(s: Seq<bool>, i: int, v: bool)
    requires
        0 <= i < s.len(),
    ensures
        count_true(s.update(i, v)) == count_true(s) + (if v == s[i] {
            0int
        } else if v {
            1int
        } else {
            -1int
        }),
    decreases s.len(),
{
    if i == s.len() - 1 {
        assert(s.update(i, v).drop_last() =~= s.drop_last());
    } else {
        lemma_count_true_update(s.drop_last(), i, v);
        assert(s.update(i, v).drop_last() =~= s.drop_last().update(i, v));
    }
}

/// A sequence of all-set flags counts its length; one of all-clear flags
/// counts zero; a sequence with a set flag counts at least one.
pub proof fn lemma_count_true_extremes(s: Seq<bool>)
    ensures
        (forall|i: int| 0 <= i < s.len() ==> s[i]) ==> count_true(s) == s.len(),
        (forall|i: int| 0 <= i < s.len() ==> !s[i]) ==> count_true(s) == 0,
        count_true(s) == s.len() ==> (forall|i: int| 0 <= i < s.len() ==> s[i]),
        count_true(s) == 0 ==> (forall|i: int| 0 <= i < s.len() ==> !s[i]),
    decreases s.len(),
{
    lemma_count_true_bounds(s);
    if s.len() > 0 {
        lemma_count_true_extremes(s.drop_last());
        lemma_count_true_bounds(s.drop_last());
        assert forall|i: int| 0 <= i < s.len() implies #[trigger] s[i] == (if i < s.len() - 1 {
            s.drop_last()[i]
        } else {
            s.last()
        }) by {}
    }
}

/// Least index at or after `i` whose flag equals `b`, or the length when
/// there is none.
pub open spec fn first_with(s: Seq<bool>, b: bool, i: int) -> int
    recommends
        0 <= i <= s.len(),
    decreases s.len() - i,
{
    if i < 0 || i >= s.len() {
        s.len() as int
    } else if s[i] == b {
        i
    } else {
        first_with(s, b, i + 1)
    }
}

/// `first_with` returns the least matching index: the flag there matches and
/// no earlier flag (at or after the start) does; when it returns the length,
/// no flag matches at all.
pub proof fn lemma_first_with(s: Seq<bool>, b: bool, i: int)
    requires
        0 <= i <= s.len(),
    ensures
        i <= first_with(s, b, i) <= s.len(),
        first_with(s, b, i) < s.len() ==> s[first_with(s, b, i)] == b,
        forall|j: int| i <= j < first_with(s, b, i) && j < s.len() ==> s[j] != b,
    decreases s.len() - i,
{
    if i < s.len() && s[i] != b {
        lemma_first_with(s, b, i + 1);
    }
}

/// The busy flags of a pool of arithmetic units.
pub open spec fn alu_busy_view(s: Seq<AluUnit>) -> Seq<bool> {
    s.map_values(|u: AluUnit| u.busy)
}

/// The busy flags of a pool of branch units.
pub open spec fn bru_busy_view(s: Seq<BruUnit>) -> Seq<bool> {
    s.map_values(|u: BruUnit| u.busy)
}

/// Whether a unit slot holds an instruction whose destination is register
/// `r`.
pub open spec fn slot_writes(c: Option<Instruction>, r: int) -> bool {
    match c {
        Some(i) => i.rd == r,
        None => false,
    }
}

/// The mathematical model of the dispatch stage: the queue contents, the
/// scoreboard flag tables, and the unit pools, as plain sequences.
#[verifier::ext_equal]
pub ghost struct DispatchModel {
    pub queue: Seq<Instruction>,
    pub queue_capacity: int,
    pub reg: Seq<bool>,
    pub pending: Seq<bool>,
    pub alu_flags: Seq<bool>,
    pub bru_flags: Seq<bool>,
    pub lsu_flag: bool,
    pub alus: Seq<AluUnit>,
    pub brus: Seq<BruUnit>,
    pub lsu: LsuUnit,
    pub issue_width: int,
}

/// Register indices an instruction names are within the tracked register
/// file.
pub open spec fn regs_in_range(i: Instruction) -> bool {
        &&& i.rd < NUM_REGS
        &&& i.rs1 < NUM_REGS
        &&& i.rs2 < NUM_REGS
}

/// Register `r` has an in-flight write: some occupied unit slot holds an
/// instruction whose destination is `r`.
pub open spec fn in_flight(v: DispatchModel, r: int) -> bool {
    ||| exists|k: int| 0 <= k < v.alus.len() && slot_writes(v.alus[k].current, r)
    ||| exists|k: int| 0 <= k < v.brus.len() && slot_writes(v.brus[k].current, r)
    ||| slot_writes(v.lsu.current, r)
}

/// No two distinct occupied unit slots claim the same non-zero destination
/// register.
pub open spec fn unique_writers(v: DispatchModel) -> bool {
        &&& forall|k1: int, k2: int, r: int|
        0 <= k1 < v.alus.len() && 0 <= k2 < v.alus.len() && k1 != k2 && 1 <= r < NUM_REGS
            && #[trigger] slot_writes(v.alus[k1].current, r) ==> !#[trigger] slot_writes(
            v.alus[k2].current,
            r,
        )
        &&& forall|k1: int, k2: int, r: int|
        0 <= k1 < v.brus.len() && 0 <= k2 < v.brus.len() && k1 != k2 && 1 <= r < NUM_REGS
            && #[trigger] slot_writes(v.brus[k1].current, r) ==> !#[trigger] slot_writes(
            v.brus[k2].current,
            r,
        )
        &&& forall|k1: int, k2: int, r: int|
        0 <= k1 < v.alus.len() && 0 <= k2 < v.brus.len() && 1 <= r < NUM_REGS
            && #[trigger] slot_writes(v.alus[k1].current, r) ==> !#[trigger] slot_writes(
            v.brus[k2].current,
            r,
        )
        &&& forall|k: int, r: int|
        0 <= k < v.alus.len() && 1 <= r < NUM_REGS && #[trigger] slot_writes(
            v.alus[k].current,
            r,
        ) ==> !slot_writes(v.lsu.current, r)
        &&& forall|k: int, r: int|
        0 <= k < v.brus.len() && 1 <= r < NUM_REGS && #[trigger] slot_writes(
            v.brus[k].current,
            r,
        ) ==> !slot_writes(v.lsu.current, r)
}

/// The dispatch invariant: well-formed scoreboard tables; flag tables and
/// unit pools of matching sizes with matching busy counts; every held
/// instruction well-formed and on a unit of its own class; the committed
/// busy flags tracking exactly the in-flight writes; and no non-zero
/// destination register claimed twice.
pub open spec fn inv(v: DispatchModel) -> bool {
        &&& v.reg.len() == NUM_REGS
        &&& v.pending.len() == NUM_REGS
        &&& !v.reg[0]
        &&& !v.pending[0]
        &&& v.queue.len() <= v.queue_capacity
        &&& (forall|j: int| 0 <= j < v.queue.len() ==> regs_in_range(#[trigger] v.queue[j]))
        &&& v.alu_flags.len() == v.alus.len()
        &&& v.bru_flags.len() == v.brus.len()
        &&& (forall|k: int|
            0 <= k < v.alus.len() ==> (#[trigger] v.alus[k]).wf() && (v.alus[k].current
                matches Some(i) ==> regs_in_range(i) && spec_unit_kind(i.opcode) == UnitKind::Alu))
        &&& (forall|k: int|
            0 <= k < v.brus.len() ==> (#[trigger] v.brus[k]).wf() && (v.brus[k].current
                matches Some(i) ==> regs_in_range(i) && spec_unit_kind(i.opcode)
                == UnitKind::Branch))
        &&& v.lsu.wf()
        &&& (v.lsu.current matches Some(i) ==> regs_in_range(i) && spec_unit_kind(i.opcode)
            == UnitKind::LoadStore)
        &&& count_true(v.alu_flags) == count_true(alu_busy_view(v.alus))
        &&& count_true(v.bru_flags) == count_true(bru_busy_view(v.brus))
        &&& v.lsu_flag == v.lsu.busy
        &&& (forall|r: int| 1 <= r < NUM_REGS ==> (v.reg[r] <==> in_flight(v, r)))
        &&& unique_writers(v)
}

/// Whether issuing `i` is free of data hazards in the model: mirrors
/// `Scoreboard::spec_can_issue` over the model's flag tables.
pub open spec fn model_can_issue(v: DispatchModel, i: Instruction) -> bool {
    let rs1_busy = i.rs1 != 0 && (v.reg[i.rs1 as int] || v.pending[i.rs1 as int]);
    let rs2_busy = i.rs2 != 0 && (v.reg[i.rs2 as int] || v.pending[i.rs2 as int]);
    let rd_waw = i.rd != 0 && v.reg[i.rd as int];
    !(rs1_busy || rs2_busy || rd_waw)
}

/// Predicted-busy marking of a stalled instruction's destination; register
/// 0 is never marked.
pub open spec fn spec_predict(pending: Seq<bool>, i: Instruction) -> Seq<bool> {
    if i.rd != 0 {
        pending.update(i.rd as int, true)
    } else {
        pending
    }
}

/// Committed-busy clearing on completion; register 0 is never tracked.
pub open spec fn spec_clear_rd(reg: Seq<bool>, i: Instruction) -> Seq<bool> {
    if i.rd != 0 {
        reg.update(i.rd as int, false)
    } else {
        reg
    }
}

/// Clearing of the first set flag, if any: how a completed instruction's
/// unit-class slot is released in the scoreboard.
pub open spec fn spec_release_flags(flags: Seq<bool>) -> Seq<bool> {
    let w = first_with(flags, true, 0);
    if w < flags.len() {
        flags.update(w, false)
    } else {
        flags
    }
}

/// One cycle of an arithmetic unit, as a value: the unit afterwards, and
/// the completed instruction if its countdown had run out.
pub open spec fn spec_alu_tick(u: AluUnit) -> (AluUnit, Option<Instruction>) {
    if !u.busy {
        (u, None)
    } else if u.remaining > 0 {
        (AluUnit { remaining: (u.remaining - 1) as u8, ..u }, None)
    } else {
        (AluUnit { busy: false, current: None, ..u }, u.current)
    }
}

/// One cycle of a branch unit, as a value.
pub open spec fn spec_bru_tick(u: BruUnit) -> (BruUnit, Option<Instruction>) {
    if !u.busy {
        (u, None)
    } else if u.remaining > 0 {
        (BruUnit { remaining: (u.remaining - 1) as u8, ..u }, None)
    } else {
        (BruUnit { busy: false, current: None, ..u }, u.current)
    }
}

/// One cycle of the load/store unit, as a value.
pub open spec fn spec_lsu_tick(u: LsuUnit) -> (LsuUnit, Option<Instruction>) {
    if !u.busy {
        (u, None)
    } else if u.remaining > 0 {
        (LsuUnit { remaining: (u.remaining - 1) as u8, ..u }, None)
    } else {
        (LsuUnit { busy: false, current: None, ..u }, u.current)
    }
}

/// Completion processing of the arithmetic unit at index `k`: tick the
/// unit; if it completed, clear its destination's committed-busy flag and
/// release one arithmetic slot flag.
pub open spec fn spec_complete_alu_at(v: DispatchModel, k: int) -> DispatchModel
    recommends
        0 <= k < v.alus.len(),
{
    let (u2, done) = spec_alu_tick(v.alus[k]);
    let v2 = DispatchModel { alus: v.alus.update(k, u2), ..v };
    match done {
        Some(i) => DispatchModel {
            reg: spec_clear_rd(v2.reg, i),
            alu_flags: spec_release_flags(v2.alu_flags),
            ..v2
        },
        None => v2,
    }
}

/// Completion processing of the branch unit at index `k`.
pub open spec fn spec_complete_bru_at(v: DispatchModel, k: int) -> DispatchModel
    recommends
        0 <= k < v.brus.len(),
{
    let (u2, done) = spec_bru_tick(v.brus[k]);
    let v2 = DispatchModel { brus: v.brus.update(k, u2), ..v };
    match done {
        Some(i) => DispatchModel {
            reg: spec_clear_rd(v2.reg, i),
            bru_flags: spec_release_flags(v2.bru_flags),
            ..v2
        },
        None => v2,
    }
}

/// Completion processing of the load/store unit.
pub open spec fn spec_complete_lsu(v: DispatchModel) -> DispatchModel {
    let (u2, done) = spec_lsu_tick(v.lsu);
    let v2 = DispatchModel { lsu: u2, ..v };
    match done {
        Some(i) => DispatchModel { reg: spec_clear_rd(v2.reg, i), lsu_flag: false, ..v2 },
        None => v2,
    }
}

/// Completion processing of the first `k` arithmetic units, in index order.
pub open spec fn spec_complete_alus(v: DispatchModel, k: int) -> DispatchModel
    decreases k,
{
    if k <= 0 {
        v
    } else {
        spec_complete_alu_at(spec_complete_alus(v, k - 1), k - 1)
    }
}

/// Completion processing of the first `k` branch units, in index order.
pub open spec fn spec_complete_brus(v: DispatchModel, k: int) -> DispatchModel
    decreases k,
{
    if k <= 0 {
        v
    } else {
        spec_complete_bru_at(spec_complete_brus(v, k - 1), k - 1)
    }
}

/// The whole completion phase: every arithmetic unit, every branch unit,
/// then the load/store unit.
pub open spec fn spec_complete_phase(v: DispatchModel) -> DispatchModel {
    spec_complete_lsu(
        spec_complete_brus(spec_complete_alus(v, v.alus.len() as int), v.brus.len() as int),
    )
}

/// A freshly issued arithmetic unit slot.
pub open spec fn spec_issued_alu(i: Instruction) -> AluUnit {
    AluUnit { busy: true, remaining: (UNIT_LATENCY - 1) as u8, current: Some(i) }
}

/// A freshly issued branch unit slot.
pub open spec fn spec_issued_bru(i: Instruction) -> BruUnit {
    BruUnit { busy: true, remaining: (UNIT_LATENCY - 1) as u8, current: Some(i) }
}

/// A freshly issued load/store unit slot.
pub open spec fn spec_issued_lsu(i: Instruction) -> LsuUnit {
    LsuUnit { busy: true, remaining: (UNIT_LATENCY - 1) as u8, current: Some(i) }
}

/// Dropping the front of the queue: how an unrecognized instruction is
/// consumed as a no-op.
pub open spec fn spec_drop_front(v: DispatchModel) -> DispatchModel {
    DispatchModel { queue: v.queue.skip(1), ..v }
}

/// Stalling on the front of the queue: the instruction stays, its
/// destination is marked predicted busy.
pub open spec fn spec_stall_front(v: DispatchModel) -> DispatchModel {
    DispatchModel { pending: spec_predict(v.pending, v.queue[0]), ..v }
}

/// The committed-busy table after issuing `i`.
pub open spec fn spec_issue_reg(reg: Seq<bool>, i: Instruction) -> Seq<bool> {
    if i.rd != 0 {
        reg.update(i.rd as int, true)
    } else {
        reg
    }
}

/// The predicted-busy table after issuing `i`: any stale prediction on its
/// destination is cleared.
pub open spec fn spec_issue_pending(pending: Seq<bool>, i: Instruction) -> Seq<bool> {
    if i.rd != 0 {
        pending.update(i.rd as int, false)
    } else {
        pending
    }
}

/// Issuing the front instruction into the arithmetic pool: it leaves the
/// queue, its destination becomes committed busy, the first free
/// arithmetic slot flag is claimed, and the first free arithmetic unit is
/// occupied.
pub open spec fn spec_issue_front_alu(v: DispatchModel) -> DispatchModel {
    let i = v.queue[0];
    let fidx = first_with(v.alu_flags, false, 0);
    let uidx = first_with(alu_busy_view(v.alus), false, 0);
    DispatchModel {
        queue: v.queue.skip(1),
        reg: spec_issue_reg(v.reg, i),
        pending: spec_issue_pending(v.pending, i),
        alu_flags: v.alu_flags.update(fidx, true),
        alus: v.alus.update(uidx, spec_issued_alu(i)),
        ..v
    }
}

/// Issuing the front instruction into the branch pool.
pub open spec fn spec_issue_front_bru(v: DispatchModel) -> DispatchModel {
    let i = v.queue[0];
    let fidx = first_with(v.bru_flags, false, 0);
    let uidx = first_with(bru_busy_view(v.brus), false, 0);
    DispatchModel {
        queue: v.queue.skip(1),
        reg: spec_issue_reg(v.reg, i),
        pending: spec_issue_pending(v.pending, i),
        bru_flags: v.bru_flags.update(fidx, true),
        brus: v.brus.update(uidx, spec_issued_bru(i)),
        ..v
    }
}

/// Issuing the front instruction into the load/store unit.
pub open spec fn spec_issue_front_lsu(v: DispatchModel) -> DispatchModel {
    let i = v.queue[0];
    DispatchModel {
        queue: v.queue.skip(1),
        reg: spec_issue_reg(v.reg, i),
        pending: spec_issue_pending(v.pending, i),
        lsu_flag: true,
        lsu: spec_issued_lsu(i),
        ..v
    }
}

/// The issue scan, from the front of the queue, with `issued` instructions
/// already issued this tick. In order: an unrecognized instruction is
/// dropped as a consumed no-op; a data hazard stalls the scan, marking the
/// stalled instruction's destination predicted-busy; a missing free unit of
/// the needed class stalls the scan; otherwise the front instruction
/// issues and the scan continues, up to `issue_width` issues per tick. No
/// instruction issues past a stalled one: issue is strictly in program
/// order.
pub open spec fn spec_issue_steps(v: DispatchModel, issued: int) -> DispatchModel
    decreases v.queue.len(),
{
    if issued >= v.issue_width || v.queue.len() == 0 {
        v
    } else {
        let i = v.queue[0];
        let kind = spec_unit_kind(i.opcode);
        if kind == UnitKind::Unrecognized {
            spec_issue_steps(spec_drop_front(v), issued)
        } else if !model_can_issue(v, i) {
            spec_stall_front(v)
        } else if kind == UnitKind::Alu {
            if first_with(v.alu_flags, false, 0) >= v.alu_flags.len() {
                v
            } else {
                spec_issue_steps(spec_issue_front_alu(v), issued + 1)
            }
        } else if kind == UnitKind::Branch {
            if first_with(v.bru_flags, false, 0) >= v.bru_flags.len() {
                v
            } else {
                spec_issue_steps(spec_issue_front_bru(v), issued + 1)
            }
        } else {
            if v.lsu_flag {
                v
            } else {
                spec_issue_steps(spec_issue_front_lsu(v), issued + 1)
            }
        }
    }
}

/// One whole tick of the dispatch stage: the completion phase, then the
/// issue scan. Completion runs first so that an instruction whose
/// dependency completes this very tick can issue in the same tick.
pub open spec fn spec_dispatch_tick(v: DispatchModel) -> DispatchModel {
    spec_issue_steps(spec_complete_phase(v), 0)
}

/// The parts of the model that the arithmetic completion step leaves
/// untouched, and the sizes it preserves.
pub open spec fn same_but_alus(v: DispatchModel, v2: DispatchModel) -> bool {
        &&& v2.queue == v.queue
        &&& v2.queue_capacity == v.queue_capacity
        &&& v2.pending == v.pending
        &&& v2.bru_flags == v.bru_flags
        &&& v2.brus == v.brus
        &&& v2.lsu == v.lsu
        &&& v2.lsu_flag == v.lsu_flag
        &&& v2.issue_width == v.issue_width
        &&& v2.alus.len() == v.alus.len()
        &&& v2.alu_flags.len() == v.alu_flags.len()
        &&& v2.reg.len() == v.reg.len()
}

/// Completion of the arithmetic unit at `k` preserves the dispatch
/// invariant and touches only the arithmetic pool, its flags, and the
/// committed-busy table.
pub proof fn lemma_complete_alu_at_inv(v: DispatchModel, k: int)
    requires
        inv(v),
        0 <= k < v.alus.len(),
    ensures
        inv(spec_complete_alu_at(v, k)),
        same_but_alus(v, spec_complete_alu_at(v, k)),
{
    let u = v.alus[k];
    let v1 = spec_complete_alu_at(v, k);
    if u.busy && u.remaining == 0 {
        let i = u.current->Some_0;
        assert(u.current is Some);
        assert(regs_in_range(i) && spec_unit_kind(i.opcode) == UnitKind::Alu);
        let bv = alu_busy_view(v.alus);
        let bv1 = alu_busy_view(v1.alus);
        assert(bv[k]);
        lemma_count_true_extremes(bv);
        lemma_count_true_bounds(bv);
        assert(count_true(v.alu_flags) >= 1);
        lemma_first_with(v.alu_flags, true, 0);
        let w = first_with(v.alu_flags, true, 0);
        if w >= v.alu_flags.len() {
            lemma_count_true_extremes(v.alu_flags);
            assert(false);
        }
        assert(v1.alu_flags == v.alu_flags.update(w, false));
        lemma_count_true_update(v.alu_flags, w, false);
        assert(bv1 =~= bv.update(k, false));
        lemma_count_true_update(bv, k, false);
        assert(count_true(v1.alu_flags) == count_true(bv1));
        // The committed-busy table after clearing the completed destination.
        assert(v1.reg == spec_clear_rd(v.reg, i));
        assert(v1.reg.len() == NUM_REGS && !v1.reg[0]);
        // Register tracking: the freed destination has no other writer, any
        // other register keeps its writers.
        assert forall|r: int| 1 <= r < NUM_REGS implies (v1.reg[r] <==> in_flight(v1, r)) by {
            assert(forall|j: int|
                0 <= j < v1.alus.len() && j != k ==> v1.alus[j].current == v.alus[j].current);
            assert(v1.alus[k].current is None);
            if i.rd == r {
                assert(slot_writes(u.current, r));
                assert(!v1.reg[r]);
                if in_flight(v1, r) {
                    if exists|j: int| 0 <= j < v1.alus.len() && slot_writes(v1.alus[j].current, r) {
                        let j = choose|j: int|
                            0 <= j < v1.alus.len() && slot_writes(v1.alus[j].current, r);
                        assert(j != k);
                        assert(slot_writes(v.alus[j].current, r));
                        assert(false);
                    } else if exists|j: int|
                        0 <= j < v1.brus.len() && slot_writes(v1.brus[j].current, r) {
                        let j = choose|j: int|
                            0 <= j < v1.brus.len() && slot_writes(v1.brus[j].current, r);
                        assert(slot_writes(v.brus[j].current, r));
                        assert(false);
                    } else {
                        assert(slot_writes(v.lsu.current, r));
                        assert(false);
                    }
                }
            } else {
                assert(v1.reg[r] == v.reg[r]);
                if in_flight(v, r) {
                    if exists|j: int| 0 <= j < v.alus.len() && slot_writes(v.alus[j].current, r) {
                        let j = choose|j: int|
                            0 <= j < v.alus.len() && slot_writes(v.alus[j].current, r);
                        assert(j != k);
                        assert(slot_writes(v1.alus[j].current, r));
                    }
                    assert(in_flight(v1, r));
                }
                if in_flight(v1, r) {
                    if exists|j: int| 0 <= j < v1.alus.len() && slot_writes(v1.alus[j].current, r) {
                        let j = choose|j: int|
                            0 <= j < v1.alus.len() && slot_writes(v1.alus[j].current, r);
                        assert(j != k);
                        assert(slot_writes(v.alus[j].current, r));
                    }
                    assert(in_flight(v, r));
                }
            }
        }
        assert(unique_writers(v1)) by {
            assert(forall|j: int|
                0 <= j < v1.alus.len() && j != k ==> v1.alus[j].current == v.alus[j].current);
            assert(!(v1.alus[k].current is Some));
        }
    } else {
        // No completion: the unit either idles or only its countdown moves;
        // every slot keeps its occupant.
        assert(forall|j: int| 0 <= j < v1.alus.len() ==> v1.alus[j].current == v.alus[j].current);
        assert(forall|j: int| 0 <= j < v1.alus.len() ==> v1.alus[j].busy == v.alus[j].busy);
        assert(alu_busy_view(v1.alus) =~= alu_busy_view(v.alus));
        assert forall|r: int| 1 <= r < NUM_REGS implies (v1.reg[r] <==> in_flight(v1, r)) by {
            if in_flight(v, r) {
                if exists|j: int| 0 <= j < v.alus.len() && slot_writes(v.alus[j].current, r) {
                    let j = choose|j: int|
                        0 <= j < v.alus.len() && slot_writes(v.alus[j].current, r);
                    assert(slot_writes(v1.alus[j].current, r));
                }
                assert(in_flight(v1, r));
            }
            if in_flight(v1, r) {
                if exists|j: int| 0 <= j < v1.alus.len() && slot_writes(v1.alus[j].current, r) {
                    let j = choose|j: int|
                        0 <= j < v1.alus.len() && slot_writes(v1.alus[j].current, r);
                    assert(slot_writes(v.alus[j].current, r));
                }
                assert(in_flight(v, r));
            }
        }
        assert(unique_writers(v1)) by {
            assert(forall|j: int|
                0 <= j < v1.alus.len() ==> v1.alus[j].current == v.alus[j].current);
        }
    }
}

/// The parts of the model that the branch completion step leaves
/// untouched, and the sizes it preserves.
pub open spec fn same_but_brus(v: DispatchModel, v2: DispatchModel) -> bool {
        &&& v2.queue == v.queue
        &&& v2.queue_capacity == v.queue_capacity
        &&& v2.pending == v.pending
        &&& v2.alu_flags == v.alu_flags
        &&& v2.alus == v.alus
        &&& v2.lsu == v.lsu
        &&& v2.lsu_flag == v.lsu_flag
        &&& v2.issue_width == v.issue_width
        &&& v2.brus.len() == v.brus.len()
        &&& v2.bru_flags.len() == v.bru_flags.len()
        &&& v2.reg.len() == v.reg.len()
}

/// Completion of the branch unit at `k` preserves the dispatch invariant
/// and touches only the branch pool, its flags, and the committed-busy
/// table.
pub proof fn lemma_complete_bru_at_inv(v: DispatchModel, k: int)
    requires
        inv(v),
        0 <= k < v.brus.len(),
    ensures
        inv(spec_complete_bru_at(v, k)),
        same_but_brus(v, spec_complete_bru_at(v, k)),
{
    let u = v.brus[k];
    let v1 = spec_complete_bru_at(v, k);
    if u.busy && u.remaining == 0 {
        let i = u.current->Some_0;
        assert(u.current is Some);
        assert(regs_in_range(i) && spec_unit_kind(i.opcode) == UnitKind::Branch);
        let bv = bru_busy_view(v.brus);
        let bv1 = bru_busy_view(v1.brus);
        assert(bv[k]);
        lemma_count_true_extremes(bv);
        lemma_count_true_bounds(bv);
        assert(count_true(v.bru_flags) >= 1);
        lemma_first_with(v.bru_flags, true, 0);
        let w = first_with(v.bru_flags, true, 0);
        if w >= v.bru_flags.len() {
            lemma_count_true_extremes(v.bru_flags);
            assert(false);
        }
        assert(v1.bru_flags == v.bru_flags.update(w, false));
        lemma_count_true_update(v.bru_flags, w, false);
        assert(bv1 =~= bv.update(k, false));
        lemma_count_true_update(bv, k, false);
        assert(count_true(v1.bru_flags) == count_true(bv1));
        assert(v1.reg == spec_clear_rd(v.reg, i));
        assert(v1.reg.len() == NUM_REGS && !v1.reg[0]);
        assert forall|r: int| 1 <= r < NUM_REGS implies (v1.reg[r] <==> in_flight(v1, r)) by {
            assert(forall|j: int|
                0 <= j < v1.brus.len() && j != k ==> v1.brus[j].current == v.brus[j].current);
            assert(v1.brus[k].current is None);
            if i.rd == r {
                assert(slot_writes(u.current, r));
                assert(!v1.reg[r]);
                if in_flight(v1, r) {
                    if exists|j: int| 0 <= j < v1.brus.len() && slot_writes(v1.brus[j].current, r) {
                        let j = choose|j: int|
                            0 <= j < v1.brus.len() && slot_writes(v1.brus[j].current, r);
                        assert(j != k);
                        assert(slot_writes(v.brus[j].current, r));
                        assert(false);
                    } else if exists|j: int|
                        0 <= j < v1.alus.len() && slot_writes(v1.alus[j].current, r) {
                        let j = choose|j: int|
                            0 <= j < v1.alus.len() && slot_writes(v1.alus[j].current, r);
                        assert(slot_writes(v.alus[j].current, r));
                        assert(false);
                    } else {
                        assert(slot_writes(v.lsu.current, r));
                        assert(false);
                    }
                }
            } else {
                assert(v1.reg[r] == v.reg[r]);
                if in_flight(v, r) {
                    if exists|j: int| 0 <= j < v.brus.len() && slot_writes(v.brus[j].current, r) {
                        let j = choose|j: int|
                            0 <= j < v.brus.len() && slot_writes(v.brus[j].current, r);
                        assert(j != k);
                        assert(slot_writes(v1.brus[j].current, r));
                    }
                    assert(in_flight(v1, r));
                }
                if in_flight(v1, r) {
                    if exists|j: int| 0 <= j < v1.brus.len() && slot_writes(v1.brus[j].current, r) {
                        let j = choose|j: int|
                            0 <= j < v1.brus.len() && slot_writes(v1.brus[j].current, r);
                        assert(j != k);
                        assert(slot_writes(v.brus[j].current, r));
                    }
                    assert(in_flight(v, r));
                }
            }
        }
        assert(unique_writers(v1)) by {
            assert(forall|j: int|
                0 <= j < v1.brus.len() && j != k ==> v1.brus[j].current == v.brus[j].current);
            assert(!(v1.brus[k].current is Some));
        }
    } else {
        assert(forall|j: int| 0 <= j < v1.brus.len() ==> v1.brus[j].current == v.brus[j].current);
        assert(forall|j: int| 0 <= j < v1.brus.len() ==> v1.brus[j].busy == v.brus[j].busy);
        assert(bru_busy_view(v1.brus) =~= bru_busy_view(v.brus));
        assert forall|r: int| 1 <= r < NUM_REGS implies (v1.reg[r] <==> in_flight(v1, r)) by {
            if in_flight(v, r) {
                if exists|j: int| 0 <= j < v.brus.len() && slot_writes(v.brus[j].current, r) {
                    let j = choose|j: int|
                        0 <= j < v.brus.len() && slot_writes(v.brus[j].current, r);
                    assert(slot_writes(v1.brus[j].current, r));
                }
                assert(in_flight(v1, r));
            }
            if in_flight(v1, r) {
                if exists|j: int| 0 <= j < v1.brus.len() && slot_writes(v1.brus[j].current, r) {
                    let j = choose|j: int|
                        0 <= j < v1.brus.len() && slot_writes(v1.brus[j].current, r);
                    assert(slot_writes(v.brus[j].current, r));
                }
                assert(in_flight(v, r));
            }
        }
        assert(unique_writers(v1)) by {
            assert(forall|j: int|
                0 <= j < v1.brus.len() ==> v1.brus[j].current == v.brus[j].current);
        }
    }
}

/// Completion of the load/store unit preserves the dispatch invariant and
/// touches only the unit, its flag, and the committed-busy table.
pub proof fn lemma_complete_lsu_inv(v: DispatchModel)
    requires
        inv(v),
    ensures
        inv(spec_complete_lsu(v)),
        ({
            let v2 = spec_complete_lsu(v);
            &&& v2.queue == v.queue
            &&& v2.queue_capacity == v.queue_capacity
            &&& v2.pending == v.pending
            &&& v2.alu_flags == v.alu_flags
            &&& v2.alus == v.alus
            &&& v2.bru_flags == v.bru_flags
            &&& v2.brus == v.brus
            &&& v2.issue_width == v.issue_width
            &&& v2.reg.len() == v.reg.len()
        }),
{
    let u = v.lsu;
    let v1 = spec_complete_lsu(v);
    if u.busy && u.remaining == 0 {
        let i = u.current->Some_0;
        assert(u.current is Some);
        assert(regs_in_range(i) && spec_unit_kind(i.opcode) == UnitKind::LoadStore);
        assert(v1.reg == spec_clear_rd(v.reg, i));
        assert(!v1.lsu_flag && !v1.lsu.busy);
        assert forall|r: int| 1 <= r < NUM_REGS implies (v1.reg[r] <==> in_flight(v1, r)) by {
            assert(v1.lsu.current is None);
            if i.rd == r {
                assert(slot_writes(u.current, r));
                assert(!v1.reg[r]);
                if in_flight(v1, r) {
                    if exists|j: int| 0 <= j < v1.alus.len() && slot_writes(v1.alus[j].current, r) {
                        let j = choose|j: int|
                            0 <= j < v1.alus.len() && slot_writes(v1.alus[j].current, r);
                        assert(slot_writes(v.alus[j].current, r));
                        assert(false);
                    } else if exists|j: int|
                        0 <= j < v1.brus.len() && slot_writes(v1.brus[j].current, r) {
                        let j = choose|j: int|
                            0 <= j < v1.brus.len() && slot_writes(v1.brus[j].current, r);
                        assert(slot_writes(v.brus[j].current, r));
                        assert(false);
                    } else {
                        assert(slot_writes(v1.lsu.current, r));
                        assert(false);
                    }
                }
            } else {
                assert(v1.reg[r] == v.reg[r]);
                assert(in_flight(v1, r) <==> in_flight(v, r));
            }
        }
        assert(unique_writers(v1));
    } else {
        assert(v1.lsu.current == v.lsu.current);
        assert(v1.lsu.busy == v.lsu.busy);
        assert forall|r: int| 1 <= r < NUM_REGS implies (v1.reg[r] <==> in_flight(v1, r)) by {
            assert(in_flight(v1, r) <==> in_flight(v, r));
        }
        assert(unique_writers(v1));
    }
}

/// Completion of the first `k` arithmetic units preserves the dispatch
/// invariant.
pub proof fn lemma_complete_alus_inv(v: DispatchModel, k: int)
    requires
        inv(v),
        0 <= k <= v.alus.len(),
    ensures
        inv(spec_complete_alus(v, k)),
        same_but_alus(v, spec_complete_alus(v, k)),
    decreases k,
{
    if k > 0 {
        lemma_complete_alus_inv(v, k - 1);
        lemma_complete_alu_at_inv(spec_complete_alus(v, k - 1), k - 1);
    }
}

/// Completion of the first `k` branch units preserves the dispatch
/// invariant.
pub proof fn lemma_complete_brus_inv(v: DispatchModel, k: int)
    requires
        inv(v),
        0 <= k <= v.brus.len(),
    ensures
        inv(spec_complete_brus(v, k)),
        same_but_brus(v, spec_complete_brus(v, k)),
    decreases k,
{
    if k > 0 {
        lemma_complete_brus_inv(v, k - 1);
        lemma_complete_bru_at_inv(spec_complete_brus(v, k - 1), k - 1);
    }
}

/// The whole completion phase preserves the dispatch invariant and leaves
/// the queue and its capacity untouched.
pub proof fn lemma_complete_phase_inv(v: DispatchModel)
    requires
        inv(v),
    ensures
        inv(spec_complete_phase(v)),
        spec_complete_phase(v).queue == v.queue,
        spec_complete_phase(v).queue_capacity == v.queue_capacity,
        spec_complete_phase(v).issue_width == v.issue_width,
        spec_complete_phase(v).alus.len() == v.alus.len(),
        spec_complete_phase(v).brus.len() == v.brus.len(),
{
    lemma_complete_alus_inv(v, v.alus.len() as int);
    lemma_complete_brus_inv(spec_complete_alus(v, v.alus.len() as int), v.brus.len() as int);
    lemma_complete_lsu_inv(
        spec_complete_brus(spec_complete_alus(v, v.alus.len() as int), v.brus.len() as int),
    );
}

/// Dropping an unrecognized front instruction preserves the dispatch
/// invariant.
pub proof fn lemma_drop_front_inv(v: DispatchModel)
    requires
        inv(v),
        v.queue.len() > 0,
    ensures
        inv(spec_drop_front(v)),
{
    let v1 = spec_drop_front(v);
    assert(forall|j: int| 0 <= j < v1.queue.len() ==> v1.queue[j] == v.queue[j + 1]);
    assert(forall|r: int| in_flight(v1, r) == in_flight(v, r));
    assert(unique_writers(v1) == unique_writers(v));
}

/// Stalling on the front instruction preserves the dispatch invariant.
pub proof fn lemma_stall_front_inv(v: DispatchModel)
    requires
        inv(v),
        v.queue.len() > 0,
    ensures
        inv(spec_stall_front(v)),
{
    let v1 = spec_stall_front(v);
    assert(forall|r: int| in_flight(v1, r) == in_flight(v, r));
    assert(unique_writers(v1) == unique_writers(v));
}

/// Issuing the front instruction into the arithmetic pool preserves the
/// dispatch invariant, provided it is hazard-free and an arithmetic slot
/// flag is free.
pub proof fn lemma_issue_front_alu_inv(v: DispatchModel)
    requires
        inv(v),
        v.queue.len() > 0,
        spec_unit_kind(v.queue[0].opcode) == UnitKind::Alu,
        model_can_issue(v, v.queue[0]),
        first_with(v.alu_flags, false, 0) < v.alu_flags.len(),
    ensures
        inv(spec_issue_front_alu(v)),
{
    let i = v.queue[0];
    let v1 = spec_issue_front_alu(v);
    let fidx = first_with(v.alu_flags, false, 0);
    let bv = alu_busy_view(v.alus);
    let uidx = first_with(bv, false, 0);
    lemma_first_with(v.alu_flags, false, 0);
    assert(!v.alu_flags[fidx]);
    lemma_count_true_bounds(v.alu_flags);
    lemma_count_true_extremes(v.alu_flags);
    assert(count_true(v.alu_flags) < v.alu_flags.len());
    lemma_first_with(bv, false, 0);
    if uidx >= bv.len() {
        lemma_count_true_extremes(bv);
        assert(false);
    }
    assert(0 <= uidx < v.alus.len() && !v.alus[uidx].busy);
    assert(v.alus[uidx].current is None);
    lemma_count_true_update(v.alu_flags, fidx, true);
    assert(alu_busy_view(v1.alus) =~= bv.update(uidx, true));
    lemma_count_true_update(bv, uidx, true);
    assert(count_true(v1.alu_flags) == count_true(alu_busy_view(v1.alus)));
    assert(forall|j: int| 0 <= j < v1.queue.len() ==> v1.queue[j] == v.queue[j + 1]);
    // If the instruction writes a register, that register had no in-flight
    // writer before issue.
    if i.rd != 0 {
        assert(!v.reg[i.rd as int]);
        assert(!in_flight(v, i.rd as int));
    }
    assert forall|r: int| 1 <= r < NUM_REGS implies (v1.reg[r] <==> in_flight(v1, r)) by {
        assert(forall|j: int|
            0 <= j < v1.alus.len() && j != uidx ==> v1.alus[j].current == v.alus[j].current);
        assert(v1.alus[uidx].current == Some(i));
        if i.rd == r {
            assert(v1.reg[r]);
            assert(slot_writes(v1.alus[uidx].current, r));
            assert(in_flight(v1, r));
        } else {
            assert(v1.reg[r] == v.reg[r]);
            if in_flight(v, r) {
                if exists|j: int| 0 <= j < v.alus.len() && slot_writes(v.alus[j].current, r) {
                    let j = choose|j: int|
                        0 <= j < v.alus.len() && slot_writes(v.alus[j].current, r);
                    assert(j != uidx);
                    assert(slot_writes(v1.alus[j].current, r));
                }
                assert(in_flight(v1, r));
            }
            if in_flight(v1, r) {
                if exists|j: int| 0 <= j < v1.alus.len() && slot_writes(v1.alus[j].current, r) {
                    let j = choose|j: int|
                        0 <= j < v1.alus.len() && slot_writes(v1.alus[j].current, r);
                    assert(j != uidx);
                    assert(slot_writes(v.alus[j].current, r));
                }
                assert(in_flight(v, r));
            }
        }
    }
    assert(unique_writers(v1)) by {
        assert(forall|j: int|
            0 <= j < v1.alus.len() && j != uidx ==> v1.alus[j].current == v.alus[j].current);
        assert(v1.alus[uidx].current == Some(i));
        if i.rd != 0 {
            assert(!in_flight(v, i.rd as int));
            assert forall|j: int|
                0 <= j < v.alus.len() && j != uidx implies !slot_writes(
                v.alus[j].current,
                i.rd as int,
            ) by {}
            assert forall|j: int| 0 <= j < v.brus.len() implies !slot_writes(
                v.brus[j].current,
                i.rd as int,
            ) by {}
            assert(!slot_writes(v.lsu.current, i.rd as int));
        }
    }
}

/// Issuing the front instruction into the branch pool preserves the
/// dispatch invariant, provided it is hazard-free and a branch slot flag
/// is free.
pub proof fn lemma_issue_front_bru_inv(v: DispatchModel)
    requires
        inv(v),
        v.queue.len() > 0,
        spec_unit_kind(v.queue[0].opcode) == UnitKind::Branch,
        model_can_issue(v, v.queue[0]),
        first_with(v.bru_flags, false, 0) < v.bru_flags.len(),
    ensures
        inv(spec_issue_front_bru(v)),
{
    let i = v.queue[0];
    let v1 = spec_issue_front_bru(v);
    let fidx = first_with(v.bru_flags, false, 0);
    let bv = bru_busy_view(v.brus);
    let uidx = first_with(bv, false, 0);
    lemma_first_with(v.bru_flags, false, 0);
    assert(!v.bru_flags[fidx]);
    lemma_count_true_bounds(v.bru_flags);
    lemma_count_true_extremes(v.bru_flags);
    assert(count_true(v.bru_flags) < v.bru_flags.len());
    lemma_first_with(bv, false, 0);
    if uidx >= bv.len() {
        lemma_count_true_extremes(bv);
        assert(false);
    }
    assert(0 <= uidx < v.brus.len() && !v.brus[uidx].busy);
    assert(v.brus[uidx].current is None);
    lemma_count_true_update(v.bru_flags, fidx, true);
    assert(bru_busy_view(v1.brus) =~= bv.update(uidx, true));
    lemma_count_true_update(bv, uidx, true);
    assert(count_true(v1.bru_flags) == count_true(bru_busy_view(v1.brus)));
    assert(forall|j: int| 0 <= j < v1.queue.len() ==> v1.queue[j] == v.queue[j + 1]);
    if i.rd != 0 {
        assert(!v.reg[i.rd as int]);
        assert(!in_flight(v, i.rd as int));
    }
    assert forall|r: int| 1 <= r < NUM_REGS implies (v1.reg[r] <==> in_flight(v1, r)) by {
        assert(forall|j: int|
            0 <= j < v1.brus.len() && j != uidx ==> v1.brus[j].current == v.brus[j].current);
        assert(v1.brus[uidx].current == Some(i));
        if i.rd == r {
            assert(v1.reg[r]);
            assert(slot_writes(v1.brus[uidx].current, r));
            assert(in_flight(v1, r));
        } else {
            assert(v1.reg[r] == v.reg[r]);
            if in_flight(v, r) {
                if exists|j: int| 0 <= j < v.brus.len() && slot_writes(v.brus[j].current, r) {
                    let j = choose|j: int|
                        0 <= j < v.brus.len() && slot_writes(v.brus[j].current, r);
                    assert(j != uidx);
                    assert(slot_writes(v1.brus[j].current, r));
                }
                assert(in_flight(v1, r));
            }
            if in_flight(v1, r) {
                if exists|j: int| 0 <= j < v1.brus.len() && slot_writes(v1.brus[j].current, r) {
                    let j = choose|j: int|
                        0 <= j < v1.brus.len() && slot_writes(v1.brus[j].current, r);
                    assert(j != uidx);
                    assert(slot_writes(v.brus[j].current, r));
                }
                assert(in_flight(v, r));
            }
        }
    }
    assert(unique_writers(v1)) by {
        assert(forall|j: int|
            0 <= j < v1.brus.len() && j != uidx ==> v1.brus[j].current == v.brus[j].current);
        assert(v1.brus[uidx].current == Some(i));
        if i.rd != 0 {
            assert(!in_flight(v, i.rd as int));
            assert forall|j: int|
                0 <= j < v.brus.len() && j != uidx implies !slot_writes(
                v.brus[j].current,
                i.rd as int,
            ) by {}
            assert forall|j: int| 0 <= j < v.alus.len() implies !slot_writes(
                v.alus[j].current,
                i.rd as int,
            ) by {}
            assert(!slot_writes(v.lsu.current, i.rd as int));
        }
    }
}

/// Issuing the front instruction into the load/store unit preserves the
/// dispatch invariant, provided it is hazard-free and the unit flag is
/// free.
pub proof fn lemma_issue_front_lsu_inv(v: DispatchModel)
    requires
        inv(v),
        v.queue.len() > 0,
        spec_unit_kind(v.queue[0].opcode) == UnitKind::LoadStore,
        model_can_issue(v, v.queue[0]),
        !v.lsu_flag,
    ensures
        inv(spec_issue_front_lsu(v)),
{
    let i = v.queue[0];
    let v1 = spec_issue_front_lsu(v);
    assert(!v.lsu.busy);
    assert(v.lsu.current is None);
    assert(forall|j: int| 0 <= j < v1.queue.len() ==> v1.queue[j] == v.queue[j + 1]);
    if i.rd != 0 {
        assert(!v.reg[i.rd as int]);
        assert(!in_flight(v, i.rd as int));
    }
    assert forall|r: int| 1 <= r < NUM_REGS implies (v1.reg[r] <==> in_flight(v1, r)) by {
        assert(v1.lsu.current == Some(i));
        if i.rd == r {
            assert(v1.reg[r]);
            assert(slot_writes(v1.lsu.current, r));
            assert(in_flight(v1, r));
        } else {
            assert(v1.reg[r] == v.reg[r]);
            assert(slot_writes(v1.lsu.current, r) == slot_writes(v.lsu.current, r));
            assert(in_flight(v1, r) <==> in_flight(v, r));
        }
    }
    assert(unique_writers(v1)) by {
        assert(v1.lsu.current == Some(i));
        if i.rd != 0 {
            assert(!in_flight(v, i.rd as int));
            assert forall|j: int| 0 <= j < v.alus.len() implies !slot_writes(
                v.alus[j].current,
                i.rd as int,
            ) by {}
            assert forall|j: int| 0 <= j < v.brus.len() implies !slot_writes(
                v.brus[j].current,
                i.rd as int,
            ) by {}
        }
    }
}

/// The issue scan preserves the dispatch invariant.
pub proof fn lemma_issue_steps_inv(v: DispatchModel, issued: int)
    requires
        inv(v),
    ensures
        inv(spec_issue_steps(v, issued)),
    decreases v.queue.len(),
{
    if issued >= v.issue_width || v.queue.len() == 0 {
    } else {
        let i = v.queue[0];
        let kind = spec_unit_kind(i.opcode);
        if kind == UnitKind::Unrecognized {
            lemma_drop_front_inv(v);
            lemma_issue_steps_inv(spec_drop_front(v), issued);
        } else if !model_can_issue(v, i) {
            lemma_stall_front_inv(v);
        } else if kind == UnitKind::Alu {
            if first_with(v.alu_flags, false, 0) < v.alu_flags.len() {
                lemma_issue_front_alu_inv(v);
                lemma_issue_steps_inv(spec_issue_front_alu(v), issued + 1);
            }
        } else if kind == UnitKind::Branch {
            if first_with(v.bru_flags, false, 0) < v.bru_flags.len() {
                lemma_issue_front_bru_inv(v);
                lemma_issue_steps_inv(spec_issue_front_bru(v), issued + 1);
            }
        } else {
            if !v.lsu_flag {
                lemma_issue_front_lsu_inv(v);
                lemma_issue_steps_inv(spec_issue_front_lsu(v), issued + 1);
            }
        }
    }
}

/// One whole dispatch tick preserves the dispatch invariant: the hazard
/// discipline is maintained from any well-formed state, at every cycle.
pub proof fn lemma_dispatch_tick_inv(v: DispatchModel)
    requires
        inv(v),
    ensures
        inv(spec_dispatch_tick(v)),
{
    lemma_complete_phase_inv(v);
    lemma_issue_steps_inv(spec_complete_phase(v), 0);
}

/// The bounded FIFO of decoded instructions awaiting issue; insertion
/// order is program order.
pub struct DispatchQueue {
    pub inner: std::collections::VecDeque<Instruction>,
    pub capacity: usize,
}

impl DispatchQueue {
    /// Length never exceeds capacity.
    pub open spec fn wf(self) -> bool {
        self.inner@.len() <= self.capacity
    }

    /// Create an empty dispatch queue with the given capacity.
    pub fn new(capacity: usize) -> (r: DispatchQueue)
        ensures
            r.inner@ =~= Seq::<Instruction>::empty(),
            r.capacity == capacity,
            r.wf(),
    {
        DispatchQueue { inner: std::collections::VecDeque::with_capacity(capacity), capacity }
    }

    /// Push an instruction at the back. Returns whether it was accepted: a
    /// push against a full queue has no effect and returns false.
    pub fn push(&mut self, instr: Instruction) -> (r: bool)
        ensures
            final(self).capacity == old(self).capacity,
            r == (old(self).inner@.len() < old(self).capacity),
            r ==> final(self).inner@ == old(self).inner@.push(instr),
            !r ==> final(self).inner@ == old(self).inner@,
            old(self).wf() ==> final(self).wf(),
    {
        if self.inner.len() < self.capacity {
            self.inner.push_back(instr);
            true
        } else {
            false
        }
    }
}

/// Issue an instruction into the first free unit of an arithmetic pool.
fn issue_first_free_alu(alus: &mut Vec<AluUnit>, instr: Instruction)
    requires
        exists|j: int| 0 <= j < old(alus)@.len() && !old(alus)@[j].busy,
    ensures
        ({
            let uidx = first_with(alu_busy_view(old(alus)@), false, 0);
            &&& 0 <= uidx < old(alus)@.len()
            &&& final(alus)@ == old(alus)@.update(uidx, spec_issued_alu(instr))
        }),
{
    let mut i: usize = 0;
    while i < alus.len()
        invariant
            i <= alus@.len(),
            alus@ == old(alus)@,
            forall|j: int| 0 <= j < i ==> alus@[j].busy,
            exists|j: int| 0 <= j < alus@.len() && !alus@[j].busy,
        decreases alus@.len() - i,
    {
        if !alus[i].busy {
            let mut u: AluUnit = alus[i];
            u.issue(instr);
            alus.set(i, u);
            proof {
                let bv = alu_busy_view(old(alus)@);
                lemma_first_with(bv, false, 0);
                assert(!bv[i as int]);
                assert(first_with(bv, false, 0) == i as int);
                assert(alus@ =~= old(alus)@.update(i as int, spec_issued_alu(instr)));
            }
            return ;
        }
        i = i + 1;
    }
    proof {
        let j = choose|j: int| 0 <= j < alus@.len() && !alus@[j].busy;
        assert(alus@[j].busy);
        assert(false);
    }
}

/// Issue an instruction into the first free unit of a branch pool.
fn issue_first_free_bru(brus: &mut Vec<BruUnit>, instr: Instruction)
    requires
        exists|j: int| 0 <= j < old(brus)@.len() && !old(brus)@[j].busy,
    ensures
        ({
            let uidx = first_with(bru_busy_view(old(brus)@), false, 0);
            &&& 0 <= uidx < old(brus)@.len()
            &&& final(brus)@ == old(brus)@.update(uidx, spec_issued_bru(instr))
        }),
{
    let mut i: usize = 0;
    while i < brus.len()
        invariant
            i <= brus@.len(),
            brus@ == old(brus)@,
            forall|j: int| 0 <= j < i ==> brus@[j].busy,
            exists|j: int| 0 <= j < brus@.len() && !brus@[j].busy,
        decreases brus@.len() - i,
    {
        if !brus[i].busy {
            let mut u: BruUnit = brus[i];
            u.issue(instr);
            brus.set(i, u);
            proof {
                let bv = bru_busy_view(old(brus)@);
                lemma_first_with(bv, false, 0);
                assert(!bv[i as int]);
                assert(first_with(bv, false, 0) == i as int);
                assert(brus@ =~= old(brus)@.update(i as int, spec_issued_bru(instr)));
            }
            return ;
        }
        i = i + 1;
    }
    proof {
        let j = choose|j: int| 0 <= j < brus@.len() && !brus@[j].busy;
        assert(brus@[j].busy);
        assert(false);
    }
}

/// The dispatch stage: queue, scoreboard, and the pools of execution
/// units.
pub struct DispatchStage {
    pub queue: DispatchQueue,
    pub scoreboard: Scoreboard,
    pub alus: Vec<AluUnit>,
    pub brus: Vec<BruUnit>,
    pub lsu: LsuUnit,
    pub issue_width: u8,
}

impl View for DispatchStage {
    type V = DispatchModel;

    /// The stage's mathematical model.
    open spec fn view(&self) -> DispatchModel {
        DispatchModel {
            queue: self.queue.inner@,
            queue_capacity: self.queue.capacity as int,
            reg: self.scoreboard.reg_busy@,
            pending: self.scoreboard.pending_busy@,
            alu_flags: self.scoreboard.alu_busy@,
            bru_flags: self.scoreboard.bru_busy@,
            lsu_flag: self.scoreboard.lsu_busy,
            alus: self.alus@,
            brus: self.brus@,
            lsu: self.lsu,
            issue_width: self.issue_width as int,
        }
    }
}

impl DispatchStage {
    /// The dispatch invariant, over the stage's model.
    pub open spec fn wf(self) -> bool {
        inv(self@)
    }

    /// Create a dispatch stage with an 8-entry queue, four arithmetic
    /// units, four branch units, one load/store unit, and an issue width
    /// of four.
    pub fn new() -> (r: DispatchStage)
        ensures
            r.wf(),
            r@.queue =~= Seq::<Instruction>::empty(),
            r@.queue_capacity == 8,
            r@.alus.len() == 4,
            r@.brus.len() == 4,
            r@.issue_width == 4,
            forall|k: int| 0 <= k < 4 ==> !r@.alus[k].busy,
            forall|k: int| 0 <= k < 4 ==> !r@.brus[k].busy,
            !r@.lsu.busy,
            forall|j: int| 0 <= j < NUM_REGS ==> !r@.reg[j] && !r@.pending[j],
    {
        let queue = DispatchQueue::new(8);
        let scoreboard = Scoreboard::new(4, 4);
        let mut alus: Vec<AluUnit> = Vec::new();
        let mut brus: Vec<BruUnit> = Vec::new();
        let mut k: usize = 0;
        while k < 4
            invariant
                k <= 4,
                alus@.len() == k,
                brus@.len() == k,
                forall|j: int|
                    0 <= j < k ==> !(#[trigger] alus@[j]).busy && alus@[j].current is None,
                forall|j: int|
                    0 <= j < k ==> !(#[trigger] brus@[j]).busy && brus@[j].current is None,
            decreases 4 - k,
        {
            alus.push(AluUnit::new());
            brus.push(BruUnit::new());
            k = k + 1;
        }
        let r = DispatchStage { queue, scoreboard, alus, brus, lsu: LsuUnit::new(), issue_width: 4 };
        proof {
            assert(alu_busy_view(r@.alus) =~= Seq::new(4nat, |j: int| false));
            assert(bru_busy_view(r@.brus) =~= Seq::new(4nat, |j: int| false));
            lemma_count_true_extremes(r@.alu_flags);
            lemma_count_true_extremes(r@.bru_flags);
            lemma_count_true_extremes(alu_busy_view(r@.alus));
            lemma_count_true_extremes(bru_busy_view(r@.brus));
            assert forall|r0: int| 1 <= r0 < NUM_REGS implies (r@.reg[r0] <==> in_flight(
                r@,
                r0,
            )) by {
                assert(!in_flight(r@, r0));
            }
        }
        r
    }

    /// One cycle of the dispatch stage: the completion phase (every unit
    /// advances one cycle; completed instructions free their unit slot and
    /// clear their destination's committed-busy flag), then the in-order
    /// issue scan from the front of the queue, exactly as
    /// `spec_dispatch_tick` states. The hazard invariants are preserved.
    pub fn tick(&mut self)
        requires
            old(self).wf(),
        ensures
            final(self).wf(),
            final(self)@ == spec_dispatch_tick(old(self)@),
    {
        let ghost v0: DispatchModel = self@;
        // Completion: arithmetic units, in index order.
        let mut k: usize = 0;
        while k < self.alus.len()
            invariant
                inv(v0),
                k <= self.alus@.len(),
                self@ =~= spec_complete_alus(v0, k as int),
                self.alus@.len() == v0.alus.len(),
            decreases self.alus@.len() - k,
        {
            proof {
                lemma_complete_alus_inv(v0, k as int);
            }
            let ghost vp: DispatchModel = self@;
            let mut u: AluUnit = self.alus[k];
            let done: Option<Instruction> = u.tick();
            self.alus.set(k, u);
            match done {
                Some(instr) => {
                    proof {
                        assert(vp.alus[k as int].current == Some(instr));
                        assert(regs_in_range(instr));
                        assert(spec_unit_kind(instr.opcode) == UnitKind::Alu);
                    }
                    self.scoreboard.mark_complete(&instr);
                    proof {
                        let bv = alu_busy_view(vp.alus);
                        assert(bv[k as int]);
                        lemma_count_true_extremes(bv);
                        lemma_count_true_bounds(bv);
                        assert(count_true(vp.alu_flags) >= 1);
                        lemma_count_true_extremes(vp.alu_flags);
                        assert(exists|j: int| 0 <= j < vp.alu_flags.len() && vp.alu_flags[j]);
                    }
                    self.scoreboard.release_unit(&instr);
                    proof {
                        let flags = vp.alu_flags;
                        let w = choose|i: int|
                            {
                                &&& 0 <= i < flags.len()
                                &&& flags[i]
                                &&& (forall|j: int| 0 <= j < i ==> !flags[j])
                                &&& self.scoreboard.alu_busy@ == flags.update(i, false)
                            };
                        lemma_first_with(flags, true, 0);
                        assert(w == first_with(flags, true, 0));
                        assert(self.scoreboard.alu_busy@ == spec_release_flags(flags));
                        assert(self@ =~= spec_complete_alu_at(vp, k as int));
                    }
                },
                None => {
                    proof {
                        assert(self@ =~= spec_complete_alu_at(vp, k as int));
                    }
                },
            }
            proof {
                assert(spec_complete_alus(v0, k as int + 1) == spec_complete_alu_at(
                    spec_complete_alus(v0, k as int),
                    k as int,
                ));
            }
            k = k + 1;
        }
        proof {
            assert(self@ =~= spec_complete_alus(v0, v0.alus.len() as int));
            lemma_complete_alus_inv(v0, v0.alus.len() as int);
        }
        // Completion: branch units, in index order.
        let ghost va: DispatchModel = self@;
        let mut k: usize = 0;
        while k < self.brus.len()
            invariant
                inv(va),
                k <= self.brus@.len(),
                self@ =~= spec_complete_brus(va, k as int),
                self.brus@.len() == va.brus.len(),
            decreases self.brus@.len() - k,
        {
            proof {
                lemma_complete_brus_inv(va, k as int);
            }
            let ghost vp: DispatchModel = self@;
            let mut u: BruUnit = self.brus[k];
            let done: Option<Instruction> = u.tick();
            self.brus.set(k, u);
            match done {
                Some(instr) => {
                    proof {
                        assert(vp.brus[k as int].current == Some(instr));
                        assert(regs_in_range(instr));
                        assert(spec_unit_kind(instr.opcode) == UnitKind::Branch);
                    }
                    self.scoreboard.mark_complete(&instr);
                    proof {
                        let bv = bru_busy_view(vp.brus);
                        assert(bv[k as int]);
                        lemma_count_true_extremes(bv);
                        lemma_count_true_bounds(bv);
                        assert(count_true(vp.bru_flags) >= 1);
                        lemma_count_true_extremes(vp.bru_flags);
                        assert(exists|j: int| 0 <= j < vp.bru_flags.len() && vp.bru_flags[j]);
                    }
                    self.scoreboard.release_unit(&instr);
                    proof {
                        let flags = vp.bru_flags;
                        let w = choose|i: int|
                            {
                                &&& 0 <= i < flags.len()
                                &&& flags[i]
                                &&& (forall|j: int| 0 <= j < i ==> !flags[j])
                                &&& self.scoreboard.bru_busy@ == flags.update(i, false)
                            };
                        lemma_first_with(flags, true, 0);
                        assert(w == first_with(flags, true, 0));
                        assert(self.scoreboard.bru_busy@ == spec_release_flags(flags));
                        assert(self@ =~= spec_complete_bru_at(vp, k as int));
                    }
                },
                None => {
                    proof {
                        assert(self@ =~= spec_complete_bru_at(vp, k as int));
                    }
                },
            }
            proof {
                assert(spec_complete_brus(va, k as int + 1) == spec_complete_bru_at(
                    spec_complete_brus(va, k as int),
                    k as int,
                ));
            }
            k = k + 1;
        }
        proof {
            assert(self@ =~= spec_complete_brus(va, va.brus.len() as int));
            lemma_complete_brus_inv(va, va.brus.len() as int);
        }
        // Completion: the load/store unit.
        let ghost vb: DispatchModel = self@;
        let done: Option<Instruction> = self.lsu.tick();
        match done {
            Some(instr) => {
                proof {
                    assert(vb.lsu.current == Some(instr));
                    assert(regs_in_range(instr));
                    assert(spec_unit_kind(instr.opcode) == UnitKind::LoadStore);
                }
                self.scoreboard.mark_complete(&instr);
                self.scoreboard.release_unit(&instr);
                proof {
                    assert(self@ =~= spec_complete_lsu(vb));
                }
            },
            None => {
                proof {
                    assert(self@ =~= spec_complete_lsu(vb));
                }
            },
        }
        proof {
            lemma_complete_lsu_inv(vb);
            assert(self@ =~= spec_complete_phase(v0));
        }
        // Issue scan: strictly in program order, stopping at the first
        // stalled instruction, up to `issue_width` issues.
        let ghost vc: DispatchModel = self@;
        let mut issued: u8 = 0;
        loop
            invariant_except_break
                inv(vc),
                inv(self@),
                self.issue_width == vc.issue_width,
                spec_issue_steps(vc, 0) == spec_issue_steps(self@, issued as int),
            ensures
                inv(self@),
                self@ == spec_issue_steps(vc, 0),
            decreases self.queue.inner@.len(),
        {
            if issued >= self.issue_width {
                proof {
                    assert(spec_issue_steps(self@, issued as int) == self@);
                }
                break ;
            }
            if self.queue.inner.len() == 0 {
                proof {
                    assert(spec_issue_steps(self@, issued as int) == self@);
                }
                break ;
            }
            let ghost vpre: DispatchModel = self@;
            let instr: Instruction = self.queue.inner.pop_front().unwrap();
            proof {
                assert(instr == vpre.queue[0]);
                assert(regs_in_range(instr));
            }
            let kind = unit_kind(instr.opcode);
            if kind == UnitKind::Unrecognized {
                // Dropped as a consumed no-op: no unit, no flags.
                proof {
                    assert(self@ =~= spec_drop_front(vpre));
                    lemma_drop_front_inv(vpre);
                    assert(spec_issue_steps(vpre, issued as int) == spec_issue_steps(
                        self@,
                        issued as int,
                    ));
                }
            } else if !self.scoreboard.can_issue(&instr) {
                // Data hazard: mark the destination predicted busy, leave
                // the instruction at the front, and stop the scan.
                self.scoreboard.predict_issue(&instr);
                self.queue.inner.push_front(instr);
                proof {
                    assert(self@.queue =~= vpre.queue);
                    assert(self@ =~= spec_stall_front(vpre));
                    lemma_stall_front_inv(vpre);
                    assert(spec_issue_steps(vpre, issued as int) == spec_stall_front(vpre));
                }
                break ;
            } else {
                let allocated = self.scoreboard.allocate_unit(&instr);
                if !allocated {
                    // No free unit of the class: leave the instruction at
                    // the front and stop the scan.
                    self.queue.inner.push_front(instr);
                    proof {
                        assert(self@.queue =~= vpre.queue);
                        assert(self@ =~= vpre);
                        if spec_unit_kind(instr.opcode) == UnitKind::Alu {
                            lemma_first_with(vpre.alu_flags, false, 0);
                        } else if spec_unit_kind(instr.opcode) == UnitKind::Branch {
                            lemma_first_with(vpre.bru_flags, false, 0);
                        }
                        assert(spec_issue_steps(vpre, issued as int) == vpre);
                    }
                    break ;
                }
                self.scoreboard.mark_issue(&instr);
                if kind == UnitKind::Alu {
                    proof {
                        let flags = vpre.alu_flags;
                        let w = choose|i: int|
                            {
                                &&& 0 <= i < flags.len()
                                &&& !flags[i]
                                &&& (forall|j: int| 0 <= j < i ==> flags[j])
                                &&& self.scoreboard.alu_busy@ == flags.update(i, true)
                            };
                        lemma_first_with(flags, false, 0);
                        assert(w == first_with(flags, false, 0));
                        lemma_count_true_update(flags, w, true);
                        lemma_count_true_extremes(alu_busy_view(vpre.alus));
                        lemma_count_true_bounds(flags);
                        lemma_count_true_extremes(flags);
                        assert(!flags[w] && count_true(flags) != flags.len());
                        assert(count_true(alu_busy_view(vpre.alus)) < alu_busy_view(
                            vpre.alus,
                        ).len());
                        assert(exists|j: int|
                            0 <= j < vpre.alus.len() && !vpre.alus[j].busy) by {
                            lemma_first_with(alu_busy_view(vpre.alus), false, 0);
                            let f = first_with(alu_busy_view(vpre.alus), false, 0);
                            if f >= vpre.alus.len() {
                                lemma_count_true_extremes(alu_busy_view(vpre.alus));
                                assert(false);
                            }
                            assert(!vpre.alus[f].busy);
                        }
                    }
                    issue_first_free_alu(&mut self.alus, instr);
                    proof {
                        assert(self@ =~= spec_issue_front_alu(vpre));
                        lemma_issue_front_alu_inv(vpre);
                        assert(spec_issue_steps(vpre, issued as int) == spec_issue_steps(
                            self@,
                            issued as int + 1,
                        ));
                    }
                } else if kind == UnitKind::Branch {
                    proof {
                        let flags = vpre.bru_flags;
                        let w = choose|i: int|
                            {
                                &&& 0 <= i < flags.len()
                                &&& !flags[i]
                                &&& (forall|j: int| 0 <= j < i ==> flags[j])
                                &&& self.scoreboard.bru_busy@ == flags.update(i, true)
                            };
                        lemma_first_with(flags, false, 0);
                        assert(w == first_with(flags, false, 0));
                        lemma_count_true_update(flags, w, true);
                        lemma_count_true_extremes(bru_busy_view(vpre.brus));
                        lemma_count_true_bounds(flags);
                        lemma_count_true_extremes(flags);
                        assert(!flags[w] && count_true(flags) != flags.len());
                        assert(count_true(bru_busy_view(vpre.brus)) < bru_busy_view(
                            vpre.brus,
                        ).len());
                        assert(exists|j: int|
                            0 <= j < vpre.brus.len() && !vpre.brus[j].busy) by {
                            lemma_first_with(bru_busy_view(vpre.brus), false, 0);
                            let f = first_with(bru_busy_view(vpre.brus), false, 0);
                            if f >= vpre.brus.len() {
                                lemma_count_true_extremes(bru_busy_view(vpre.brus));
                                assert(false);
                            }
                            assert(!vpre.brus[f].busy);
                        }
                    }
                    issue_first_free_bru(&mut self.brus, instr);
                    proof {
                        assert(self@ =~= spec_issue_front_bru(vpre));
                        lemma_issue_front_bru_inv(vpre);
                        assert(spec_issue_steps(vpre, issued as int) == spec_issue_steps(
                            self@,
                            issued as int + 1,
                        ));
                    }
                } else {
                    proof {
                        assert(kind == UnitKind::LoadStore);
                        assert(!vpre.lsu_flag);
                        assert(!self.lsu.busy);
                    }
                    self.lsu.issue(instr);
                    proof {
                        assert(self@ =~= spec_issue_front_lsu(vpre));
                        lemma_issue_front_lsu_inv(vpre);
                        assert(spec_issue_steps(vpre, issued as int) == spec_issue_steps(
                            self@,
                            issued as int + 1,
                        ));
                    }
                }
                issued = issued + 1;
            }
        }
        proof {
            assert(self@ == spec_issue_steps(spec_complete_phase(v0), 0));
        }
    }
}

/// The issue scan drains the queue from the front and never reorders it:
/// what remains after the scan is a suffix of what was queued.
pub proof fn lemma_issue_steps_drains_in_order(v: DispatchModel, issued: int)
    ensures
        exists|m: int|
            0 <= m <= v.queue.len() && spec_issue_steps(v, issued).queue == v.queue.skip(m),
    decreases v.queue.len(),
{
    let r = spec_issue_steps(v, issued);
    if issued >= v.issue_width || v.queue.len() == 0 {
        assert(r.queue == v.queue.skip(0));
    } else {
        let i = v.queue[0];
        let kind = spec_unit_kind(i.opcode);
        if kind == UnitKind::Unrecognized {
            lemma_issue_steps_drains_in_order(spec_drop_front(v), issued);
            let m = choose|m: int|
                0 <= m <= v.queue.skip(1).len() && spec_issue_steps(spec_drop_front(v), issued).queue
                    == v.queue.skip(1).skip(m);
            assert(v.queue.skip(1).skip(m) =~= v.queue.skip(m + 1));
            assert(r.queue == v.queue.skip(m + 1));
        } else if !model_can_issue(v, i) {
            assert(r.queue == v.queue.skip(0));
        } else if kind == UnitKind::Alu {
            if first_with(v.alu_flags, false, 0) >= v.alu_flags.len() {
                assert(r.queue == v.queue.skip(0));
            } else {
                lemma_issue_steps_drains_in_order(spec_issue_front_alu(v), issued + 1);
                let m = choose|m: int|
                    0 <= m <= v.queue.skip(1).len() && spec_issue_steps(
                        spec_issue_front_alu(v),
                        issued + 1,
                    ).queue == v.queue.skip(1).skip(m);
                assert(v.queue.skip(1).skip(m) =~= v.queue.skip(m + 1));
                assert(r.queue == v.queue.skip(m + 1));
            }
        } else if kind == UnitKind::Branch {
            if first_with(v.bru_flags, false, 0) >= v.bru_flags.len() {
                assert(r.queue == v.queue.skip(0));
            } else {
                lemma_issue_steps_drains_in_order(spec_issue_front_bru(v), issued + 1);
                let m = choose|m: int|
                    0 <= m <= v.queue.skip(1).len() && spec_issue_steps(
                        spec_issue_front_bru(v),
                        issued + 1,
                    ).queue == v.queue.skip(1).skip(m);
                assert(v.queue.skip(1).skip(m) =~= v.queue.skip(m + 1));
                assert(r.queue == v.queue.skip(m + 1));
            }
        } else {
            if v.lsu_flag {
                assert(r.queue == v.queue.skip(0));
            } else {
                lemma_issue_steps_drains_in_order(spec_issue_front_lsu(v), issued + 1);
                let m = choose|m: int|
                    0 <= m <= v.queue.skip(1).len() && spec_issue_steps(
                        spec_issue_front_lsu(v),
                        issued + 1,
                    ).queue == v.queue.skip(1).skip(m);
                assert(v.queue.skip(1).skip(m) =~= v.queue.skip(m + 1));
                assert(r.queue == v.queue.skip(m + 1));
            }
        }
    }
}

/// The issue scan never disturbs an occupied unit slot: instructions issue
/// only into free slots, so whatever a unit held when the scan began, it
/// still holds when the scan ends.
pub proof fn lemma_issue_steps_preserves_busy(v: DispatchModel, issued: int)
    requires
        inv(v),
    ensures
        spec_issue_steps(v, issued).alus.len() == v.alus.len(),
        spec_issue_steps(v, issued).brus.len() == v.brus.len(),
        forall|k: int|
            0 <= k < v.alus.len() && (#[trigger] v.alus[k]).busy ==> spec_issue_steps(
                v,
                issued,
            ).alus[k] == v.alus[k],
        forall|k: int|
            0 <= k < v.brus.len() && (#[trigger] v.brus[k]).busy ==> spec_issue_steps(
                v,
                issued,
            ).brus[k] == v.brus[k],
        v.lsu.busy ==> spec_issue_steps(v, issued).lsu == v.lsu,
    decreases v.queue.len(),
{
    let r = spec_issue_steps(v, issued);
    if issued >= v.issue_width || v.queue.len() == 0 {
    } else {
        let i = v.queue[0];
        let kind = spec_unit_kind(i.opcode);
        if kind == UnitKind::Unrecognized {
            let v2 = spec_drop_front(v);
            lemma_drop_front_inv(v);
            lemma_issue_steps_preserves_busy(v2, issued);
            assert forall|k: int|
                0 <= k < v.alus.len() && (#[trigger] v.alus[k]).busy implies r.alus[k]
                == v.alus[k] by {
                assert(v2.alus[k] == v.alus[k]);
            }
            assert forall|k: int|
                0 <= k < v.brus.len() && (#[trigger] v.brus[k]).busy implies r.brus[k]
                == v.brus[k] by {
                assert(v2.brus[k] == v.brus[k]);
            }
        } else if !model_can_issue(v, i) {
        } else if kind == UnitKind::Alu {
            if first_with(v.alu_flags, false, 0) < v.alu_flags.len() {
                let v2 = spec_issue_front_alu(v);
                let bv = alu_busy_view(v.alus);
                let uidx = first_with(bv, false, 0);
                lemma_first_with(v.alu_flags, false, 0);
                lemma_count_true_bounds(v.alu_flags);
                lemma_count_true_extremes(v.alu_flags);
                lemma_first_with(bv, false, 0);
                if uidx >= bv.len() {
                    lemma_count_true_extremes(bv);
                    assert(false);
                }
                assert(!v.alus[uidx].busy);
                lemma_issue_front_alu_inv(v);
                lemma_issue_steps_preserves_busy(v2, issued + 1);
                assert forall|k: int|
                    0 <= k < v.alus.len() && (#[trigger] v.alus[k]).busy implies r.alus[k]
                    == v.alus[k] by {
                    assert(k != uidx);
                    assert(v2.alus[k] == v.alus[k]);
                }
                assert forall|k: int|
                    0 <= k < v.brus.len() && (#[trigger] v.brus[k]).busy implies r.brus[k]
                    == v.brus[k] by {
                    assert(v2.brus[k] == v.brus[k]);
                }
            }
        } else if kind == UnitKind::Branch {
            if first_with(v.bru_flags, false, 0) < v.bru_flags.len() {
                let v2 = spec_issue_front_bru(v);
                let bv = bru_busy_view(v.brus);
                let uidx = first_with(bv, false, 0);
                lemma_first_with(v.bru_flags, false, 0);
                lemma_count_true_bounds(v.bru_flags);
                lemma_count_true_extremes(v.bru_flags);
                lemma_first_with(bv, false, 0);
                if uidx >= bv.len() {
                    lemma_count_true_extremes(bv);
                    assert(false);
                }
                assert(!v.brus[uidx].busy);
                lemma_issue_front_bru_inv(v);
                lemma_issue_steps_preserves_busy(v2, issued + 1);
                assert forall|k: int|
                    0 <= k < v.alus.len() && (#[trigger] v.alus[k]).busy implies r.alus[k]
                    == v.alus[k] by {
                    assert(v2.alus[k] == v.alus[k]);
                }
                assert forall|k: int|
                    0 <= k < v.brus.len() && (#[trigger] v.brus[k]).busy implies r.brus[k]
                    == v.brus[k] by {
                    assert(k != uidx);
                    assert(v2.brus[k] == v.brus[k]);
                }
            }
        } else {
            if !v.lsu_flag {
                let v2 = spec_issue_front_lsu(v);
                lemma_issue_front_lsu_inv(v);
                lemma_issue_steps_preserves_busy(v2, issued + 1);
                assert forall|k: int|
                    0 <= k < v.alus.len() && (#[trigger] v.alus[k]).busy implies r.alus[k]
                    == v.alus[k] by {
                    assert(v2.alus[k] == v.alus[k]);
                }
                assert forall|k: int|
                    0 <= k < v.brus.len() && (#[trigger] v.brus[k]).busy implies r.brus[k]
                    == v.brus[k] by {
                    assert(v2.brus[k] == v.brus[k]);
                }
            }
        }
    }
}

/// Issue progress: with an issue slot left this tick, a hazard-free
/// recognized instruction at the front of the queue, and a free unit slot
/// of its class, the instruction issues this very tick — it leaves the
/// queue and, when the scan ends, an occupied unit of its class holds it.
/// This is the per-cycle progress half of the end-to-end behaviour; the
/// full run is determined by iterating the tick state equations.
pub proof fn lemma_front_issue_progress(v: DispatchModel, issued: int)
    requires
        inv(v),
        issued < v.issue_width,
        v.queue.len() > 0,
        spec_unit_kind(v.queue[0].opcode) != UnitKind::Unrecognized,
        model_can_issue(v, v.queue[0]),
        spec_unit_kind(v.queue[0].opcode) == UnitKind::Alu ==> first_with(v.alu_flags, false, 0)
            < v.alu_flags.len(),
        spec_unit_kind(v.queue[0].opcode) == UnitKind::Branch ==> first_with(v.bru_flags, false, 0)
            < v.bru_flags.len(),
        spec_unit_kind(v.queue[0].opcode) == UnitKind::LoadStore ==> !v.lsu_flag,
    ensures
        exists|m: int|
            1 <= m <= v.queue.len() && spec_issue_steps(v, issued).queue == v.queue.skip(m),
        spec_unit_kind(v.queue[0].opcode) == UnitKind::Alu ==> exists|k: int|
            0 <= k < spec_issue_steps(v, issued).alus.len() && spec_issue_steps(v, issued).alus[k].current
                == Some(v.queue[0]),
        spec_unit_kind(v.queue[0].opcode) == UnitKind::Branch ==> exists|k: int|
            0 <= k < spec_issue_steps(v, issued).brus.len() && spec_issue_steps(v, issued).brus[k].current
                == Some(v.queue[0]),
        spec_unit_kind(v.queue[0].opcode) == UnitKind::LoadStore ==> spec_issue_steps(
            v,
            issued,
        ).lsu.current == Some(v.queue[0]),
{
    let i = v.queue[0];
    let kind = spec_unit_kind(i.opcode);
    let r = spec_issue_steps(v, issued);
    if kind == UnitKind::Alu {
        let v2 = spec_issue_front_alu(v);
        let bv = alu_busy_view(v.alus);
        let uidx = first_with(bv, false, 0);
        lemma_first_with(v.alu_flags, false, 0);
        lemma_count_true_bounds(v.alu_flags);
        lemma_count_true_extremes(v.alu_flags);
        lemma_first_with(bv, false, 0);
        if uidx >= bv.len() {
            lemma_count_true_extremes(bv);
            assert(false);
        }
        assert(v2.alus[uidx].busy && v2.alus[uidx].current == Some(i));
        lemma_issue_front_alu_inv(v);
        lemma_issue_steps_preserves_busy(v2, issued + 1);
        assert(r.alus[uidx] == v2.alus[uidx]);
        lemma_issue_steps_drains_in_order(v2, issued + 1);
        let m = choose|m: int|
            0 <= m <= v2.queue.len() && spec_issue_steps(v2, issued + 1).queue == v2.queue.skip(m);
        assert(v.queue.skip(1).skip(m) =~= v.queue.skip(m + 1));
        assert(r.queue == v.queue.skip(m + 1));
    } else if kind == UnitKind::Branch {
        let v2 = spec_issue_front_bru(v);
        let bv = bru_busy_view(v.brus);
        let uidx = first_with(bv, false, 0);
        lemma_first_with(v.bru_flags, false, 0);
        lemma_count_true_bounds(v.bru_flags);
        lemma_count_true_extremes(v.bru_flags);
        lemma_first_with(bv, false, 0);
        if uidx >= bv.len() {
            lemma_count_true_extremes(bv);
            assert(false);
        }
        assert(v2.brus[uidx].busy && v2.brus[uidx].current == Some(i));
        lemma_issue_front_bru_inv(v);
        lemma_issue_steps_preserves_busy(v2, issued + 1);
        assert(r.brus[uidx] == v2.brus[uidx]);
        lemma_issue_steps_drains_in_order(v2, issued + 1);
        let m = choose|m: int|
            0 <= m <= v2.queue.len() && spec_issue_steps(v2, issued + 1).queue == v2.queue.skip(m);
        assert(v.queue.skip(1).skip(m) =~= v.queue.skip(m + 1));
        assert(r.queue == v.queue.skip(m + 1));
    } else {
        let v2 = spec_issue_front_lsu(v);
        assert(v2.lsu.busy && v2.lsu.current == Some(i));
        lemma_issue_front_lsu_inv(v);
        lemma_issue_steps_preserves_busy(v2, issued + 1);
        assert(r.lsu == v2.lsu);
        lemma_issue_steps_drains_in_order(v2, issued + 1);
        let m = choose|m: int|
            0 <= m <= v2.queue.len() && spec_issue_steps(v2, issued + 1).queue == v2.queue.skip(m);
        assert(v.queue.skip(1).skip(m) =~= v.queue.skip(m + 1));
        assert(r.queue == v.queue.skip(m + 1));
    }
}

/// Every unit slot of the stage, across all three pools, in a fixed order:
/// the arithmetic pool, the branch pool, then the load/store unit.
pub open spec fn all_slots(v: DispatchModel) -> Seq<Option<Instruction>> {
    v.alus.map_values(|u: AluUnit| u.current) + v.brus.map_values(|u: BruUnit| u.current) + seq![
        v.lsu.current,
    ]
}

/// No double claim of a destination: in a well-formed dispatch stage, no
/// two distinct occupied unit slots hold instructions with the same
/// non-zero destination register. Since `new` establishes the invariant
/// and `tick` preserves it, this holds at every cycle of every run.
pub proof fn lemma_no_double_claim(v: DispatchModel, k1: int, k2: int, r: int)
    requires
        inv(v),
        0 <= k1 < all_slots(v).len(),
        0 <= k2 < all_slots(v).len(),
        k1 != k2,
        1 <= r < NUM_REGS,
        slot_writes(all_slots(v)[k1], r),
    ensures
        !slot_writes(all_slots(v)[k2], r),
{
    let na = v.alus.len() as int;
    let nb = v.brus.len() as int;
    assert(forall|k: int|
        0 <= k < na ==> all_slots(v)[k] == v.alus[k].current);
    assert(forall|k: int|
        na <= k < na + nb ==> all_slots(v)[k] == v.brus[k - na].current);
    assert(all_slots(v)[na + nb] == v.lsu.current);
}

/// An in-flight write blocks dependent issue: while any unit slot holds an
/// uncompleted instruction writing register `r`, no instruction reading or
/// writing `r` passes the hazard check. Together with the issue scan
/// (which issues only instructions that pass it, in program order), a
/// register's writer must complete — clearing its scoreboard entry —
/// before any later instruction naming that register issues.
pub proof fn lemma_in_flight_write_blocks_issue(v: DispatchModel, i: Instruction, r: int)
    requires
        inv(v),
        1 <= r < NUM_REGS,
        in_flight(v, r),
        i.rs1 == r || i.rs2 == r || i.rd == r,
    ensures
        !model_can_issue(v, i),
{
    assert(v.reg[r]);
}

} // verus!
