use scalar_frontend::Itcm;
use scalar_frontend::ScalarFrontend;

/// Destination registers currently held by occupied unit slots.
fn in_flight_rds(f: &ScalarFrontend) -> Vec<u8> {
    let mut rds: Vec<u8> = Vec::new();
    for alu in &f.dispatch.alus {
        if let Some(i) = alu.current {
            rds.push(i.rd);
        }
    }
    for bru in &f.dispatch.brus {
        if let Some(i) = bru.current {
            rds.push(i.rd);
        }
    }
    if let Some(i) = f.dispatch.lsu.current {
        rds.push(i.rd);
    }
    rds
}

/// No two occupied unit slots claim the same non-zero destination, and the
/// committed-busy table matches the in-flight writes exactly.
fn assert_no_hazard_violation(f: &ScalarFrontend) {
    let rds = in_flight_rds(f);
    for (a, &r1) in rds.iter().enumerate() {
        for (b, &r2) in rds.iter().enumerate() {
            if a != b && r1 != 0 {
                assert_ne!(r1, r2, "destination register double-claimed");
            }
        }
    }
    for r in 1..32u8 {
        let claimed = rds.contains(&r);
        assert_eq!(
            f.dispatch.scoreboard.reg_busy[r as usize],
            claimed,
            "committed-busy flag out of step with the units"
        );
    }
    assert!(!f.dispatch.scoreboard.reg_busy[0]);
    assert!(!f.dispatch.scoreboard.pending_busy[0]);
}

#[test]
fn dependency_chain_issues_strictly_after_completion() {
    // add x5, x1, x2 ; add x6, x5, x3 ; add x7, x6, x4
    let words: Vec<u32> = vec![0x002082B3, 0x00328333, 0x004303B3];
    let mut f = ScalarFrontend::with_itcm(Itcm::from_words(&words, 1));
    let mut first_seen: [Option<usize>; 32] = [None; 32];
    for cycle in 1..=10usize {
        f.tick();
        assert_no_hazard_violation(&f);
        for rd in in_flight_rds(&f) {
            if first_seen[rd as usize].is_none() {
                first_seen[rd as usize] = Some(cycle);
            }
        }
    }
    // Each link of the chain issues only after its predecessor's two
    // unit-latency cycles have elapsed.
    assert_eq!(first_seen[5], Some(2));
    assert_eq!(first_seen[6], Some(4));
    assert_eq!(first_seen[7], Some(6));
}

#[test]
fn end_to_end_nop_addi_add() {
    // nop ; addi x1, x0, 1 ; add x2, x1, x1
    let words: Vec<u32> = vec![0x00000013, 0x00100093, 0x00108133];
    let mut f = ScalarFrontend::with_itcm(Itcm::from_words(&words, 1));
    let mut x1_in_flight_cycles: Vec<usize> = Vec::new();
    let mut x2_first_issue: Option<usize> = None;
    for cycle in 1..=12usize {
        f.tick();
        assert_no_hazard_violation(&f);
        let rds = in_flight_rds(&f);
        if rds.contains(&1) {
            x1_in_flight_cycles.push(cycle);
        }
        if x2_first_issue.is_none() && rds.contains(&2) {
            x2_first_issue = Some(cycle);
            // x2's producer issues only after x1's producer completed:
            // x1's write is no longer in flight.
            assert!(!rds.contains(&1));
            assert!(!f.dispatch.scoreboard.reg_busy[1]);
        }
    }
    // x1's producer was in flight at cycles 2 and 3, completing at the
    // start of cycle 4; x2's producer issues that same cycle, after the
    // completion phase.
    assert_eq!(x1_in_flight_cycles, vec![2, 3]);
    assert_eq!(x2_first_issue, Some(4));
}

#[test]
fn preloaded_program_runs_hazard_free() {
    let mut f = ScalarFrontend::new();
    let mut first_seen: [Option<usize>; 32] = [None; 32];
    let mut lsu_first_busy: Option<usize> = None;
    for cycle in 1..=20usize {
        f.tick();
        assert_no_hazard_violation(&f);
        for rd in in_flight_rds(&f) {
            if first_seen[rd as usize].is_none() {
                first_seen[rd as usize] = Some(cycle);
            }
        }
        if lsu_first_busy.is_none() && f.dispatch.lsu.busy {
            lsu_first_busy = Some(cycle);
        }
    }
    // The preloaded program opens with a three-long dependency chain: each
    // link issues two cycles (one unit latency) after its predecessor.
    assert_eq!(first_seen[5], Some(2));
    assert_eq!(first_seen[6], Some(4));
    assert_eq!(first_seen[7], Some(6));
    // The store that reads x7 issues into the load/store unit the cycle
    // x7's producer completes.
    assert_eq!(lsu_first_busy, Some(8));
}

#[test]
fn unrecognized_words_are_dropped_not_stuck() {
    // A program of nothing but unrecognized words must drain through the
    // queue without ever occupying a unit or wedging the pipeline.
    let words: Vec<u32> = vec![0, 0, 0, 0, 0, 0, 0, 0];
    let mut f = ScalarFrontend::with_itcm(Itcm::from_words(&words, 1));
    for _ in 0..8 {
        f.tick();
        assert!(in_flight_rds(&f).is_empty());
        assert_no_hazard_violation(&f);
    }
    assert_eq!(f.dispatch.queue.inner.len(), 0);
}

#[test]
fn memory_latency_stalls_fetch_not_state() {
    // With a 3-cycle memory, the first words reach the units later, but
    // nothing is corrupted while lanes wait.
    let words: Vec<u32> = vec![0x002082B3];
    let mut f = ScalarFrontend::with_itcm(Itcm::from_words(&words, 3));
    let mut first_seen_x5: Option<usize> = None;
    for cycle in 1..=8usize {
        f.tick();
        assert_no_hazard_violation(&f);
        if first_seen_x5.is_none() && in_flight_rds(&f).contains(&5) {
            first_seen_x5 = Some(cycle);
        }
    }
    // Read issued at cycle 1, polled pending at cycles 2 and 3, ready at
    // cycle 4; decode and issue in the same cycle.
    assert_eq!(first_seen_x5, Some(4));
}
