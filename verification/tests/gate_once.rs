use route_codegen::gate::LogGate;

#[test]
fn five_acquisitions_succeed_exactly_once() {
    let mut gate = LogGate::new();
    let mut successes: usize = 0;
    let mut results: Vec<bool> = Vec::new();
    let mut i: usize = 0;
    while i < 5 {
        let r = gate.try_fire();
        results.push(r);
        if r {
            successes += 1;
        }
        i += 1;
    }
    assert_eq!(successes, 1);
    assert_eq!(results, vec![true, false, false, false, false]);
}

#[test]
fn a_fresh_guard_is_unfired() {
    let gate = LogGate::new();
    assert!(!gate.fired);
}
