use eyes::engine::{PortOutcome, ScanConfig, ScanState};

#[test]
fn config_resolves_its_port_spec() {
    let c = ScanConfig::new(
        String::from("127.0.0.1"),
        String::from("9000-9002"),
        1000,
        3,
        false,
    );
    assert_eq!(c.target, "127.0.0.1");
    assert_eq!(c.ports, vec![9000, 9001, 9002]);
    assert_eq!(c.concurrency, 1000);
    assert_eq!(c.timeout, 3);
    assert!(!c.verbose);
}

#[test]
fn outcomes_compare_by_variant() {
    assert_eq!(PortOutcome::Open, PortOutcome::Open);
    assert_ne!(PortOutcome::Open, PortOutcome::Closed);
    assert_ne!(PortOutcome::TimedOut, PortOutcome::ConnectionError);
}

#[test]
fn window_fills_to_the_limit_and_no_further() {
    // N = 5 ports, concurrency k = 2: the window admits probes until k are
    // outstanding, then refuses admission until one completes.
    let mut s = ScanState::new(5, 2);
    assert!(s.can_launch());
    assert_eq!(s.launch(), 0);
    assert!(s.can_launch());
    assert_eq!(s.launch(), 1);
    // k probes outstanding: no further admission.
    assert!(!s.can_launch());
    // One completion frees exactly one slot: a sliding window, not a batch.
    s.on_complete();
    assert!(s.can_launch());
    assert_eq!(s.launch(), 2);
    assert!(!s.can_launch());
    assert!(!s.is_finished());
}

#[test]
fn outstanding_probes_never_exceed_the_limit() {
    // Drive a full run over N = 10 ports with k = 3, completing probes in
    // admission order, and watch the outstanding count at every step.
    let total = 10;
    let k = 3;
    let mut s = ScanState::new(total, k);
    let mut launched: Vec<usize> = Vec::new();
    let mut outstanding = 0usize;
    while !s.is_finished() {
        while s.can_launch() {
            launched.push(s.launch());
            outstanding += 1;
            assert!(outstanding <= k);
        }
        s.on_complete();
        outstanding -= 1;
    }
    assert_eq!(launched.len(), total);
    // Every port index was admitted exactly once, in order.
    for (i, idx) in launched.iter().enumerate() {
        assert_eq!(*idx, i);
    }
    assert!(!s.can_launch());
    assert_eq!(outstanding, 0);
}

#[test]
fn completion_comes_only_after_every_port() {
    let total = 4;
    let mut s = ScanState::new(total, 2);
    let mut completions = 0;
    while !s.is_finished() {
        while s.can_launch() {
            s.launch();
        }
        s.on_complete();
        completions += 1;
        // The run is finished exactly when the last completion arrives.
        assert_eq!(s.is_finished(), completions == total);
    }
    assert_eq!(completions, total);
}

#[test]
fn a_run_over_zero_ports_is_finished_at_once() {
    let s = ScanState::new(0, 1000);
    assert!(s.is_finished());
    assert!(!s.can_launch());
}
