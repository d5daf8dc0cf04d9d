use hpla_rs::lanczos::algorithms::StepCounter;

#[test]
fn full_run_keeps_all_but_the_last_coupling() {
    let mut c = StepCounter::new(4);
    let mut kept = Vec::new();
    while c.has_next() {
        kept.push(c.record(false));
    }
    assert_eq!(kept, vec![true, true, true, false]);
    assert_eq!(c.taken(), 4);
    assert_eq!(c.kept(), 3);
}

#[test]
fn breakdown_ends_the_run() {
    let mut c = StepCounter::new(10);
    assert!(c.record(false));
    assert!(c.record(false));
    assert_eq!(c.kept(), 2);
    assert!(!c.record(true));
    assert!(!c.has_next());
    assert_eq!(c.taken(), 3);
    assert_eq!(c.kept(), 2);
}

#[test]
fn empty_and_single_step_runs() {
    let c = StepCounter::new(0);
    assert!(!c.has_next());
    assert_eq!((c.taken(), c.kept()), (0, 0));
    let mut c = StepCounter::new(1);
    assert!(c.has_next());
    assert!(!c.record(false));
    assert!(!c.has_next());
    assert_eq!((c.taken(), c.kept()), (1, 0));
}
