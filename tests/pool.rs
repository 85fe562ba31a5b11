use index_server::JobCounter;

#[test]
fn new_counter_is_idle() {
    let counter = JobCounter::new();
    assert!(counter.is_idle());
    assert!(counter.is_open());
    assert_eq!(counter.outstanding(), 0);
}

#[test]
fn idle_only_after_every_job_finished() {
    let mut counter = JobCounter::new();
    for _ in 0..5 {
        assert!(counter.submit());
    }
    for left in (1..=5).rev() {
        assert!(!counter.is_idle());
        assert_eq!(counter.outstanding(), left);
        counter.finish();
    }
    assert!(counter.is_idle());
}

#[test]
fn closed_counter_refuses_jobs_but_counts_the_queued_ones_off() {
    let mut counter = JobCounter::new();
    assert!(counter.submit());
    counter.close();
    assert!(!counter.submit());
    assert_eq!(counter.outstanding(), 1);
    counter.finish();
    assert!(counter.is_idle());
    assert!(!counter.is_open());
}
