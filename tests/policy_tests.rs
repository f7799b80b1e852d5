use track_crawler::gate::RateGate;
use track_crawler::retry::{backoff_base, backoff_with_jitter, generate_backoff, retry_step, Outcome, RetryStep};

#[test]
fn shift_is_capped_at_six() {
    assert_eq!(backoff_base(100, 10), 6400);
    assert_eq!(backoff_base(100, 6), 6400);
    assert_eq!(backoff_base(100, 0), 100);
    assert_eq!(backoff_base(100, 3), 800);
}

#[test]
fn backoff_is_monotone() {
    for a in 0..12 {
        assert!(backoff_base(250, a) <= backoff_base(250, a + 1));
    }
}

#[test]
fn jitter_is_added_once() {
    assert_eq!(backoff_with_jitter(100, 2, 50), 450);
    for a in 0..8 {
        let b = generate_backoff(100, a);
        let e = backoff_base(100, a);
        assert!(b >= e + 50 && b <= e + 200);
    }
}

#[test]
fn zero_budget_gives_up_at_once() {
    assert_eq!(retry_step(Outcome::Status(503), 0, 0), RetryStep::GiveUp);
    assert_eq!(retry_step(Outcome::Transport, 0, 0), RetryStep::GiveUp);
    assert_eq!(retry_step(Outcome::Status(200), 0, 0), RetryStep::Accept);
}

#[test]
fn statuses_classified() {
    assert_eq!(retry_step(Outcome::Status(429), 0, 3), RetryStep::Retry);
    assert_eq!(retry_step(Outcome::Status(404), 0, 3), RetryStep::GiveUp);
    assert_eq!(retry_step(Outcome::Status(599), 2, 3), RetryStep::Retry);
    assert_eq!(retry_step(Outcome::Status(204), 2, 3), RetryStep::Accept);
}

#[test]
fn retry_budget_against_503() {
    // an endpoint that always answers 503, three retries, base 100 ms
    let mut attempts = 0;
    let mut slept = 0u64;
    let mut attempt = 0usize;
    loop {
        attempts += 1;
        match retry_step(Outcome::Status(503), attempt, 3) {
            RetryStep::Retry => {
                slept += generate_backoff(100, attempt);
                attempt += 1;
            }
            RetryStep::GiveUp => break,
            RetryStep::Accept => panic!("503 accepted"),
        }
    }
    assert_eq!(attempts, 4);
    assert!(slept >= 100 + 200 + 400 + 3 * 50);
}

#[test]
fn gate_paces_calls() {
    let mut g = RateGate::new(1000);
    let mut now = 0u64;
    let mut stamps = Vec::new();
    for _ in 0..5 {
        now += g.delay_ms(now);
        g.stamp(now);
        stamps.push(now);
        now += 3;
    }
    for i in 1..5 {
        assert!(stamps[i] - stamps[i - 1] >= 1000);
        assert!(stamps[i] - stamps[i - 1] <= 1003);
    }
    assert_eq!(stamps[0], 0);
}

#[test]
fn gate_does_not_wait_when_idle() {
    let mut g = RateGate::new(1100);
    g.stamp(5000);
    assert_eq!(g.delay_ms(5400), 700);
    assert_eq!(g.delay_ms(7000), 0);
    assert_eq!(g.delay_ms(4000), 1100);
}
