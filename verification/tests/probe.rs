use doh::probe::{
    mean, payload, EchoOutcome, PendingEcho, ProbeRun, ProbeStatistics, ProbeStep, INTERVAL_SECS,
    MAX_PING, PAYLOAD_LEN, TIMEOUT_SECS,
};

fn pending(run: ProbeRun) -> PendingEcho {
    match run.step() {
        ProbeStep::Send(pending) => pending,
        ProbeStep::Done(_) => panic!("the run is over"),
    }
}

fn run_of(outcomes: &[EchoOutcome]) -> ProbeStatistics {
    let mut run = ProbeRun::with_identifier(1);
    for outcome in outcomes {
        run = pending(run).resume(*outcome);
    }
    match run.step() {
        ProbeStep::Done(statistics) => statistics,
        ProbeStep::Send(_) => panic!("the run is not over"),
    }
}

fn replies_then_lost(replies: &[i32], lost: usize) -> Vec<EchoOutcome> {
    let mut outcomes: Vec<EchoOutcome> =
        replies.iter().map(|rtt_ms| EchoOutcome::Reply { rtt_ms: *rtt_ms }).collect();
    for _ in 0..lost {
        outcomes.push(EchoOutcome::Lost);
    }
    outcomes
}

#[test]
fn the_plan_of_a_run() {
    assert_eq!(MAX_PING, 10);
    assert_eq!(PAYLOAD_LEN, 56);
    assert_eq!(TIMEOUT_SECS, 1);
    assert_eq!(INTERVAL_SECS, 1);
}

#[test]
fn mean_of_no_data_is_none() {
    assert_eq!(mean(&[]), None);
}

#[test]
fn mean_of_one_value_is_the_value() {
    assert_eq!(mean(&[12]), Some(12));
    assert_eq!(mean(&[0]), Some(0));
    assert_eq!(mean(&[-7]), Some(-7));
}

#[test]
fn mean_is_cut_off_not_rounded() {
    assert_eq!(mean(&[1, 2]), Some(1));
    assert_eq!(mean(&[10, 11, 15]), Some(12));
    assert_eq!(mean(&[1, 1, 2, 2, 2]), Some(1));
    assert_eq!(mean(&[9, 10]), Some(9));
}

#[test]
fn mean_is_cut_off_towards_zero() {
    assert_eq!(mean(&[-1, -2]), Some(-1));
    assert_eq!(mean(&[-10, 3]), Some(-3));
    assert_eq!(mean(&[-1, 0]), Some(0));
}

#[test]
fn mean_of_the_extremes_does_not_overflow() {
    assert_eq!(mean(&[i32::MAX, i32::MAX, i32::MAX]), Some(i32::MAX));
    assert_eq!(mean(&[i32::MIN, i32::MIN]), Some(i32::MIN));
    assert_eq!(mean(&[i32::MAX, i32::MIN]), Some(0));
    assert_eq!(mean(&[i32::MAX; 10]), Some(i32::MAX));
}

#[test]
fn a_run_asks_for_ten_requests_in_order() {
    let mut run = ProbeRun::with_identifier(40000);
    for expected in 0..10u16 {
        let waiting = pending(run);
        assert_eq!(waiting.sequence(), expected);
        assert_eq!(waiting.identifier(), 40000);
        run = waiting.resume(EchoOutcome::Reply { rtt_ms: 5 });
    }
    assert!(matches!(run.step(), ProbeStep::Done(_)));
}

#[test]
fn a_run_is_not_over_before_the_tenth_outcome() {
    let mut run = ProbeRun::with_identifier(0);
    for _ in 0..9 {
        run = pending(run).resume(EchoOutcome::Lost);
    }
    assert!(matches!(run.step(), ProbeStep::Send(_)));
}

#[test]
fn a_lost_request_is_not_sent_again() {
    let run = ProbeRun::with_identifier(3);
    let first = pending(run);
    assert_eq!(first.sequence(), 0);
    let second = pending(first.resume(EchoOutcome::Lost));
    assert_eq!(second.sequence(), 1);
}

#[test]
fn a_run_keeps_its_identifier() {
    let run = ProbeRun::with_identifier(65535);
    assert_eq!(run.identifier(), 65535);
    let run = pending(run).resume(EchoOutcome::Lost);
    assert_eq!(run.identifier(), 65535);
}

#[test]
fn a_run_with_a_random_identifier_begins_at_zero() {
    let run = ProbeRun::begin();
    let identifier = run.identifier();
    let waiting = pending(run);
    assert_eq!(waiting.sequence(), 0);
    assert_eq!(waiting.identifier(), identifier);
}

#[test]
fn random_identifiers_differ_between_runs() {
    let first = ProbeRun::begin().identifier();
    let mut differs = false;
    for _ in 0..64 {
        if ProbeRun::begin().identifier() != first {
            differs = true;
        }
    }
    assert!(differs);
}

#[test]
fn loss_ratio_is_lost_over_sent() {
    for lost in 0..=10usize {
        let replies = vec![20; 10 - lost];
        let statistics = run_of(&replies_then_lost(&replies, lost));
        assert_eq!(statistics.lost as usize, lost);
        let ratio = statistics.lost as f64 / MAX_PING as f64;
        assert!((0.0..=1.0).contains(&ratio));
        assert_eq!(ratio, lost as f64 / 10.0);
        assert_eq!(statistics.loss_percent(), (lost * 10) as u32);
    }
}

#[test]
fn mean_is_there_exactly_where_a_reply_is() {
    for lost in 0..=10usize {
        let replies = vec![7; 10 - lost];
        let statistics = run_of(&replies_then_lost(&replies, lost));
        assert_eq!(statistics.mean_latency_ms.is_some(), lost < 10);
    }
}

#[test]
fn a_fully_lost_address_is_a_result() {
    let statistics = run_of(&[EchoOutcome::Lost; 10]);
    assert_eq!(statistics, ProbeStatistics { mean_latency_ms: None, lost: 10 });
    assert_eq!(statistics.loss_percent(), 100);
}

#[test]
fn a_fully_answered_address_has_no_loss() {
    let statistics = run_of(&[EchoOutcome::Reply { rtt_ms: 3 }; 10]);
    assert_eq!(statistics, ProbeStatistics { mean_latency_ms: Some(3), lost: 0 });
    assert_eq!(statistics.loss_percent(), 0);
}

#[test]
fn mean_of_a_run_is_over_the_replies_only() {
    let statistics = run_of(&replies_then_lost(&[10, 14, 12, 12, 11, 13, 12, 12], 2));
    assert_eq!(statistics.mean_latency_ms, Some(12));
    assert_eq!(statistics.lost, 2);
}

#[test]
fn mean_of_a_run_is_cut_off() {
    let statistics = run_of(&replies_then_lost(&[1, 2, 2], 7));
    assert_eq!(statistics.mean_latency_ms, Some(1));
    assert_eq!(statistics.lost, 7);
}

#[test]
fn a_mean_of_zero_is_not_a_missing_mean() {
    let answered = run_of(&replies_then_lost(&[0], 9));
    let silent = run_of(&[EchoOutcome::Lost; 10]);
    assert_eq!(answered.mean_latency_ms, Some(0));
    assert_eq!(silent.mean_latency_ms, None);
}

#[test]
fn replies_and_losses_may_alternate() {
    let mut outcomes = Vec::new();
    for i in 0..10 {
        if i % 2 == 0 {
            outcomes.push(EchoOutcome::Reply { rtt_ms: 100 + i });
        } else {
            outcomes.push(EchoOutcome::Lost);
        }
    }
    let statistics = run_of(&outcomes);
    assert_eq!(statistics.lost, 5);
    assert_eq!(statistics.mean_latency_ms, Some(104));
}

#[test]
fn the_payload_is_fifty_six_bytes_of_zero() {
    let bytes = payload();
    assert_eq!(bytes.len(), 56);
    assert!(bytes.iter().all(|byte| *byte == 0));
}

#[test]
fn means_of_data_within_a_tolerance_are_within_it() {
    let first = [10, 20, 30, 41, -5, 7, 0];
    for jitter in [[1, -1, 1, -1, 1, -1, 1], [2, 2, 2, 2, 2, 2, 2], [-2, -2, -2, -2, -2, -2, -2]] {
        let second: Vec<i32> = first.iter().zip(jitter.iter()).map(|(a, b)| a + b).collect();
        let distance = (mean(&first).unwrap() - mean(&second).unwrap()).abs();
        assert!(distance <= 2);
    }
    assert_eq!(mean(&[-1, -1, 0]), Some(0));
    assert_eq!(mean(&[0, 0, 1]), Some(0));
    assert_eq!(mean(&[1, 1, 2]), Some(1));
}

#[test]
fn runs_that_differ_by_jitter_have_statistics_that_differ_by_no_more() {
    let steady = run_of(&replies_then_lost(&[12, 12, 12, 12, 12, 12, 12, 12], 2));
    let shaky = run_of(&replies_then_lost(&[13, 11, 14, 10, 13, 13, 12, 11], 2));
    assert_eq!(steady.lost, shaky.lost);
    let distance = (steady.mean_latency_ms.unwrap() - shaky.mean_latency_ms.unwrap()).abs();
    assert!(distance <= 2);
}

#[test]
fn runs_that_came_out_the_same_have_the_same_statistics() {
    let outcomes = replies_then_lost(&[31, 29, 35], 7);
    assert_eq!(run_of(&outcomes), run_of(&outcomes));
}
