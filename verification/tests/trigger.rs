// The per-device trigger coordinator and the dispatch retry policy.

use stability_trigger::coordinator::Coordinator;
use stability_trigger::coordinator::TriggerAction;
use stability_trigger::coordinator::TriggerConfig;
use stability_trigger::coordinator::TriggerEvent;
use stability_trigger::detector::Threshold;
use stability_trigger::dispatch::DispatchStep;
use stability_trigger::dispatch::RetryPolicy;
use stability_trigger::dispatch::next_dispatch_step;
use stability_trigger::payload::FieldValue;
use stability_trigger::payload::Payload;
use stability_trigger::payload::PayloadField;
use stability_trigger::window::Reading;

fn config() -> TriggerConfig {
    TriggerConfig {
        metric_key: b"temp".to_vec(),
        threshold: Threshold::new(1, 100),
        smoothing_width: 3,
        lookback: 3_600_000,
    }
}

fn temp_reading(timestamp: i64, value: i64) -> Reading {
    Reading {
        timestamp,
        payload: Payload {
            fields: vec![PayloadField { name: b"temp".to_vec(), value: FieldValue::Number(value) }],
        },
    }
}

fn stable_window() -> Vec<Reading> {
    vec![
        temp_reading(1, 10000),
        temp_reading(2, 10010),
        temp_reading(3, 9990),
        temp_reading(4, 10005),
    ]
}

fn trending_window() -> Vec<Reading> {
    vec![
        temp_reading(1, 10000),
        temp_reading(2, 11000),
        temp_reading(3, 12000),
        temp_reading(4, 13000),
    ]
}

#[test]
fn ingestion_starts_an_evaluation() {
    let mut c = Coordinator::new(config());
    assert_eq!(c.handle_event(1, TriggerEvent::Ingest), TriggerAction::BeginFetch);
}

#[test]
fn concurrent_ingestions_for_one_device_are_serialized() {
    // While an evaluation is in flight, further ingestion events for the
    // same device are dropped; an idle device still proceeds.
    let mut c = Coordinator::new(config());
    assert_eq!(c.handle_event(1, TriggerEvent::Ingest), TriggerAction::BeginFetch);
    assert_eq!(c.handle_event(1, TriggerEvent::Ingest), TriggerAction::DropEvent);
    assert_eq!(c.handle_event(1, TriggerEvent::Ingest), TriggerAction::DropEvent);
    assert_eq!(c.handle_event(2, TriggerEvent::Ingest), TriggerAction::BeginFetch);
}

#[test]
fn stable_window_dispatches_once_per_episode() {
    let mut c = Coordinator::new(config());
    // First stable evaluation: alert.
    c.handle_event(1, TriggerEvent::Ingest);
    assert_eq!(c.handle_event(1, TriggerEvent::FetchOk(stable_window())), TriggerAction::Dispatch);
    assert_eq!(
        c.handle_event(1, TriggerEvent::DispatchDone(true)),
        TriggerAction::FinishDelivered(true)
    );
    // Still stable on the next sample: the episode was already alerted.
    c.handle_event(1, TriggerEvent::Ingest);
    assert_eq!(
        c.handle_event(1, TriggerEvent::FetchOk(stable_window())),
        TriggerAction::FinishAlreadyAlerted
    );
    // The signal goes unstable: the episode ends.
    c.handle_event(1, TriggerEvent::Ingest);
    assert_eq!(
        c.handle_event(1, TriggerEvent::FetchOk(trending_window())),
        TriggerAction::FinishNotStable
    );
    // Stable again: a new episode, a new alert.
    c.handle_event(1, TriggerEvent::Ingest);
    assert_eq!(c.handle_event(1, TriggerEvent::FetchOk(stable_window())), TriggerAction::Dispatch);
}

#[test]
fn dispatch_failure_keeps_the_episode_marked() {
    // A failed delivery still counts as the episode's alert: the pipeline
    // does not re-run the evaluation, only the dispatch itself may retry.
    let mut c = Coordinator::new(config());
    c.handle_event(1, TriggerEvent::Ingest);
    assert_eq!(c.handle_event(1, TriggerEvent::FetchOk(stable_window())), TriggerAction::Dispatch);
    assert_eq!(
        c.handle_event(1, TriggerEvent::DispatchDone(false)),
        TriggerAction::FinishDelivered(false)
    );
    c.handle_event(1, TriggerEvent::Ingest);
    assert_eq!(
        c.handle_event(1, TriggerEvent::FetchOk(stable_window())),
        TriggerAction::FinishAlreadyAlerted
    );
}

#[test]
fn one_device_never_blocks_another() {
    // Device 1's evaluation ends in a dispatch failure; device 2's own
    // evaluation proceeds and alerts independently.
    let mut c = Coordinator::new(config());
    c.handle_event(1, TriggerEvent::Ingest);
    c.handle_event(2, TriggerEvent::Ingest);
    assert_eq!(c.handle_event(1, TriggerEvent::FetchOk(stable_window())), TriggerAction::Dispatch);
    assert_eq!(
        c.handle_event(1, TriggerEvent::DispatchDone(false)),
        TriggerAction::FinishDelivered(false)
    );
    assert_eq!(c.handle_event(2, TriggerEvent::FetchOk(stable_window())), TriggerAction::Dispatch);
    assert_eq!(
        c.handle_event(2, TriggerEvent::DispatchDone(true)),
        TriggerAction::FinishDelivered(true)
    );
}

#[test]
fn empty_window_is_no_data_not_an_error() {
    let mut c = Coordinator::new(config());
    c.handle_event(1, TriggerEvent::Ingest);
    assert_eq!(c.handle_event(1, TriggerEvent::FetchOk(vec![])), TriggerAction::FinishNoData);
    // A window with no usable metric is "no data" too.
    c.handle_event(1, TriggerEvent::Ingest);
    let unusable = vec![Reading {
        timestamp: 1,
        payload: Payload {
            fields: vec![PayloadField { name: b"temp".to_vec(), value: FieldValue::NonNumeric }],
        },
    }];
    assert_eq!(c.handle_event(1, TriggerEvent::FetchOk(unusable)), TriggerAction::FinishNoData);
}

#[test]
fn fetch_failure_aborts_quietly_and_frees_the_device() {
    let mut c = Coordinator::new(config());
    c.handle_event(1, TriggerEvent::Ingest);
    assert_eq!(c.handle_event(1, TriggerEvent::FetchFailed), TriggerAction::FinishFetchFailed);
    // The device is idle again.
    assert_eq!(c.handle_event(1, TriggerEvent::Ingest), TriggerAction::BeginFetch);
}

#[test]
fn short_window_is_not_stable_and_resets_the_episode() {
    let mut c = Coordinator::new(config());
    c.handle_event(1, TriggerEvent::Ingest);
    assert_eq!(c.handle_event(1, TriggerEvent::FetchOk(stable_window())), TriggerAction::Dispatch);
    c.handle_event(1, TriggerEvent::DispatchDone(true));
    // Two readings are an observation of "not stable" (minimum is 3).
    c.handle_event(1, TriggerEvent::Ingest);
    let short = vec![temp_reading(1, 10000), temp_reading(2, 10005)];
    assert_eq!(c.handle_event(1, TriggerEvent::FetchOk(short)), TriggerAction::FinishNotStable);
    c.handle_event(1, TriggerEvent::Ingest);
    assert_eq!(c.handle_event(1, TriggerEvent::FetchOk(stable_window())), TriggerAction::Dispatch);
}

#[test]
fn out_of_order_window_is_normalized_before_judging() {
    // The same stable readings, delivered newest-first as the store sends
    // them, are sorted oldest-first before analysis.
    let mut c = Coordinator::new(config());
    c.handle_event(1, TriggerEvent::Ingest);
    let mut newest_first = stable_window();
    newest_first.reverse();
    assert_eq!(c.handle_event(1, TriggerEvent::FetchOk(newest_first)), TriggerAction::Dispatch);
}

#[test]
fn retry_backoff_doubles_then_gives_up() {
    let policy = RetryPolicy { max_attempts: 4, base_delay_ms: 1000 };
    assert_eq!(next_dispatch_step(&policy, 1), DispatchStep::Retry(1000));
    assert_eq!(next_dispatch_step(&policy, 2), DispatchStep::Retry(2000));
    assert_eq!(next_dispatch_step(&policy, 3), DispatchStep::Retry(4000));
    assert_eq!(next_dispatch_step(&policy, 4), DispatchStep::GiveUp);
    assert_eq!(next_dispatch_step(&policy, 5), DispatchStep::GiveUp);
}

#[test]
fn default_retry_policy_allows_three_attempts() {
    let policy = RetryPolicy::default_value();
    assert_eq!(next_dispatch_step(&policy, 1), DispatchStep::Retry(500));
    assert_eq!(next_dispatch_step(&policy, 2), DispatchStep::Retry(1000));
    assert_eq!(next_dispatch_step(&policy, 3), DispatchStep::GiveUp);
}
