// Payload metric extraction and window ordering.

use stability_trigger::payload::FieldValue;
use stability_trigger::payload::Payload;
use stability_trigger::payload::PayloadField;
use stability_trigger::payload::extract_metric;
use stability_trigger::window::Reading;
use stability_trigger::window::extract_series;
use stability_trigger::window::sort_readings;

fn payload_with(fields: Vec<(&str, FieldValue)>) -> Payload {
    Payload {
        fields: fields
            .into_iter()
            .map(|(name, value)| PayloadField { name: name.as_bytes().to_vec(), value })
            .collect(),
    }
}

fn temp_reading(timestamp: i64, value: i64) -> Reading {
    Reading { timestamp, payload: payload_with(vec![("temp", FieldValue::Number(value))]) }
}

#[test]
fn extracts_the_configured_field() {
    let p = payload_with(vec![
        ("humidity", FieldValue::Number(55)),
        ("temp", FieldValue::Number(2150)),
    ]);
    assert_eq!(extract_metric(&p, &b"temp".to_vec()), Some(2150));
    assert_eq!(extract_metric(&p, &b"humidity".to_vec()), Some(55));
}

#[test]
fn absent_field_yields_nothing() {
    let p = payload_with(vec![("humidity", FieldValue::Number(55))]);
    assert_eq!(extract_metric(&p, &b"temp".to_vec()), None);
}

#[test]
fn non_numeric_field_yields_nothing() {
    let p = payload_with(vec![("temp", FieldValue::NonNumeric)]);
    assert_eq!(extract_metric(&p, &b"temp".to_vec()), None);
}

#[test]
fn first_occurrence_wins() {
    let p = payload_with(vec![
        ("temp", FieldValue::Number(1)),
        ("temp", FieldValue::Number(2)),
    ]);
    assert_eq!(extract_metric(&p, &b"temp".to_vec()), Some(1));
}

#[test]
fn sorts_newest_first_windows_to_oldest_first() {
    // The store answers newest-first; the pipeline normalizes the order.
    let window = vec![temp_reading(30, 300), temp_reading(20, 200), temp_reading(10, 100)];
    let sorted = sort_readings(window);
    let times: Vec<i64> = sorted.iter().map(|r| r.timestamp).collect();
    assert_eq!(times, vec![10, 20, 30]);
    let values = extract_series(&sorted, &b"temp".to_vec());
    assert_eq!(values, vec![100, 200, 300]);
}

#[test]
fn sort_keeps_equal_timestamps_in_fetched_order() {
    let window = vec![temp_reading(20, 201), temp_reading(10, 100), temp_reading(20, 202)];
    let sorted = sort_readings(window);
    let values = extract_series(&sorted, &b"temp".to_vec());
    assert_eq!(values, vec![100, 201, 202]);
}

#[test]
fn extraction_skips_unusable_readings() {
    let mut window = vec![temp_reading(1, 11), temp_reading(2, 22)];
    window.push(Reading { timestamp: 3, payload: payload_with(vec![("temp", FieldValue::NonNumeric)]) });
    window.push(Reading { timestamp: 4, payload: payload_with(vec![("humidity", FieldValue::Number(5))]) });
    window.push(temp_reading(5, 55));
    let values = extract_series(&window, &b"temp".to_vec());
    assert_eq!(values, vec![11, 22, 55]);
}
