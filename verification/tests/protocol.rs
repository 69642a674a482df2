use bac_nickname::dispatch::{retry_step, DispatchStep, HeaderField};
use bac_nickname::watch::{should_trigger, EventClass};

#[test]
fn non_throttling_status_is_terminal() {
    assert_eq!(
        retry_step(200, HeaderField::Missing, None),
        DispatchStep::Report(200)
    );
    assert_eq!(
        retry_step(404, HeaderField::Text("1.0".to_string()), None),
        DispatchStep::Report(404)
    );
    assert_eq!(
        retry_step(500, HeaderField::Unreadable, None),
        DispatchStep::Report(500)
    );
}

#[test]
fn throttled_with_header_backs_off_then_next_status_ends_loop() {
    // A 429 whose Retry-After header reads 0.01 asks for a 0.01 s wait and
    // another send; a following 200 is terminal.
    assert_eq!(
        retry_step(429, HeaderField::Text("0.01".to_string()), None),
        DispatchStep::Backoff("0.01".to_string())
    );
    assert_eq!(
        retry_step(200, HeaderField::Missing, None),
        DispatchStep::Report(200)
    );
}

#[test]
fn throttled_with_unreadable_header_reports_429() {
    assert_eq!(
        retry_step(429, HeaderField::Unreadable, Some("{}".to_string())),
        DispatchStep::Report(429)
    );
}

#[test]
fn throttled_without_header_reads_body_field() {
    assert_eq!(
        retry_step(
            429,
            HeaderField::Missing,
            Some("{\"retry-after\": 1.5}".to_string())
        ),
        DispatchStep::Backoff("1.5".to_string())
    );
}

#[test]
fn throttled_with_non_object_body_reports_429_at_once() {
    assert_eq!(
        retry_step(429, HeaderField::Missing, Some("not json".to_string())),
        DispatchStep::Report(429)
    );
    assert_eq!(
        retry_step(429, HeaderField::Missing, Some("[1, 2]".to_string())),
        DispatchStep::Report(429)
    );
    assert_eq!(
        retry_step(429, HeaderField::Missing, None),
        DispatchStep::Report(429)
    );
}

#[test]
fn throttled_with_object_body_but_no_usable_field_reports_429() {
    assert_eq!(
        retry_step(429, HeaderField::Missing, Some("{}".to_string())),
        DispatchStep::Report(429)
    );
    assert_eq!(
        retry_step(
            429,
            HeaderField::Missing,
            Some("{\"retry-after\": \"soon\"}".to_string())
        ),
        DispatchStep::Report(429)
    );
}

#[test]
fn event_filter_forwards_only_content_changes() {
    assert!(!should_trigger(EventClass::Access));
    assert!(!should_trigger(EventClass::Remove));
    assert!(should_trigger(EventClass::DataModify));
    assert!(!should_trigger(EventClass::OtherModify));
    assert!(should_trigger(EventClass::Other));
}
