use welle::outcome::{Class, RequestOutcome, TransportError};
use welle::status::StatusCode;

fn answered(code: u16) -> RequestOutcome {
    RequestOutcome::new(Ok(StatusCode::from_u16(code).unwrap()), 1_000, 0)
}

fn failed(description: &str) -> RequestOutcome {
    RequestOutcome::new(Err(TransportError { description: String::from(description) }), 1_000, 0)
}

#[test]
fn status_codes_are_the_numbers_from_100_to_599() {
    assert!(StatusCode::from_u16(0).is_none());
    assert!(StatusCode::from_u16(99).is_none());
    assert!(StatusCode::from_u16(100).is_some());
    assert!(StatusCode::from_u16(200).is_some());
    assert!(StatusCode::from_u16(599).is_some());
    assert!(StatusCode::from_u16(600).is_none());
    assert!(StatusCode::from_u16(999).is_none());
    assert!(StatusCode::from_u16(u16::MAX).is_none());
}

#[test]
fn status_code_keeps_its_number() {
    for code in 100..600u16 {
        assert_eq!(StatusCode::from_u16(code).unwrap().as_u16(), code);
    }
}

#[test]
fn status_code_agrees_with_http_on_every_number() {
    for code in 0..=u16::MAX {
        let ours = StatusCode::from_u16(code);
        match http::StatusCode::from_u16(code) {
            Ok(theirs) => {
                let ours = ours.unwrap();
                assert_eq!(ours.as_u16(), theirs.as_u16());
                assert_eq!(ours.is_server_error(), theirs.is_server_error());
            }
            Err(_) => assert!(ours.is_none()),
        }
    }
}

#[test]
fn server_errors_are_the_codes_from_500_to_599() {
    assert!(!StatusCode::from_u16(100).unwrap().is_server_error());
    assert!(!StatusCode::from_u16(200).unwrap().is_server_error());
    assert!(!StatusCode::from_u16(404).unwrap().is_server_error());
    assert!(!StatusCode::from_u16(499).unwrap().is_server_error());
    assert!(StatusCode::from_u16(500).unwrap().is_server_error());
    assert!(StatusCode::from_u16(503).unwrap().is_server_error());
    assert!(StatusCode::from_u16(599).unwrap().is_server_error());
}

#[test]
fn service_unavailable_counts_as_response_and_as_server_error() {
    let outcome = answered(http::StatusCode::SERVICE_UNAVAILABLE.as_u16());
    assert!(outcome.is_counted_as(Class::Completed));
    assert!(outcome.is_counted_as(Class::ServerError));
    assert!(!outcome.is_counted_as(Class::TransportError));
}

#[test]
fn transport_error_counts_only_as_transport_error() {
    let outcome = failed("connection refused");
    assert!(!outcome.is_counted_as(Class::Completed));
    assert!(!outcome.is_counted_as(Class::ServerError));
    assert!(outcome.is_counted_as(Class::TransportError));
}

#[test]
fn success_and_client_error_count_only_as_responses() {
    for code in [200u16, 204, 301, 404, 499] {
        let outcome = answered(code);
        assert!(outcome.is_counted_as(Class::Completed));
        assert!(!outcome.is_counted_as(Class::ServerError));
        assert!(!outcome.is_counted_as(Class::TransportError));
    }
}

#[test]
fn request_outcome_keeps_result_and_duration() {
    let outcome = RequestOutcome::new(Ok(StatusCode::from_u16(201).unwrap()), 77, 1234);
    assert_eq!(outcome.duration, 77);
    assert_eq!(outcome.result.unwrap().as_u16(), 201);

    let outcome = RequestOutcome::new(
        Err(TransportError { description: String::from("timed out") }),
        u64::MAX,
        0,
    );
    assert_eq!(outcome.duration, u64::MAX);
    assert_eq!(outcome.result.unwrap_err().description, "timed out");
}
