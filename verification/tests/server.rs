//! What the server answers and derives at its start.
use crane_oai::clock::now_epoch;
use crane_oai::http::make_error;
use crane_oai::memory::adaptive_runtime_defaults;

#[test]
fn now_epoch_is_reasonable() {
    let ts = now_epoch();
    assert!(ts > 1_577_836_800);
}

#[test]
fn make_error_returns_correct_status() {
    let (status, body) = make_error(400, "test error");
    assert_eq!(status, 400);
    assert_eq!(body.error.message, "test error");
    assert_eq!(body.error.kind, "invalid_request_error");
    assert!(body.error.code.is_none());
}

#[test]
fn make_error_internal() {
    let (status, body) = make_error(500, "boom");
    assert_eq!(status, 500);
    assert_eq!(body.error.message, "boom");
}

#[test]
fn make_error_service_unavailable() {
    let (status, _) = make_error(503, "overloaded");
    assert_eq!(status, 503);
}

#[test]
fn adaptive_defaults_follow_post_load_memory_tiers() {
    const G: u64 = 1 << 30;
    assert_eq!(adaptive_runtime_defaults(0), (16, 16));
    assert_eq!(adaptive_runtime_defaults(6 * G - 1), (6, 16));
    assert_eq!(adaptive_runtime_defaults(6 * G), (16, 16));
    assert_eq!(adaptive_runtime_defaults(10 * G - 1), (16, 16));
    assert_eq!(adaptive_runtime_defaults(10 * G), (32, 32));
    assert_eq!(adaptive_runtime_defaults(16 * G - 1), (32, 32));
    assert_eq!(adaptive_runtime_defaults(16 * G), (64, 32));
    assert_eq!(adaptive_runtime_defaults(80 * G), (64, 32));
}
