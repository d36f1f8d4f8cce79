use rebarr::errors::{bad_request, err, internal, not_found, ApiStatus};

#[test]
fn failures_carry_status_and_message() {
    let e = bad_request("nope");
    assert_eq!((e.status.code(), e.body.error.as_str()), (400, "nope"));
    assert_eq!(not_found("gone").status.code(), 404);
    assert_eq!(internal("boom").status.code(), 500);
    assert_eq!(err(ApiStatus::Conflict, "dup").status.code(), 409);
    assert_eq!(err(ApiStatus::BadGateway, "upstream").status, ApiStatus::BadGateway);
}
