use licensegate_rs::ValidationType;

#[test]
fn valid_with_the_flag_on_is_valid() {
    assert_eq!(ValidationType::from_result("VALID", true), ValidationType::Valid);
}

#[test]
fn valid_with_the_flag_off_is_a_server_error() {
    assert_eq!(ValidationType::from_result("VALID", false), ValidationType::ServerError);
}

#[test]
fn not_found_maps_to_not_found_for_both_flags() {
    assert_eq!(ValidationType::from_result("NOT_FOUND", true), ValidationType::NotFound);
    assert_eq!(ValidationType::from_result("NOT_FOUND", false), ValidationType::NotFound);
}

#[test]
fn not_active_maps_to_not_active_for_both_flags() {
    assert_eq!(ValidationType::from_result("NOT_ACTIVE", true), ValidationType::NotActive);
    assert_eq!(ValidationType::from_result("NOT_ACTIVE", false), ValidationType::NotActive);
}

#[test]
fn expired_maps_to_expired_for_both_flags() {
    assert_eq!(ValidationType::from_result("EXPIRED", true), ValidationType::Expired);
    assert_eq!(ValidationType::from_result("EXPIRED", false), ValidationType::Expired);
}

#[test]
fn license_scope_failed_maps_to_itself_for_both_flags() {
    assert_eq!(
        ValidationType::from_result("LICENSE_SCOPE_FAILED", true),
        ValidationType::LicenseScopeFailed
    );
    assert_eq!(
        ValidationType::from_result("LICENSE_SCOPE_FAILED", false),
        ValidationType::LicenseScopeFailed
    );
}

#[test]
fn ip_limit_exceeded_maps_to_itself_for_both_flags() {
    assert_eq!(
        ValidationType::from_result("IP_LIMIT_EXCEEDED", true),
        ValidationType::IpLimitExceeded
    );
    assert_eq!(
        ValidationType::from_result("IP_LIMIT_EXCEEDED", false),
        ValidationType::IpLimitExceeded
    );
}

#[test]
fn rate_limit_exceeded_maps_to_itself_for_both_flags() {
    assert_eq!(
        ValidationType::from_result("RATE_LIMIT_EXCEEDED", true),
        ValidationType::RateLimitExceeded
    );
    assert_eq!(
        ValidationType::from_result("RATE_LIMIT_EXCEEDED", false),
        ValidationType::RateLimitExceeded
    );
}

#[test]
fn anything_else_is_a_server_error_for_both_flags() {
    for text in ["SERVER_ERROR", "", "valid", "VALID ", "EXPIRED\n", "Expired", "BANNED"] {
        assert_eq!(ValidationType::from_result(text, true), ValidationType::ServerError);
        assert_eq!(ValidationType::from_result(text, false), ValidationType::ServerError);
    }
}

#[test]
fn the_flag_off_never_maps_to_valid() {
    let texts = [
        "VALID",
        "NOT_FOUND",
        "NOT_ACTIVE",
        "EXPIRED",
        "LICENSE_SCOPE_FAILED",
        "IP_LIMIT_EXCEEDED",
        "RATE_LIMIT_EXCEEDED",
        "SERVER_ERROR",
    ];
    for text in texts {
        assert_ne!(ValidationType::from_result(text, false), ValidationType::Valid);
    }
}
