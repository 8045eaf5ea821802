use licensegate_rs::licensegate_config::LicenseGateConfig;
use licensegate_rs::url::{join_text, param_text};
use licensegate_rs::LicenseGate;

#[test]
fn url_without_parameters_has_no_query() {
    let gate = LicenseGate::new("user-1");
    let url = gate.build_url("KEY-1", None, None, None);
    assert_eq!(url, "https://api.licensegate.io/license/user-1/KEY-1/verify");
    assert!(!url.contains('?'));
}

#[test]
fn url_with_metadata_alone() {
    let gate = LicenseGate::new("u");
    let url = gate.build_url("k", None, Some("a b".to_string()), None);
    assert_eq!(url, "https://api.licensegate.io/license/u/k/verify?metadata=a%20b");
}

#[test]
fn url_with_scope_alone() {
    let gate = LicenseGate::new("u");
    let url = gate.build_url("k", Some("pro".to_string()), None, None);
    assert_eq!(url, "https://api.licensegate.io/license/u/k/verify?scope=pro");
}

#[test]
fn url_with_metadata_and_scope_has_metadata_first() {
    let gate = LicenseGate::new("u");
    let url = gate.build_url("k", Some("s/1".to_string()), Some("m&1".to_string()), None);
    assert_eq!(url, "https://api.licensegate.io/license/u/k/verify?metadata=m%261&scope=s%2F1");
}

#[test]
fn url_with_challenge_has_it_last() {
    let gate = LicenseGate::new("u");
    let all = gate.build_url("k", Some("s".to_string()), Some("m".to_string()), Some("1700"));
    assert_eq!(
        all,
        "https://api.licensegate.io/license/u/k/verify?metadata=m&scope=s&challenge=1700"
    );
    let alone = gate.build_url("k", None, None, Some("1700"));
    assert_eq!(alone, "https://api.licensegate.io/license/u/k/verify?challenge=1700");
    let with_scope = gate.build_url("k", Some("s".to_string()), None, Some("1700"));
    assert_eq!(with_scope, "https://api.licensegate.io/license/u/k/verify?scope=s&challenge=1700");
}

#[test]
fn url_uses_the_server_that_was_set() {
    let gate = LicenseGate::new("u").set_validation_server("http://localhost:8080");
    assert_eq!(gate.build_url("k", None, None, None), "http://localhost:8080/license/u/k/verify");
}

#[test]
fn url_keeps_an_empty_key_and_an_empty_value() {
    let gate = LicenseGate::new("u");
    assert_eq!(
        gate.build_url("", None, Some(String::new()), None),
        "https://api.licensegate.io/license/u//verify?metadata="
    );
}

#[test]
fn url_path_is_not_encoded() {
    let gate = LicenseGate::new("u?x");
    assert_eq!(
        gate.build_url("k y", None, None, None),
        "https://api.licensegate.io/license/u?x/k y/verify"
    );
}

#[test]
fn param_text_encodes_every_byte_but_the_unreserved() {
    assert_eq!(param_text("scope", "AZaz09-._~"), "scope=AZaz09-._~");
    assert_eq!(param_text("scope", " !\"#$%&'()*+,/:;=?@[]"), concat_all(&[
        "scope=", "%20", "%21", "%22", "%23", "%24", "%25", "%26", "%27", "%28", "%29", "%2A",
        "%2B", "%2C", "%2F", "%3A", "%3B", "%3D", "%3F", "%40", "%5B", "%5D",
    ]));
    assert_eq!(param_text("metadata", "é"), "metadata=%C3%A9");
    assert_eq!(param_text("metadata", "☃"), "metadata=%E2%98%83");
    assert_eq!(param_text("metadata", "\n"), "metadata=%0A");
    assert_eq!(param_text("metadata", "\u{7f}"), "metadata=%7F");
}

fn concat_all(parts: &[&str]) -> String {
    let mut out = String::new();
    for part in parts {
        out.push_str(part);
    }
    out
}

#[test]
fn join_text_puts_the_separator_between() {
    let none: Vec<String> = Vec::new();
    assert_eq!(join_text(&none, "&"), "");
    assert_eq!(join_text(&vec!["a".to_string()], "&"), "a");
    assert_eq!(join_text(&vec!["a".to_string(), "b".to_string(), "c".to_string()], "&"), "a&b&c");
    assert_eq!(join_text(&vec![String::new(), String::new()], ", "), ", ");
}

#[test]
fn request_at_without_challenge_mode_carries_no_challenge() {
    let gate = LicenseGate::new("u");
    let request = gate.request_at(LicenseGateConfig::new("k").set_scope("s"), 1700000000000);
    assert_eq!(request.challenge, None);
    assert_eq!(request.url, "https://api.licensegate.io/license/u/k/verify?scope=s");
}

#[test]
fn request_at_in_challenge_mode_carries_the_time_in_decimal() {
    let gate = LicenseGate::new("u").use_challenges();
    let config = LicenseGateConfig::new("k").set_validation_server("m");
    let request = gate.request_at(config, 1700000000123);
    assert_eq!(request.challenge, Some("1700000000123".to_string()));
    assert_eq!(
        request.url,
        "https://api.licensegate.io/license/u/k/verify?metadata=m&challenge=1700000000123"
    );
}

#[test]
fn request_at_encodes_the_sign_of_a_time_before_the_epoch() {
    let gate = LicenseGate::new("u").use_challenges();
    let request = gate.request_at(LicenseGateConfig::new("k"), -5);
    assert_eq!(request.challenge, Some("-5".to_string()));
    assert_eq!(request.url, "https://api.licensegate.io/license/u/k/verify?challenge=-5");
}

#[test]
fn challenge_at_follows_the_mode() {
    assert_eq!(LicenseGate::new("u").challenge_at(12), None);
    assert_eq!(LicenseGate::new("u").use_challenges().challenge_at(12), Some("12".to_string()));
    assert_eq!(LicenseGate::new("u").set_public_rsa_key("k").challenge_at(0), Some("0".to_string()));
}

#[test]
fn request_reads_the_clock_in_challenge_mode() {
    let gate = LicenseGate::new("u").set_public_rsa_key("key");
    let request = gate.request(LicenseGateConfig::new("k"));
    let challenge = request.challenge.expect("a key forces a challenge");
    let millis: i64 = challenge.parse().expect("a decimal number");
    assert!(millis > 1_600_000_000_000);
    assert_eq!(
        request.url,
        format!("https://api.licensegate.io/license/u/k/verify?challenge={}", challenge)
    );
}

#[test]
fn request_without_challenge_mode_sends_none() {
    let gate = LicenseGate::new("u");
    let request = gate.request(LicenseGateConfig::new("k"));
    assert_eq!(request.challenge, None);
    assert_eq!(request.url, "https://api.licensegate.io/license/u/k/verify");
}

#[test]
fn debug_is_off_until_it_is_turned_on() {
    assert!(!LicenseGate::new("u").debug_mode());
    assert!(LicenseGate::new("u").debug().debug_mode());
    assert!(LicenseGate::new("u").debug().set_validation_server("s").use_challenges().debug_mode());
}
