use licensegate_rs::LicenseGate;

const WELL_FORMED: &str = "-----BEGIN PUBLIC KEY-----\nMIIBIjANBgkqhkiG9w0BAQEFAAOCAQ8A\nMIIBCgKCAQEA\n-----END PUBLIC KEY-----";

#[test]
fn a_key_without_markers_is_only_cleaned() {
    assert_eq!(LicenseGate::normalize_pem_format("  MIIBIjANBgkq\n"), "MIIBIjANBgkq");
    assert_eq!(LicenseGate::normalize_pem_format("abc\\ndef"), "abc\ndef");
    assert_eq!(LicenseGate::normalize_pem_format(""), "");
}

#[test]
fn a_well_formed_key_is_returned_unchanged() {
    assert_eq!(LicenseGate::normalize_pem_format(WELL_FORMED), WELL_FORMED);
}

#[test]
fn a_well_formed_key_loses_only_the_blanks_around_it() {
    let key = format!("\n  {}\n\n", WELL_FORMED);
    assert_eq!(LicenseGate::normalize_pem_format(&key), WELL_FORMED);
}

#[test]
fn a_one_line_key_gets_its_markers_on_lines_of_their_own() {
    let key = "-----BEGIN PUBLIC KEY-----\\nMIIBIjAN\\nBgkqhkiG\\n-----END PUBLIC KEY-----";
    let out = LicenseGate::normalize_pem_format(key);
    assert_eq!(out, "-----BEGIN PUBLIC KEY-----\nMIIBIjAN\nBgkqhkiG\n-----END PUBLIC KEY-----");
    let lines: Vec<&str> = out.lines().collect();
    assert_eq!(lines.len(), 4);
    assert_eq!(lines[0], "-----BEGIN PUBLIC KEY-----");
    assert_eq!(lines[3], "-----END PUBLIC KEY-----");
    assert!(!out.contains("\\n"));
}

#[test]
fn markers_glued_to_the_base64_are_set_apart() {
    let key = "-----BEGIN PUBLIC KEY-----MIIBIjAN-----END PUBLIC KEY-----";
    assert_eq!(
        LicenseGate::normalize_pem_format(key),
        "-----BEGIN PUBLIC KEY-----\nMIIBIjAN\n-----END PUBLIC KEY-----"
    );
}

#[test]
fn one_glued_marker_is_set_apart_and_the_other_left_alone() {
    assert_eq!(
        LicenseGate::normalize_pem_format(
            "-----BEGIN PUBLIC KEY-----MIIB\n-----END PUBLIC KEY-----"
        ),
        "-----BEGIN PUBLIC KEY-----\nMIIB\n-----END PUBLIC KEY-----"
    );
    assert_eq!(
        LicenseGate::normalize_pem_format(
            "-----BEGIN PUBLIC KEY-----\nMIIB-----END PUBLIC KEY-----"
        ),
        "-----BEGIN PUBLIC KEY-----\nMIIB\n-----END PUBLIC KEY-----"
    );
}

#[test]
fn markers_next_to_each_other_get_one_line_break() {
    assert_eq!(
        LicenseGate::normalize_pem_format("-----BEGIN PUBLIC KEY----------END PUBLIC KEY-----"),
        "-----BEGIN PUBLIC KEY-----\n-----END PUBLIC KEY-----"
    );
}

#[test]
fn a_marker_at_the_edge_of_the_key_gets_no_line_break() {
    assert_eq!(
        LicenseGate::normalize_pem_format("-----BEGIN PUBLIC KEY-----"),
        "-----BEGIN PUBLIC KEY-----"
    );
    assert_eq!(
        LicenseGate::normalize_pem_format("-----END PUBLIC KEY-----x-----BEGIN PUBLIC KEY-----"),
        "-----END PUBLIC KEY-----x-----BEGIN PUBLIC KEY-----"
    );
}

#[test]
fn an_end_marker_is_left_alone_where_no_begin_stands() {
    assert_eq!(
        LicenseGate::normalize_pem_format("MIIB-----END PUBLIC KEY-----"),
        "MIIB-----END PUBLIC KEY-----"
    );
}

#[test]
fn other_markers_are_left_as_they_are() {
    let key = " -----BEGIN RSA PUBLIC KEY-----MIIB-----END RSA PUBLIC KEY----- ";
    assert_eq!(
        LicenseGate::normalize_pem_format(key),
        "-----BEGIN RSA PUBLIC KEY-----MIIB-----END RSA PUBLIC KEY-----"
    );
}

#[test]
fn carriage_returns_do_not_count_as_line_breaks() {
    assert_eq!(
        LicenseGate::normalize_pem_format(
            "-----BEGIN PUBLIC KEY-----\r\nMIIB\r\n-----END PUBLIC KEY-----\r\n"
        ),
        "-----BEGIN PUBLIC KEY-----\n\r\nMIIB\r\n-----END PUBLIC KEY-----"
    );
}

#[test]
fn normalizing_twice_changes_nothing() {
    let keys = [
        "",
        "  plain key  ",
        "a\\nb",
        "\\n\\n x \\n",
        "\\\\n",
        WELL_FORMED,
        "-----BEGIN PUBLIC KEY-----\\nMIIB\\n-----END PUBLIC KEY-----\\n",
        "-----BEGIN PUBLIC KEY-----MIIB-----END PUBLIC KEY-----",
        "-----BEGIN PUBLIC KEY----------END PUBLIC KEY-----",
        "-----END PUBLIC KEY----------BEGIN PUBLIC KEY-----",
        "-----END PUBLIC KEY-----x-----BEGIN PUBLIC KEY-----",
        "-----BEGIN PUBLIC KEY-----BEGIN PUBLIC KEY-----x",
        "-----END PUBLIC KEY-----END PUBLIC KEY----- -----BEGIN",
        "x-----END PUBLIC KEY-----END PUBLIC KEY----- -----BEGIN",
        "-----BEGIN PUBLIC KEY-----\r\nMIIB\r\n-----END PUBLIC KEY-----\r\n",
        " -----BEGIN RSA PUBLIC KEY-----\\nMIIB\\n-----END RSA PUBLIC KEY----- ",
    ];
    for key in keys {
        let once = LicenseGate::normalize_pem_format(key);
        let twice = LicenseGate::normalize_pem_format(&once);
        assert_eq!(twice, once, "{:?}", key);
    }
}
