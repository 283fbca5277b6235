use deepseek_harness::server_url::extract_dsh_web_url_line;

fn url(line: &str) -> Option<String> {
    extract_dsh_web_url_line(line)
}

#[test]
fn reported_url_is_taken() {
    assert_eq!(
        url("dsh web: http://127.0.0.1:3080/?token=abc123").as_deref(),
        Some("http://127.0.0.1:3080/?token=abc123")
    );
}

#[test]
fn what_follows_the_url_is_ignored() {
    assert_eq!(
        url("dsh web: http://127.0.0.1:3080/?token=a (LAN: http://10.0.0.2:3080/?token=b)")
            .as_deref(),
        Some("http://127.0.0.1:3080/?token=a")
    );
}

#[test]
fn blanks_around_are_ignored() {
    assert_eq!(url("  \tdsh web:   https://h/\u{a0}x\r\n").as_deref(), Some("https://h/"));
}

#[test]
fn bare_scheme_is_taken() {
    assert_eq!(url("dsh web: http://").as_deref(), Some("http://"));
}

#[test]
fn other_lines_report_nothing() {
    assert_eq!(url(""), None);
    assert_eq!(url("listening on http://127.0.0.1:3080/"), None);
    assert_eq!(url("dsh web:"), None);
    assert_eq!(url("dsh web: "), None);
    assert_eq!(url("dsh web:http://127.0.0.1/"), None);
    assert_eq!(url("dsh web: ftp://127.0.0.1/"), None);
    assert_eq!(url("dsh web: HTTP://127.0.0.1/"), None);
    assert_eq!(url("dsh web: at http://127.0.0.1/"), None);
    assert_eq!(url("> dsh web: http://127.0.0.1/"), None);
}
