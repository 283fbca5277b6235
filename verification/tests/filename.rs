use deepseek_harness::filename::{
    clean_filename, download_filename, fallback_filename, sanitize_download_filename,
};

fn now() -> u64 {
    std::time::SystemTime::now()
        .duration_since(std::time::UNIX_EPOCH)
        .map(|d| d.as_secs())
        .unwrap_or(0)
}

fn is_stamped(name: &str) -> bool {
    match name.strip_prefix("download-") {
        Some(stamp) => {
            let stamp: u64 = stamp.parse().unwrap();
            now() - stamp < 60
        }
        None => false,
    }
}

#[test]
fn usable_names_are_decoded_and_kept() {
    assert_eq!(sanitize_download_filename(Some("session%20log.txt")), "session log.txt");
    assert_eq!(sanitize_download_filename(Some("r%C3%A9sum%C3%A9.pdf")), "r\u{e9}sum\u{e9}.pdf");
    assert_eq!(sanitize_download_filename(Some(".env")), ".env");
    assert_eq!(sanitize_download_filename(Some("...")), "...");
}

#[test]
fn separators_and_control_characters_are_replaced() {
    assert_eq!(sanitize_download_filename(Some("..%2F..%2Fetc%2Fpasswd")), ".._.._etc_passwd");
    assert_eq!(sanitize_download_filename(Some("a\\b:c*d?e\"f<g>h|i")), "a_b_c_d_e_f_g_h_i");
    assert_eq!(sanitize_download_filename(Some("a%00b%1Fc%7Fd%C2%85e")), "a_b_c_d_e");
}

#[test]
fn ends_are_trimmed() {
    assert_eq!(sanitize_download_filename(Some("%20%20a b%C2%A0")), "a b");
    assert_eq!(sanitize_download_filename(Some("%0Aa%0A")), "_a_");
}

#[test]
fn names_that_are_not_usable_are_stamped() {
    for raw in ["", "%20", ".", "..", "%2e%2E", "%20.%20"] {
        let name = sanitize_download_filename(Some(raw));
        assert!(is_stamped(&name), "{:?}", name);
    }
    assert!(is_stamped(&sanitize_download_filename(None)));
}

#[test]
fn cleaning_of_decoded_names() {
    assert_eq!(clean_filename("a/b").as_deref(), Some("a_b"));
    assert_eq!(clean_filename("  x  ").as_deref(), Some("x"));
    assert_eq!(clean_filename("%20").as_deref(), Some("%20"));
    assert_eq!(clean_filename("   "), None);
    assert_eq!(clean_filename("."), None);
    assert_eq!(clean_filename(" .. "), None);
}

#[test]
fn cleaning_twice_changes_nothing() {
    for s in ["a/b", "  x y  ", "..%2F", "\u{1}\u{2}", "q?.txt "] {
        let once = clean_filename(s).unwrap();
        assert_eq!(clean_filename(&once), Some(once.clone()));
    }
}

#[test]
fn fallback_names() {
    assert_eq!(fallback_filename(Some(1_700_000_000)), "download-1700000000");
    assert_eq!(fallback_filename(None), "download-0");
    assert_eq!(fallback_filename(Some(u64::MAX)), "download-18446744073709551615");
}

#[test]
fn names_of_addresses() {
    assert_eq!(download_filename("http://h/a/session%20log.txt?x=1"), "session log.txt");
    assert!(is_stamped(&download_filename("http://h/a/")));
    assert!(is_stamped(&download_filename("blob:http://127.0.0.1:3080/0a1b")));
}
