use deepseek_harness::web_url::{
    last_path_segment, last_segment, navigation_to, plan_navigation, Navigation,
};

#[test]
fn accepted_address_is_navigated_to() {
    match navigation_to("HTTP://127.0.0.1:3080?token=abc") {
        Navigation::Navigate { url, fallback } => {
            assert_eq!(url, "http://127.0.0.1:3080/?token=abc");
            assert_eq!(
                fallback,
                "window.location.replace('HTTP://127.0.0.1:3080?token=abc')"
            );
        }
        Navigation::Replace { .. } => panic!("refused"),
    }
}

#[test]
fn refused_address_is_handed_to_the_page() {
    match navigation_to("http://127.0.0.1:99999/") {
        Navigation::Navigate { .. } => panic!("accepted"),
        Navigation::Replace { error, script } => {
            assert_eq!(error, url::ParseError::InvalidPort);
            assert_eq!(script, "window.location.replace('http://127.0.0.1:99999/')");
        }
    }
}

#[test]
fn plan_follows_what_parsing_returned() {
    let plan = plan_navigation("x", Ok("http://y/".to_string()));
    assert!(matches!(
        plan,
        Navigation::Navigate { url, fallback }
            if url == "http://y/" && fallback == "window.location.replace('x')"
    ));
    let plan = plan_navigation("x", Err(url::ParseError::EmptyHost));
    assert!(matches!(
        plan,
        Navigation::Replace { error: url::ParseError::EmptyHost, script }
            if script == "window.location.replace('x')"
    ));
}

#[test]
fn last_segment_of_an_address() {
    assert_eq!(
        last_path_segment("http://h/a/session%20log.txt?x=/y#/z").as_deref(),
        Some("session%20log.txt")
    );
    assert_eq!(last_path_segment("http://h/a/").as_deref(), Some(""));
    assert_eq!(last_path_segment("http://h").as_deref(), Some(""));
}

#[test]
fn addresses_without_segments_have_no_last_one() {
    assert_eq!(last_path_segment("data:text/plain,Hello"), None);
    assert_eq!(last_path_segment("blob:http://127.0.0.1:3080/0a1b"), None);
    assert_eq!(last_path_segment("no address"), None);
}

#[test]
fn last_of_given_segments() {
    assert_eq!(last_segment(None), None);
    assert_eq!(last_segment(Some(vec![])), None);
    assert_eq!(
        last_segment(Some(vec!["a".to_string(), "b".to_string()])).as_deref(),
        Some("b")
    );
}
