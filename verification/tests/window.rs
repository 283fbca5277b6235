use deepseek_harness::window::{
    find_main_window, is_main_window, on_app_event, AppAction, AppEvent, MAIN_WINDOW,
};

#[test]
fn main_window_is_found_by_its_label() {
    assert_eq!(MAIN_WINDOW, "main");
    assert!(is_main_window("main"));
    assert!(!is_main_window("Main"));
    let labels: Vec<String> = ["splash", "main", "main"].iter().map(|s| s.to_string()).collect();
    assert_eq!(find_main_window(&labels), Some(1));
    assert_eq!(find_main_window(&vec!["splash".to_string()]), None);
    assert_eq!(find_main_window(&vec![]), None);
}

#[test]
fn server_dies_with_the_application() {
    assert!(matches!(on_app_event(AppEvent::ExitRequested), AppAction::KillDsh));
}

#[test]
fn other_windows_are_closed() {
    let popup = AppEvent::Window { label: "popup".to_string() };
    assert!(matches!(
        on_app_event(popup),
        AppAction::CloseWindow { label } if label == "popup"
    ));
    let main = AppEvent::Window { label: "main".to_string() };
    assert!(matches!(on_app_event(main), AppAction::Nothing));
    assert!(matches!(on_app_event(AppEvent::Other), AppAction::Nothing));
}
