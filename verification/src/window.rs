//! Which windows there are, and what events of the application lead to.
use vstd::prelude::*;

verus! {

/// The label of the one window of the application.
pub const MAIN_WINDOW: &'static str = "main";

/// Whether `label` is that of the one window.
pub fn is_main_window(label: &str) -> (r: bool)
    ensures
        r == (label@ == MAIN_WINDOW@),
{
    label.to_string() == MAIN_WINDOW.to_string()
}

/// The position of the configuration of the one window, given the labels of
/// all configured windows: the first with its label.
pub fn find_main_window(labels: &Vec<String>) -> (r: Option<usize>)
    ensures
        match r {
            Some(i) => i < labels@.len() && labels@[i as int]@ == MAIN_WINDOW@ && forall|j: int|
                0 <= j < i ==> (#[trigger] labels@[j])@ != MAIN_WINDOW@,
            None => forall|j: int|
                0 <= j < labels@.len() ==> (#[trigger] labels@[j])@ != MAIN_WINDOW@,
        },
{
    for i in 0..labels.len()
        invariant
            forall|j: int| 0 <= j < i ==> (#[trigger] labels@[j])@ != MAIN_WINDOW@,
    {
        if is_main_window(labels[i].as_str()) {
            return Some(i);
        }
    }
    None
}

/// What happened to the application.
pub enum AppEvent {
    /// It is about to exit.
    ExitRequested,
    /// Something happened to the window with the given label.
    Window { label: String },
    /// Something else.
    Other,
}

/// What to do about it.
pub enum AppAction {
    /// Nothing.
    Nothing,
    /// Kill the server process.
    KillDsh,
    /// Close the window with the given label.
    CloseWindow { label: String },
}

/// Decides what to do about an event: the server dies with the application,
/// and no window but the one is left open.
pub fn on_app_event(event: AppEvent) -> (r: AppAction)
    ensures
        match event {
            AppEvent::ExitRequested => r is KillDsh,
            AppEvent::Window { label } => if label@ == MAIN_WINDOW@ {
                r is Nothing
            } else {
                r matches AppAction::CloseWindow { label: l } && l@ == label@
            },
            AppEvent::Other => r is Nothing,
        },
{
    match event {
        AppEvent::ExitRequested => AppAction::KillDsh,
        AppEvent::Window { label } => if is_main_window(label.as_str()) {
            AppAction::Nothing
        } else {
            AppAction::CloseWindow { label }
        },
        AppEvent::Other => AppAction::Nothing,
    }
}

} // verus!
