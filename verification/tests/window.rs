use chat_backend::greet;
use chat_backend::window::{
    close, minimize, toggle_maximize, toggle_maximize_action, WindowAction, WindowState,
};

#[test]
fn greeting_names_the_caller() {
    assert_eq!(greet("World"), "Hello, World! You've been greeted from Rust!");
    assert_eq!(greet(""), "Hello, ! You've been greeted from Rust!");
}

#[test]
fn toggle_unmaximizes_only_a_known_maximized_window() {
    assert_eq!(toggle_maximize_action(Some(true)), WindowAction::Unmaximize);
    assert_eq!(toggle_maximize_action(Some(false)), WindowAction::Maximize);
    assert_eq!(toggle_maximize_action(None), WindowAction::Maximize);
}

#[test]
fn toggling_twice_restores_the_maximized_state() {
    let mut w = WindowState { open: true, minimized: false, maximized: true };
    toggle_maximize(&mut w);
    assert!(!w.maximized);
    toggle_maximize(&mut w);
    assert!(w.maximized);
    assert_eq!(w, WindowState { open: true, minimized: false, maximized: true });
}

#[test]
fn minimize_and_close_touch_only_their_flag() {
    let mut w = WindowState { open: true, minimized: false, maximized: true };
    minimize(&mut w);
    assert_eq!(w, WindowState { open: true, minimized: true, maximized: true });
    close(&mut w);
    assert_eq!(w, WindowState { open: false, minimized: true, maximized: true });
}
