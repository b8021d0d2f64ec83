use tmv::ui::UiState;

#[test]
fn ui_starts_with_everything_shown() {
    let s = UiState::new("m.obj".to_string(), "t.png".to_string());
    assert!(s.show_panel);
    assert!(s.show_grid);
    assert!(!s.pixelated);
    assert!(s.use_texture);
    assert_eq!(s.model_path, "m.obj");
    assert_eq!(s.vertex_count, 0);
    assert_eq!(s.triangle_count, 0);
    assert_eq!(s.frame_count, 0);
}

#[test]
fn toggle_panel_twice_restores() {
    let mut s = UiState::new("m.obj".to_string(), String::new());
    s.toggle_panel();
    assert!(!s.show_panel);
    assert!(s.show_grid);
    s.toggle_panel();
    assert!(s.show_panel);
}

#[test]
fn model_stats_count_triangles() {
    let mut s = UiState::new(String::new(), String::new());
    s.set_model_stats(36, 36);
    assert_eq!(s.vertex_count, 36);
    assert_eq!(s.triangle_count, 12);
    s.set_model_stats(7, 8);
    assert_eq!(s.triangle_count, 2);
}

#[test]
fn frames_are_counted_per_window() {
    let mut s = UiState::new(String::new(), String::new());
    assert_eq!(s.record_frame(false), None);
    assert_eq!(s.record_frame(false), None);
    assert_eq!(s.record_frame(true), Some(3));
    assert_eq!(s.frame_count, 0);
    assert_eq!(s.record_frame(true), Some(1));
}

#[test]
fn frame_counter_wraps() {
    let mut s = UiState::new(String::new(), String::new());
    s.frame_count = u32::MAX;
    assert_eq!(s.record_frame(true), Some(0));
}
