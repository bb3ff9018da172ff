use lut_mapper::app_state::{pool_size, pool_size_for, AppState, LoadState, PreviewKind, Scroll, Status};
use lut_mapper::image_io::ExportFormat;

type State = AppState<String, u32, char>;

fn opened(n: usize) -> State {
    let mut s = State::default();
    let paths: Vec<String> = (0..n).map(|i| format!("img{i}.png")).collect();
    assert!(s.open_files(paths));
    s
}

fn is_not_loaded(s: &LoadState<u32, char>) -> bool {
    matches!(s, LoadState::NotLoaded)
}

#[test]
fn default_workspace() {
    let s = State::default();
    assert!(!s.currently_busy);
    assert_eq!(s.export_format, "PNG");
    assert_eq!(s.current_image, 0);
    assert!(s.images.is_empty());
    assert_eq!(s.loaded_count, 0);
    assert_eq!(s.status(), Status::Ready);
}

#[test]
fn open_empty_list_changes_nothing() {
    let mut s = opened(2);
    s.on_image_loaded(0, Ok(5));
    assert!(!s.open_files(vec![]));
    assert_eq!(s.images.len(), 2);
    assert!(matches!(s.images[0].1, LoadState::Processing(5)));
}

#[test]
fn open_files_resets_workspace() {
    let mut s = opened(3);
    s.go_next();
    s.on_image_loaded(0, Err("bad".to_string()));
    assert!(s.open_files(vec!["a".to_string(), "b".to_string()]));
    assert_eq!(s.images.len(), 2);
    assert_eq!(s.images[0].0, "a");
    assert_eq!(s.images[1].0, "b");
    assert!(s.images.iter().all(|(_, st)| is_not_loaded(st)));
    assert_eq!(s.current_image, 0);
    assert_eq!(s.loaded_count, 0);
    assert!(s.currently_busy);
    assert_eq!(s.status(), Status::Loading { done: 0, total: 2 });
}

#[test]
fn navigation_stays_in_range() {
    let mut s = opened(3);
    s.go_prev();
    assert_eq!(s.current_image, 0);
    s.go_next();
    s.go_next();
    assert_eq!(s.current_image, 2);
    s.go_next();
    assert_eq!(s.current_image, 2);
    s.go_prev();
    assert_eq!(s.current_image, 1);
}

#[test]
fn navigation_round_trip() {
    let mut s = opened(4);
    s.go_next();
    let start = s.current_image;
    s.go_next();
    s.go_prev();
    assert_eq!(s.current_image, start);
    s.go_prev();
    s.go_next();
    assert_eq!(s.current_image, start);
}

#[test]
fn navigation_on_empty_workspace() {
    let mut s = State::default();
    s.go_next();
    s.go_prev();
    assert_eq!(s.current_image, 0);
}

#[test]
fn navigation_input() {
    let mut s = opened(5);
    s.handle_navigation(true, false, Scroll::Forward);
    assert_eq!(s.current_image, 2);
    s.handle_navigation(false, true, Scroll::Back);
    assert_eq!(s.current_image, 0);
    s.handle_navigation(true, true, Scroll::Still);
    assert_eq!(s.current_image, 0);
}

#[test]
fn load_success_waits_for_preview() {
    let mut s = opened(2);
    assert!(s.on_image_loaded(1, Ok(42)));
    assert!(matches!(s.images[1].1, LoadState::Processing(42)));
    assert_eq!(s.loaded_count, 0);
    assert!(s.currently_busy);
    assert_eq!(s.original_at(1), Some(&42));
    assert_eq!(s.original_at(0), None);
    assert_eq!(s.preview_kind(1), PreviewKind::CreateDisplay);
}

#[test]
fn load_failure_finishes_image() {
    let mut s = opened(2);
    assert!(!s.on_image_loaded(0, Err("broken".to_string())));
    assert!(matches!(&s.images[0].1, LoadState::Failed(m) if m == "broken"));
    assert_eq!(s.loaded_count, 1);
    assert!(s.currently_busy);
    assert!(!s.on_image_loaded(1, Err("also".to_string())));
    assert_eq!(s.loaded_count, 2);
    assert!(!s.currently_busy);
}


#[test]
fn batch_finishes_when_all_previews_attached() {
    let mut s = opened(3);
    assert_eq!(s.preview_kind(0), PreviewKind::Discard);
    s.on_image_loaded(0, Ok(10));
    s.on_image_loaded(1, Err("x".to_string()));
    s.on_image_loaded(2, Ok(30));
    assert!(s.attach_display(2, 'c'));
    assert!(s.currently_busy);
    assert_eq!(s.status(), Status::Loading { done: 2, total: 3 });
    assert!(s.attach_display(0, 'a'));
    assert!(!s.currently_busy);
    assert_eq!(s.loaded_count, 3);
    assert_eq!(s.display_at(0), Some(&'a'));
    assert_eq!(s.original_at(0), Some(&10));
    assert_eq!(s.display_at(1), None);
    assert_eq!(s.preview_kind(0), PreviewKind::RefreshDisplay);
    assert_eq!(s.status(), Status::Viewing { position: 1, total: 3 });
}

#[test]
fn attach_display_ignores_other_states() {
    let mut s = opened(2);
    assert!(!s.attach_display(0, 'z'));
    assert!(!s.attach_display(7, 'z'));
    s.on_image_loaded(1, Ok(1));
    assert!(s.attach_display(1, 'a'));
    assert!(!s.attach_display(1, 'b'));
    assert_eq!(s.display_at(1), Some(&'a'));
    assert_eq!(s.loaded_count, 1);
}

#[test]
fn preview_and_export_need_a_loaded_image() {
    let mut s = opened(2);
    assert_eq!(s.update_preview(), None);
    assert_eq!(s.start_export(), None);
    s.on_image_loaded(0, Ok(1));
    assert_eq!(s.update_preview(), None);
    s.attach_display(0, 'a');
    s.on_image_loaded(1, Ok(2));
    s.attach_display(1, 'b');
    assert!(!s.currently_busy);
    assert_eq!(s.update_preview(), Some(0));
    s.go_next();
    assert_eq!(s.update_preview(), Some(1));
    s.export_format = "tiff".to_string();
    assert_eq!(s.start_export(), Some((1, ExportFormat::Tiff)));
    assert!(s.currently_busy);
    s.on_export_finished();
    assert!(!s.currently_busy);
}

#[test]
fn getters() {
    let s = opened(2);
    assert_eq!(s.path_at(1).map(|p| p.as_str()), Some("img1.png"));
    assert_eq!(s.path_at(2), None);
    assert!(matches!(s.current_state(), Some(LoadState::NotLoaded)));
    assert!(State::default().current_state().is_none());
}

#[test]
fn pool_sizes() {
    assert_eq!(pool_size_for(0), 1);
    assert_eq!(pool_size_for(1), 1);
    assert_eq!(pool_size_for(3), 1);
    assert_eq!(pool_size_for(8), 4);
    assert_eq!(pool_size_for(17), 8);
    assert!(pool_size() >= 1);
}
