use photo_organizer::photo::{Photo, SizeFilter};
use photo_organizer::query::{SortCriteria, SortOrder};
use photo_organizer::session::{Message, PhotoOrganizer};

fn photo(name: &str, ext: &str, size: u64) -> Photo {
    Photo::new(format!("/pics/{}", name), name.to_string(), ext, 10, 10, size, None)
}

fn loaded(photos: Vec<Photo>) -> PhotoOrganizer {
    let mut s = PhotoOrganizer::new();
    let g = s.generation;
    s.update(Message::PhotosLoaded(g, photos));
    s
}

fn view_names(s: &PhotoOrganizer) -> Vec<String> {
    s.filtered.iter().map(|&i| s.photos[i].name.clone()).collect()
}

#[test]
fn new_session_is_loading_and_empty() {
    let s = PhotoOrganizer::new();
    assert!(s.loading);
    assert!(s.photos.is_empty());
    assert!(s.filtered.is_empty());
    assert_eq!(s.selected, None);
    assert_eq!(s.generation, 0);
    assert!(!s.load_failed);
    assert!(s.query.search_term.is_empty());
    let exts: Vec<(&str, bool)> =
        s.query.extension_enabled.iter().map(|t| (t.extension.as_str(), t.enabled)).collect();
    assert_eq!(
        exts,
        vec![("jpg", true), ("jpeg", true), ("png", true), ("gif", true), ("bmp", true), ("tiff", true), ("webp", true)]
    );
    assert_eq!(s.query.size_filter, SizeFilter::All);
    assert_eq!(s.query.sort_criteria, SortCriteria::Name);
    assert_eq!(s.query.sort_order, SortOrder::Ascending);
}

#[test]
fn load_builds_view() {
    let s = loaded(vec![photo("b.png", "png", 200), photo("a.jpg", "jpg", 100)]);
    assert!(!s.loading);
    assert_eq!(view_names(&s), vec!["a.jpg", "b.png"]);
}

#[test]
fn scenario_through_messages() {
    let mut s = loaded(vec![photo("b.png", "png", 200), photo("a.jpg", "jpg", 100)]);
    s.update(Message::ToggleFileType("jpg".to_string()));
    assert_eq!(view_names(&s), vec!["b.png"]);
    s.update(Message::ToggleFileType("jpg".to_string()));
    s.update(Message::SortCriteriaChanged(SortCriteria::Size));
    s.update(Message::ToggleSortOrder);
    assert_eq!(s.query.sort_order, SortOrder::Descending);
    assert_eq!(view_names(&s), vec!["b.png", "a.jpg"]);
}

#[test]
fn search_that_shrinks_view_clears_selection() {
    let mut s = loaded(vec![photo("cat1.png", "png", 1), photo("cat2.png", "png", 2), photo("dog.png", "png", 3)]);
    s.update(Message::PhotoSelected(2));
    assert_eq!(s.selected, Some(2));
    s.update(Message::SearchInput("cat".to_string()));
    assert_eq!(s.filtered.len(), 2);
    assert_eq!(s.selected, None);
}

#[test]
fn selecting_twice_deselects() {
    let mut s = loaded(vec![photo("a.png", "png", 1), photo("b.png", "png", 2)]);
    s.update(Message::PhotoSelected(1));
    assert_eq!(s.selected, Some(1));
    s.update(Message::PhotoSelected(0));
    assert_eq!(s.selected, Some(0));
    s.update(Message::PhotoSelected(0));
    assert_eq!(s.selected, None);
    s.update(Message::PhotoSelected(1));
    s.update(Message::PhotoDeselected);
    assert_eq!(s.selected, None);
}

#[test]
fn out_of_range_selection_is_cleared() {
    let mut s = loaded(vec![photo("a.png", "png", 1)]);
    s.update(Message::PhotoSelected(0));
    s.update(Message::PhotoSelected(5));
    assert_eq!(s.selected, None);
}

#[test]
fn any_query_change_clears_selection() {
    let mut s = loaded(vec![photo("a.png", "png", 1), photo("b.png", "png", 2)]);
    s.update(Message::PhotoSelected(1));
    s.update(Message::SelectSizeFilter(SizeFilter::Small));
    assert_eq!(s.selected, None);
    assert_eq!(s.query.size_filter, SizeFilter::Small);
    assert_eq!(s.filtered, vec![0, 1]);
}

#[test]
fn unknown_extension_toggle_changes_nothing() {
    let mut s = loaded(vec![photo("a.png", "png", 1)]);
    let before: Vec<(String, bool)> =
        s.query.extension_enabled.iter().map(|t| (t.extension.clone(), t.enabled)).collect();
    s.update(Message::ToggleFileType("heic".to_string()));
    let after: Vec<(String, bool)> =
        s.query.extension_enabled.iter().map(|t| (t.extension.clone(), t.enabled)).collect();
    assert_eq!(before, after);
    assert_eq!(s.filtered, vec![0]);
}

#[test]
fn stale_load_is_ignored() {
    let mut s = PhotoOrganizer::new();
    let old = s.generation;
    let newer = s.begin_load();
    assert_eq!(newer, old + 1);
    s.update(Message::PhotosLoaded(old, vec![photo("stale.png", "png", 1)]));
    assert!(s.photos.is_empty());
    assert!(s.loading);
    s.update(Message::PhotosLoaded(newer, vec![photo("fresh.png", "png", 1)]));
    assert_eq!(view_names(&s), vec!["fresh.png"]);
    assert!(!s.loading);
}

#[test]
fn reload_replaces_catalog() {
    let mut s = loaded(vec![photo("a.png", "png", 1), photo("b.png", "png", 2)]);
    s.update(Message::PhotoSelected(0));
    let g = s.begin_load();
    s.update(Message::PhotosLoaded(g, vec![photo("c.png", "png", 3)]));
    assert_eq!(view_names(&s), vec!["c.png"]);
    assert_eq!(s.selected, None);
}

#[test]
fn failed_load_empties_catalog_and_is_reported() {
    let mut s = loaded(vec![photo("a.png", "png", 1)]);
    s.update(Message::PhotoSelected(0));
    let g = s.begin_load();
    s.update(Message::LoadFailed(g));
    assert!(s.load_failed);
    assert!(!s.loading);
    assert!(s.photos.is_empty());
    assert!(s.filtered.is_empty());
    assert_eq!(s.selected, None);
    let g2 = s.begin_load();
    s.update(Message::PhotosLoaded(g2, vec![photo("b.png", "png", 1)]));
    assert!(!s.load_failed);
    assert_eq!(view_names(&s), vec!["b.png"]);
}

#[test]
fn stale_failure_is_ignored() {
    let mut s = PhotoOrganizer::new();
    let old = s.generation;
    let newer = s.begin_load();
    s.update(Message::LoadFailed(old));
    assert!(!s.load_failed);
    assert!(s.loading);
    s.update(Message::PhotosLoaded(newer, vec![photo("a.png", "png", 1)]));
    assert_eq!(s.filtered, vec![0]);
}
