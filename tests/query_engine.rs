use photo_organizer::photo::{Photo, SizeFilter};
use photo_organizer::query::{evaluate, keep_entry, QueryState, SortCriteria, SortOrder};

fn photo(name: &str, ext: &str, width: u32, height: u32, size: u64, modified: Option<u64>) -> Photo {
    Photo::new(format!("/pics/{}", name), name.to_string(), ext, width, height, size, modified)
}

fn names(catalog: &Vec<Photo>, view: &Vec<usize>) -> Vec<String> {
    view.iter().map(|&i| catalog[i].name.clone()).collect()
}

fn set_enabled(q: &mut QueryState, ext: &str, on: bool) {
    for t in q.extension_enabled.iter_mut() {
        if t.extension == ext {
            t.enabled = on;
        }
    }
}

fn two_photo_catalog() -> Vec<Photo> {
    vec![photo("b.png", "png", 10, 10, 200, None), photo("a.jpg", "jpg", 10, 10, 100, None)]
}

#[test]
fn scenario_name_ascending() {
    let catalog = two_photo_catalog();
    let q = QueryState::new();
    assert_eq!(names(&catalog, &evaluate(&catalog, &q)), vec!["a.jpg", "b.png"]);
}

#[test]
fn scenario_jpg_disabled() {
    let catalog = two_photo_catalog();
    let mut q = QueryState::new();
    set_enabled(&mut q, "jpg", false);
    assert_eq!(names(&catalog, &evaluate(&catalog, &q)), vec!["b.png"]);
}

#[test]
fn scenario_size_descending_after_reenabling() {
    let catalog = two_photo_catalog();
    let mut q = QueryState::new();
    set_enabled(&mut q, "jpg", false);
    set_enabled(&mut q, "jpg", true);
    q.sort_criteria = SortCriteria::Size;
    q.sort_order = SortOrder::Descending;
    assert_eq!(names(&catalog, &evaluate(&catalog, &q)), vec!["b.png", "a.jpg"]);
}

#[test]
fn evaluate_is_idempotent() {
    let catalog = vec![
        photo("c.png", "png", 300, 300, 5, Some(3)),
        photo("a.gif", "gif", 1, 1, 5, None),
        photo("b.bmp", "bmp", 1000, 1000, 7, Some(1)),
    ];
    let mut q = QueryState::new();
    q.sort_criteria = SortCriteria::Date;
    let first = evaluate(&catalog, &q);
    let second = evaluate(&catalog, &q);
    assert_eq!(first, second);
    assert_eq!(first, vec![2, 0, 1]);
}

#[test]
fn view_entries_pass_every_filter() {
    let catalog = vec![
        photo("Holiday.JPG", "JPG", 400, 400, 1, None),
        photo("holiday.png", "png", 2000, 2000, 2, None),
        photo("work.jpg", "jpg", 100, 100, 3, None),
        photo("holiday2.webp", "webp", 400, 400, 4, None),
    ];
    let mut q = QueryState::new();
    q.search_term = "HOLI".to_string();
    q.size_filter = SizeFilter::Medium;
    set_enabled(&mut q, "webp", false);
    assert_eq!(evaluate(&catalog, &q), vec![0]);
}

#[test]
fn unknown_extension_never_shown() {
    let catalog = vec![photo("x.heic", "heic", 10, 10, 1, None), photo("y.png", "png", 10, 10, 1, None)];
    let q = QueryState::new();
    assert_eq!(evaluate(&catalog, &q), vec![1]);
    let mut empty = QueryState::new();
    empty.extension_enabled = Vec::new();
    assert!(evaluate(&catalog, &empty).is_empty());
}

#[test]
fn equal_keys_keep_catalog_order_both_directions() {
    let catalog = vec![
        photo("p.png", "png", 1, 1, 50, None),
        photo("q.png", "png", 1, 1, 10, None),
        photo("r.png", "png", 1, 1, 50, None),
        photo("s.png", "png", 1, 1, 10, None),
    ];
    let mut q = QueryState::new();
    q.sort_criteria = SortCriteria::Size;
    assert_eq!(evaluate(&catalog, &q), vec![1, 3, 0, 2]);
    q.sort_order = SortOrder::Descending;
    assert_eq!(evaluate(&catalog, &q), vec![0, 2, 1, 3]);
}

#[test]
fn size_bucket_boundaries_in_view() {
    let catalog = vec![
        photo("a.png", "png", 1000, 100, 1, None),
        photo("b.png", "png", 100_001, 1, 1, None),
        photo("c.png", "png", 1000, 500, 1, None),
        photo("d.png", "png", 500_001, 1, 1, None),
        photo("e.png", "png", 0, 0, 1, None),
    ];
    let mut q = QueryState::new();
    q.size_filter = SizeFilter::Small;
    assert_eq!(evaluate(&catalog, &q), vec![0, 4]);
    q.size_filter = SizeFilter::Medium;
    assert_eq!(evaluate(&catalog, &q), vec![1, 2]);
    q.size_filter = SizeFilter::Large;
    assert_eq!(evaluate(&catalog, &q), vec![3]);
    q.size_filter = SizeFilter::All;
    assert_eq!(evaluate(&catalog, &q), vec![0, 1, 2, 3, 4]);
}

#[test]
fn date_sort_puts_unknown_dates_last() {
    let catalog = vec![
        photo("a.png", "png", 1, 1, 1, None),
        photo("b.png", "png", 1, 1, 1, Some(20)),
        photo("c.png", "png", 1, 1, 1, Some(10)),
        photo("d.png", "png", 1, 1, 1, None),
    ];
    let mut q = QueryState::new();
    q.sort_criteria = SortCriteria::Date;
    assert_eq!(evaluate(&catalog, &q), vec![2, 1, 0, 3]);
    q.sort_order = SortOrder::Descending;
    assert_eq!(evaluate(&catalog, &q), vec![1, 2, 0, 3]);
}

#[test]
fn name_sort_uses_code_point_order() {
    let catalog = vec![
        photo("b.png", "png", 1, 1, 1, None),
        photo("B.png", "png", 1, 1, 1, None),
        photo("ab.png", "png", 1, 1, 1, None),
        photo("a.png", "png", 1, 1, 1, None),
        photo("é.png", "png", 1, 1, 1, None),
    ];
    let mut q = QueryState::new();
    assert_eq!(names(&catalog, &evaluate(&catalog, &q)), vec!["B.png", "a.png", "ab.png", "b.png", "é.png"]);
    q.sort_order = SortOrder::Descending;
    assert_eq!(names(&catalog, &evaluate(&catalog, &q)), vec!["é.png", "b.png", "ab.png", "a.png", "B.png"]);
}

#[test]
fn search_is_case_insensitive() {
    let catalog = vec![photo("Sunset.PNG", "png", 1, 1, 1, None), photo("beach.png", "png", 1, 1, 1, None)];
    let mut q = QueryState::new();
    q.search_term = "sUnS".to_string();
    assert_eq!(evaluate(&catalog, &q), vec![0]);
    q.search_term = String::new();
    assert_eq!(evaluate(&catalog, &q), vec![0, 1]);
    q.search_term = "zzz".to_string();
    assert!(evaluate(&catalog, &q).is_empty());
}

#[test]
fn keep_entry_on_folded_text() {
    let p = photo("Sunset.PNG", "png", 10, 10, 1, None);
    let q = QueryState::new();
    assert!(keep_entry(&p, "sunset.png", "set", &q));
    assert!(!keep_entry(&p, "sunset.png", "dawn", &q));
    assert!(keep_entry(&p, "sunset.png", "", &q));
}

#[test]
fn starting_query() {
    let q = QueryState::new();
    let exts: Vec<&str> = q.extension_enabled.iter().map(|t| t.extension.as_str()).collect();
    assert_eq!(exts, vec!["jpg", "jpeg", "png", "gif", "bmp", "tiff", "webp"]);
    assert!(q.extension_enabled.iter().all(|t| t.enabled));
    assert!(q.search_term.is_empty());
    assert_eq!(q.size_filter, SizeFilter::All);
    assert_eq!(q.sort_criteria, SortCriteria::Name);
    assert_eq!(q.sort_order, SortOrder::Ascending);
    assert!(q.is_extension_on(&"png".to_string()));
    assert!(!q.is_extension_on(&"PNG".to_string()));
}

#[test]
fn empty_catalog_gives_empty_view() {
    let catalog: Vec<Photo> = Vec::new();
    assert!(evaluate(&catalog, &QueryState::new()).is_empty());
}

#[test]
fn set_extension_enabled_switches_one_extension() {
    let catalog = two_photo_catalog();
    let mut q = QueryState::new();
    q.set_extension_enabled(&"png".to_string(), false);
    assert_eq!(names(&catalog, &evaluate(&catalog, &q)), vec!["a.jpg"]);
    assert!(!q.is_extension_on(&"png".to_string()));
    assert!(q.is_extension_on(&"jpg".to_string()));
    q.set_extension_enabled(&"png".to_string(), true);
    assert_eq!(names(&catalog, &evaluate(&catalog, &q)), vec!["a.jpg", "b.png"]);
    q.set_extension_enabled(&"heic".to_string(), true);
    assert_eq!(q.extension_enabled.len(), 7);
    assert!(!q.is_extension_on(&"heic".to_string()));
}

#[test]
fn toggle_extension_flips_switch() {
    let mut q = QueryState::new();
    q.toggle_extension(&"gif".to_string());
    assert!(!q.is_extension_on(&"gif".to_string()));
    q.toggle_extension(&"gif".to_string());
    assert!(q.is_extension_on(&"gif".to_string()));
}
