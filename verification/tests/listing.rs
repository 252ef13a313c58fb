use simple_image_viewer::cache::ThumbnailCache;
use simple_image_viewer::explorer_state::{
    complete_listing, have_different_paths, list_page, matches_query, page_bounds, plan_listing,
    plan_scanned_listing, total_pages, FolderScan, ListingError, ProbeOutcome, CATALOG_PER_PAGE,
};
use simple_image_viewer::explorer_types::{ExplorerQuery, SortConfig, SortField, SortOrder};

fn scan(name: &str, modified: Option<u64>, created: Option<u64>) -> FolderScan {
    FolderScan {
        path: format!("/media/{}", name),
        filename: name.to_string(),
        modified_at: modified,
        created_at: created,
    }
}

fn names(folders: &[FolderScan]) -> Vec<String> {
    folders.iter().map(|f| f.filename.clone()).collect()
}

#[test]
fn page_size_is_fifty() {
    assert_eq!(CATALOG_PER_PAGE, 50);
}

#[test]
fn total_pages_rounds_up_and_is_never_zero() {
    assert_eq!(total_pages(0), 1);
    assert_eq!(total_pages(1), 1);
    assert_eq!(total_pages(50), 1);
    assert_eq!(total_pages(51), 2);
    assert_eq!(total_pages(100), 2);
    assert_eq!(total_pages(101), 3);
    assert_eq!(total_pages(120), 3);
}

#[test]
fn page_bounds_cover_the_page() {
    assert_eq!(page_bounds(1, 120), (0, 50));
    assert_eq!(page_bounds(0, 120), (0, 50));
    assert_eq!(page_bounds(2, 120), (50, 100));
    assert_eq!(page_bounds(3, 120), (100, 120));
    let (start, end) = page_bounds(4, 120);
    assert_eq!(start, end);
    let (start, end) = page_bounds(usize::MAX, 120);
    assert_eq!(start, end);
}

#[test]
fn third_page_of_120_folders_holds_the_last_twenty() {
    let scans: Vec<FolderScan> =
        (1..=120u64).map(|i| scan(&format!("folder{:03}", i), Some(1000 - i), None)).collect();
    let sort = SortConfig::default();
    let (folders, pages) = list_page(&scans, 3, &sort, None);
    assert_eq!(pages, 3);
    assert_eq!(folders.len(), 20);
    let expected: Vec<String> = (101..=120).map(|i| format!("folder{:03}", i)).collect();
    assert_eq!(names(&folders), expected);
}

#[test]
fn empty_directory_has_one_page_and_no_entries() {
    let scans: Vec<FolderScan> = Vec::new();
    let (folders, pages) = list_page(&scans, 1, &SortConfig::default(), None);
    assert!(folders.is_empty());
    assert_eq!(pages, 1);
}

#[test]
fn page_beyond_the_last_is_empty_with_true_page_count() {
    let scans: Vec<FolderScan> = (0..60u64).map(|i| scan(&format!("f{}", i), Some(i), None)).collect();
    let (folders, pages) = list_page(&scans, 7, &SortConfig::default(), None);
    assert!(folders.is_empty());
    assert_eq!(pages, 2);
}

#[test]
fn a_page_never_holds_more_than_fifty() {
    let scans: Vec<FolderScan> = (0..173u64).map(|i| scan(&format!("f{}", i), Some(i), None)).collect();
    for page in 0..6 {
        let (folders, pages) = list_page(&scans, page, &SortConfig::default(), None);
        assert!(folders.len() <= 50);
        assert_eq!(pages, 4);
    }
}

#[test]
fn default_sort_is_newest_modification_first() {
    let sort = SortConfig::default();
    assert_eq!(sort.field, SortField::DateModified);
    assert_eq!(sort.order, SortOrder::Desc);
    let query = ExplorerQuery::default();
    assert_eq!(query.sort, sort);
    assert!(query.search.is_none());
    let scans = vec![scan("a", Some(5), None), scan("b", Some(9), None), scan("c", None, None), scan("d", Some(7), None)];
    let (folders, _) = list_page(&scans, 1, &sort, None);
    assert_eq!(names(&folders), vec!["b", "d", "a", "c"]);
}

#[test]
fn missing_time_stamp_sorts_lowest() {
    let sort = SortConfig { field: SortField::DateCreated, order: SortOrder::Asc };
    let scans = vec![scan("a", None, Some(3)), scan("b", None, None), scan("c", None, Some(1)), scan("d", None, None)];
    let (folders, _) = list_page(&scans, 1, &sort, None);
    assert_eq!(names(&folders), vec!["b", "d", "c", "a"]);
}

#[test]
fn ties_keep_scan_order_in_both_directions() {
    let scans = vec![scan("x", Some(1), None), scan("y", Some(1), None), scan("z", Some(2), None), scan("w", Some(1), None)];
    let asc = SortConfig { field: SortField::DateModified, order: SortOrder::Asc };
    let (folders, _) = list_page(&scans, 1, &asc, None);
    assert_eq!(names(&folders), vec!["x", "y", "w", "z"]);
    let desc = SortConfig { field: SortField::DateModified, order: SortOrder::Desc };
    let (folders, _) = list_page(&scans, 1, &desc, None);
    assert_eq!(names(&folders), vec!["z", "x", "y", "w"]);
}

#[test]
fn name_sort_is_byte_order_not_natural_order() {
    let scans = vec![scan("a10", None, None), scan("a2", None, None), scan("B", None, None), scan("a", None, None), scan("é", None, None)];
    let asc = SortConfig { field: SortField::Name, order: SortOrder::Asc };
    let (folders, _) = list_page(&scans, 1, &asc, None);
    assert_eq!(names(&folders), vec!["B", "a", "a10", "a2", "é"]);
    let desc = SortConfig { field: SortField::Name, order: SortOrder::Desc };
    let (folders, _) = list_page(&scans, 1, &desc, None);
    assert_eq!(names(&folders), vec!["é", "a2", "a10", "a", "B"]);
}

#[test]
fn search_is_a_case_insensitive_substring() {
    assert!(matches_query("Holiday Photos", Some("photo")));
    assert!(matches_query("Holiday Photos", Some("HOLI")));
    assert!(!matches_query("Holiday Photos", Some("video")));
    assert!(matches_query("anything", Some("")));
    assert!(matches_query("anything", None));
    let scans = vec![scan("Cats", Some(1), None), scan("dogs", Some(2), None), scan("wildCATS", Some(3), None)];
    let (folders, pages) = list_page(&scans, 1, &SortConfig::default(), Some("cat"));
    assert_eq!(names(&folders), vec!["wildCATS", "Cats"]);
    assert_eq!(pages, 1);
}

#[test]
fn search_counts_only_eligible_folders_for_pages() {
    let mut scans: Vec<FolderScan> = (0..120u64).map(|i| scan(&format!("keep{}", i), Some(i), None)).collect();
    scans.extend((0..80u64).map(|i| scan(&format!("drop{}", i), Some(i), None)));
    let (folders, pages) = list_page(&scans, 3, &SortConfig::default(), Some("KEEP"));
    assert_eq!(pages, 3);
    assert_eq!(folders.len(), 20);
}

#[test]
fn listing_fills_the_cache_and_the_second_listing_probes_nothing() {
    let scans = vec![scan("a", Some(3), None), scan("b", Some(2), None), scan("c", Some(1), None)];
    let mut cache = ThumbnailCache::new();
    let sort = SortConfig::default();
    let plan = plan_listing(&scans, 1, &cache, &sort, None);
    assert_eq!(plan.total_pages, 1);
    assert_eq!(plan.entries.len(), 3);
    assert!(plan.entries.iter().all(|e| e.cached.is_none()));
    let outcomes = vec![
        ProbeOutcome::Found("/media/a/1.jpg".to_string()),
        ProbeOutcome::Found(String::new()),
        ProbeOutcome::Unavailable,
    ];
    let (first, pages) = complete_listing(&plan, &outcomes, &mut cache).unwrap();
    assert_eq!(pages, 1);
    let thumbs: Vec<String> = first.iter().map(|t| t.thumbpath.clone()).collect();
    assert_eq!(thumbs, vec!["/media/a/1.jpg", "", ""]);
    assert_eq!(first[0].path, "/media/a");
    assert_eq!(first[0].filename, "a");
    assert_eq!(first[0].modified_at, Some(3));
    assert_eq!(cache.get("/media/b"), Some(String::new()));

    let again = plan_listing(&scans, 1, &cache, &sort, None);
    assert!(again.entries.iter().all(|e| e.cached.is_some()));
    let (second, _) = complete_listing(&again, &Vec::new(), &mut cache).unwrap();
    let thumbs_again: Vec<String> = second.iter().map(|t| t.thumbpath.clone()).collect();
    assert_eq!(thumbs, thumbs_again);
}

#[test]
fn cached_thumbnail_wins_over_probe() {
    let scans = vec![scan("a", Some(1), None)];
    let mut cache = ThumbnailCache::new();
    cache.put("/media/a".to_string(), "/media/a/old.png".to_string());
    let plan = plan_listing(&scans, 1, &cache, &SortConfig::default(), None);
    let outcomes = vec![ProbeOutcome::Found("/media/a/new.png".to_string())];
    let (thumbs, _) = complete_listing(&plan, &outcomes, &mut cache).unwrap();
    assert_eq!(thumbs[0].thumbpath, "/media/a/old.png");
    assert_eq!(cache.get("/media/a"), Some("/media/a/old.png".to_string()));
}

#[test]
fn lost_task_fails_the_listing_but_keeps_other_findings() {
    let scans = vec![scan("a", Some(2), None), scan("b", Some(1), None)];
    let mut cache = ThumbnailCache::new();
    let plan = plan_listing(&scans, 1, &cache, &SortConfig::default(), None);
    let outcomes = vec![ProbeOutcome::TaskFailed, ProbeOutcome::Found("/media/b/x.gif".to_string())];
    let result = complete_listing(&plan, &outcomes, &mut cache);
    assert_eq!(result.err(), Some(ListingError::ThumbnailExtractionFailed));
    assert_eq!(cache.get("/media/a"), None);
    assert_eq!(cache.get("/media/b"), Some("/media/b/x.gif".to_string()));
}

#[test]
fn listing_errors_have_their_messages() {
    assert_eq!(ListingError::DirectoryUnreadable.message(), "failed to open path");
    assert_eq!(ListingError::ThumbnailExtractionFailed.message(), "failed to extract thumbnails");
}

#[test]
fn unreadable_directory_fails_the_listing() {
    let cache = ThumbnailCache::new();
    let sort = SortConfig::default();
    for page in [0, 1, 7] {
        let failed = plan_scanned_listing(None, page, &cache, &sort, None);
        assert_eq!(failed.err(), Some(ListingError::DirectoryUnreadable));
    }
    let empty = plan_scanned_listing(Some(vec![]), 1, &cache, &sort, None).unwrap();
    assert!(empty.entries.is_empty());
    assert_eq!(empty.total_pages, 1);
    let one = plan_scanned_listing(Some(vec![scan("a", Some(1), None)]), 1, &cache, &sort, Some("A")).unwrap();
    assert_eq!(one.entries.len(), 1);
    assert_eq!(one.entries[0].folder.path, "/media/a");
    assert!(one.entries[0].cached.is_none());
}

#[test]
fn subfolders_of_a_directory_have_different_paths() {
    assert!(have_different_paths(&vec![]));
    assert!(have_different_paths(&vec![scan("a", None, None)]));
    assert!(have_different_paths(&vec![scan("a", None, None), scan("b", None, None), scan("A", None, None)]));
    assert!(!have_different_paths(&vec![scan("a", None, None), scan("b", Some(1), None), scan("a", Some(2), None)]));
}
