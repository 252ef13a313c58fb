use simple_image_viewer::explorer_state::Thumbnail;
use simple_image_viewer::explorer_tabs::{
    add_explorer_state, clamp_page, find_explorer, next_page, previous_page,
    remove_explorer_state, ExplorerState,
};
use simple_image_viewer::explorer_types::{SortConfig, SortField, SortOrder};
use simple_image_viewer::types::{ActiveTab, ActiveViewer, StateError, StreamActivation};
use simple_image_viewer::viewer_state::{File, FileTree};
use simple_image_viewer::viewer_tabs::{
    add_viewer_state, find_viewer, remove_viewer_state, tab_root, tab_title, ViewerState,
};

fn device(path: &str) -> Thumbnail {
    Thumbnail {
        path: path.to_string(),
        filename: path.to_string(),
        thumbpath: String::new(),
        modified_at: None,
        created_at: None,
    }
}

fn image(key: &str, path: &str) -> FileTree {
    FileTree::File(File {
        key: key.to_string(),
        file_type: "Image".to_string(),
        path: path.to_string(),
        name: path.to_string(),
    })
}

fn active(state: &Option<ActiveTab>) -> Option<String> {
    state.as_ref().map(|t| t.key.clone())
}

#[test]
fn small_types() {
    assert_eq!(ActiveViewer { label: "viewer-0".to_string() }.label, "viewer-0");
    assert!(StreamActivation(true).0);
    assert_eq!(Thumbnail::default().path, "");
    assert_eq!(Thumbnail::default().created_at, None);
    assert_eq!(StateError::ExplorerNotFound.message(), "explorer not found");
    assert_eq!(StateError::ViewerNotFound.message(), "viewer not found");
    assert_eq!(StateError::TabNotFound.message(), "tab not found");
    assert_eq!(StateError::NoActiveTab.message(), "no active tab");
}

#[test]
fn explorers_are_numbered() {
    let mut explorers: Vec<ExplorerState> = Vec::new();
    let mut count = 0;
    assert_eq!(add_explorer_state(&mut explorers, &mut count), "explorer-0");
    assert_eq!(add_explorer_state(&mut explorers, &mut count), "explorer-1");
    assert_eq!(count, 2);
    assert_eq!(find_explorer(&explorers, "explorer-1"), Ok(1));
    assert_eq!(find_explorer(&explorers, "explorer-7"), Err(StateError::ExplorerNotFound));
    assert_eq!(remove_explorer_state(&mut explorers, "explorer-0"), Ok(()));
    assert_eq!(explorers.len(), 1);
    assert_eq!(explorers[0].label, "explorer-1");
    assert_eq!(remove_explorer_state(&mut explorers, "explorer-0"), Err(StateError::ExplorerNotFound));
}

#[test]
fn explorer_tabs_open_reset_and_close() {
    let mut explorers: Vec<ExplorerState> = Vec::new();
    let mut count = 0;
    add_explorer_state(&mut explorers, &mut count);
    let explorer = &mut explorers[0];
    assert_eq!(explorer.active_tab_index(), Err(StateError::NoActiveTab));
    assert_eq!(explorer.add_explorer_tab_state(vec![device("/")]), "tab-1");
    assert_eq!(explorer.add_explorer_tab_state(vec![]), "tab-2");
    assert_eq!(explorer.add_explorer_tab_state(vec![]), "tab-3");
    assert_eq!(active(&explorer.active), Some("tab-3".to_string()));
    assert_eq!(explorer.tabs[0].title, "Explorer");
    assert_eq!(explorer.tabs[0].page, 1);
    assert_eq!(explorer.tabs[0].end, 1);
    assert_eq!(explorer.tabs[0].folders.len(), 1);
    assert_eq!(explorer.get_tab_index_by_key("tab-2"), Ok(1));
    assert_eq!(explorer.get_tab_index_by_key("tab-9"), Err(StateError::TabNotFound));
    assert_eq!(explorer.active_tab_index(), Ok(2));

    explorer.tabs[1].path = Some("/media".to_string());
    explorer.tabs[1].transfer_path = Some("/target".to_string());
    explorer.tabs[1].search_query = Some("cat".to_string());
    explorer.tabs[1].sort = SortConfig { field: SortField::Name, order: SortOrder::Asc };
    explorer.update_tab(1, 4, vec![device("/media/a"), device("/media/b")], 9);
    assert_eq!(explorer.tabs[1].page, 4);
    assert_eq!(explorer.tabs[1].end, 9);
    assert_eq!(explorer.tabs[1].folders.len(), 2);
    assert_eq!(explorer.tabs[1].path, Some("/media".to_string()));

    assert_eq!(explorer.reset_explorer_tab_state("tab-2", vec![device("/")]), Ok(1));
    assert_eq!(explorer.tabs[1].page, 1);
    assert_eq!(explorer.tabs[1].end, 1);
    assert_eq!(explorer.tabs[1].path, None);
    assert_eq!(explorer.tabs[1].search_query, None);
    assert_eq!(explorer.tabs[1].sort, SortConfig::default());
    assert_eq!(explorer.tabs[1].transfer_path, Some("/target".to_string()));
    assert_eq!(explorer.reset_explorer_tab_state("tab-9", vec![]), Err(StateError::TabNotFound));

    // closing the last tab while it is active activates the new last one
    assert_eq!(explorer.remove_explorer_tab_state("tab-3"), Ok(()));
    assert_eq!(active(&explorer.active), Some("tab-2".to_string()));
    // closing an inactive tab keeps the active one
    assert_eq!(explorer.remove_explorer_tab_state("tab-1"), Ok(()));
    assert_eq!(active(&explorer.active), Some("tab-2".to_string()));
    assert_eq!(explorer.remove_explorer_tab_state("tab-1"), Err(StateError::TabNotFound));
    assert_eq!(explorer.remove_explorer_tab_state("tab-2"), Ok(()));
    assert_eq!(active(&explorer.active), None);
    assert_eq!(explorer.count, 3);
}

#[test]
fn closing_the_active_tab_activates_its_successor() {
    let mut explorer = ExplorerState { label: "explorer-0".to_string(), count: 0, active: None, tabs: vec![] };
    explorer.add_explorer_tab_state(vec![]);
    explorer.add_explorer_tab_state(vec![]);
    explorer.add_explorer_tab_state(vec![]);
    explorer.active = Some(ActiveTab { key: "tab-1".to_string() });
    assert_eq!(explorer.remove_explorer_tab_state("tab-1"), Ok(()));
    assert_eq!(active(&explorer.active), Some("tab-2".to_string()));
}

#[test]
fn page_steps() {
    assert_eq!(next_page(1, 3), Some(2));
    assert_eq!(next_page(3, 3), None);
    assert_eq!(previous_page(2), Some(1));
    assert_eq!(previous_page(1), None);
    assert_eq!(previous_page(0), None);
    assert_eq!(clamp_page(5, 3), 3);
    assert_eq!(clamp_page(2, 3), 2);
}

#[test]
fn viewers_and_their_tabs() {
    let mut viewers: Vec<ViewerState> = Vec::new();
    let mut count = 3;
    assert_eq!(add_viewer_state(&mut viewers, &mut count), "viewer-3");
    assert_eq!(count, 4);
    assert_eq!(find_viewer(&viewers, "viewer-3"), Ok(0));
    assert_eq!(find_viewer(&viewers, "viewer-0"), Err(StateError::ViewerNotFound));

    assert_eq!(tab_title("/pics/trip/a.png"), "trip");
    assert_eq!(tab_title("/pics/pack.zip"), "pack");
    assert_eq!(tab_root("/pics/trip/a.png"), "/pics/trip");
    assert_eq!(tab_root("/pics/pack.zip"), "/pics/pack.zip");

    let viewer = &mut viewers[0];
    let tree = vec![image("file-1", "/pics/trip/a.png"), image("file-2", "/pics/trip/b.png")];
    assert_eq!(viewer.add_viewer_tab_state(&"/pics/trip/b.png".to_string(), tree), "tab-1");
    assert_eq!(active(&viewer.active), Some("tab-1".to_string()));
    assert_eq!(viewer.tabs[0].title, "trip");
    assert_eq!(viewer.tabs[0].path, "/pics/trip");
    assert_eq!(viewer.tabs[0].viewing.as_ref().map(|f| f.key.clone()), Some("file-2".to_string()));

    let zipped = vec![image("file-1", "/pics/pack.zip"), image("file-2", "/pics/pack.zip")];
    assert_eq!(viewer.add_viewer_tab_state(&"/pics/pack.zip".to_string(), zipped), "tab-2");
    assert_eq!(viewer.tabs[1].title, "pack");
    assert_eq!(viewer.tabs[1].path, "/pics/pack.zip");
    assert_eq!(viewer.tabs[1].viewing.as_ref().map(|f| f.key.clone()), Some("file-1".to_string()));

    let tab = &mut viewer.tabs[0];
    assert!(tab.move_viewing(true));
    assert_eq!(tab.viewing.as_ref().map(|f| f.key.clone()), Some("file-1".to_string()));
    assert!(tab.move_viewing(false));
    assert_eq!(tab.viewing.as_ref().map(|f| f.key.clone()), Some("file-2".to_string()));
    tab.change_viewing(&"file-1".to_string());
    assert_eq!(tab.viewing.as_ref().map(|f| f.key.clone()), Some("file-1".to_string()));
    tab.change_viewing(&"file-9".to_string());
    assert!(tab.viewing.is_none());
    assert!(!tab.move_viewing(true));

    assert_eq!(viewer.tab_index("tab-2"), Ok(1));
    assert_eq!(viewer.remove_viewer_tab_state("tab-2"), Ok(()));
    assert_eq!(active(&viewer.active), Some("tab-1".to_string()));
    assert_eq!(viewer.remove_viewer_tab_state("tab-2"), Err(StateError::TabNotFound));
    assert_eq!(remove_viewer_state(&mut viewers, "viewer-3"), Ok(()));
    assert!(viewers.is_empty());
}
