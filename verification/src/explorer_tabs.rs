//! The tabs of an explorer window: which folder each one shows, on which
//! page, and which tab is active.

use crate::explorer_state::Thumbnail;
use crate::explorer_types::{SortConfig, SortField, SortOrder};
use crate::text::same_text;
use crate::types::{active_after_removal, active_key, first_index, lemma_first_index_is};
use crate::types::{make_numbered, numbered, ActiveTab, StateError};
use vstd::prelude::*;
use vstd::string::*;

verus! {

/// One tab of an explorer.
#[derive(Debug)]
pub struct ExplorerTabState {
    pub title: String,
    pub key: String,
    pub path: Option<String>,
    pub transfer_path: Option<String>,
    pub page: usize,
    pub end: usize,
    pub folders: Vec<Thumbnail>,
    pub sort: SortConfig,
    pub search_query: Option<String>,
}

/// One explorer window with its tabs.
#[derive(Debug)]
pub struct ExplorerState {
    pub label: String,
    /// The number of tabs that were ever opened; the next key follows it.
    pub count: i32,
    pub active: Option<ActiveTab>,
    pub tabs: Vec<ExplorerTabState>,
}

/// The keys of tabs, in order.
pub open spec fn tab_keys(tabs: Seq<ExplorerTabState>) -> Seq<Seq<char>> {
    tabs.map_values(|t: ExplorerTabState| t.key@)
}

/// The labels of explorers, in order.
pub open spec fn explorer_labels(explorers: Seq<ExplorerState>) -> Seq<Seq<char>> {
    explorers.map_values(|e: ExplorerState| e.label@)
}

/// The page that a step forward from `page` leads to, if there is one among
/// `end` pages.
pub open spec fn page_forward(page: usize, end: usize) -> Option<usize> {
    if page < end {
        Some((page + 1) as usize)
    } else {
        None
    }
}

/// The page that a step backward from `page` leads to, if there is one.
pub open spec fn page_backward(page: usize) -> Option<usize> {
    if page > 1 {
        Some((page - 1) as usize)
    } else {
        None
    }
}

/// Decides [`page_forward`].
pub fn next_page(page: usize, end: usize) -> (next: Option<usize>)
    ensures
        next == page_forward(page, end),
{
    if page < end {
        Some(page + 1)
    } else {
        None
    }
}

/// Decides [`page_backward`].
pub fn previous_page(page: usize) -> (previous: Option<usize>)
    ensures
        previous == page_backward(page),
{
    if page > 1 {
        Some(page - 1)
    } else {
        None
    }
}

/// The page shown after the listing shrank to `end` pages: `page`, or the
/// last page where `page` lies behind it.
pub fn clamp_page(page: usize, end: usize) -> (shown: usize)
    ensures
        shown == if page > end {
            end
        } else {
            page
        },
{
    if page > end {
        end
    } else {
        page
    }
}

/// The position of the explorer with the label `label`.
pub fn find_explorer(explorers: &Vec<ExplorerState>, label: &str) -> (found: Result<
    usize,
    StateError,
>)
    ensures
        match found {
            Ok(i) => first_index(explorer_labels(explorers@), label@) == Some(i as int) && i
                < explorers@.len(),
            Err(e) => e == StateError::ExplorerNotFound && first_index(
                explorer_labels(explorers@),
                label@,
            ).is_none(),
        },
{
    let ghost labels = explorer_labels(explorers@);
    let mut i: usize = 0;
    while i < explorers.len()
        invariant
            i <= explorers@.len(),
            labels == explorer_labels(explorers@),
            forall|j: int| 0 <= j < i ==> labels[j] != label@,
        decreases explorers@.len() - i,
    {
        if same_text(explorers[i].label.as_str(), label) {
            proof {
                lemma_first_index_is(labels, label@, Some(i as int));
            }
            return Ok(i);
        }
        i = i + 1;
    }
    proof {
        lemma_first_index_is(labels, label@, None);
    }
    Err(StateError::ExplorerNotFound)
}

/// Opens a new explorer: its label is `explorer-` and the counter, which
/// then goes up by one. Returns the label.
pub fn add_explorer_state(explorers: &mut Vec<ExplorerState>, count: &mut i32) -> (label: String)
    requires
        *old(count) < i32::MAX,
    ensures
        label@ == numbered("explorer-"@, *old(count) as int),
        *final(count) == *old(count) + 1,
        final(explorers)@.len() == old(explorers)@.len() + 1,
        final(explorers)@.subrange(0, old(explorers)@.len() as int) == old(explorers)@,
        final(explorers)@.last().label@ == label@,
        final(explorers)@.last().count == 0,
        final(explorers)@.last().active.is_none(),
        final(explorers)@.last().tabs@.len() == 0,
{
    let label = make_numbered("explorer-", *count);
    explorers.push(
        ExplorerState { label: label.clone(), count: 0, active: None, tabs: Vec::new() },
    );
    *count = *count + 1;
    assert(explorers@.subrange(0, old(explorers)@.len() as int) =~= old(explorers)@);
    label
}

/// Closes the explorer with the label `label`.
pub fn remove_explorer_state(explorers: &mut Vec<ExplorerState>, label: &str) -> (result: Result<
    (),
    StateError,
>)
    ensures
        match first_index(explorer_labels(old(explorers)@), label@) {
            Some(i) => result.is_ok() && final(explorers)@ == old(explorers)@.remove(i),
            None => result == Err::<(), StateError>(StateError::ExplorerNotFound) && final(explorers)@ == old(explorers)@,
        },
{
    match find_explorer(explorers, label) {
        Ok(i) => {
            explorers.remove(i);
            Ok(())
        },
        Err(e) => Err(e),
    }
}

impl ExplorerState {
    /// The position of the tab with the key `key`.
    pub fn get_tab_index_by_key(&self, key: &str) -> (found: Result<usize, StateError>)
        ensures
            match found {
                Ok(i) => first_index(tab_keys(self.tabs@), key@) == Some(i as int) && i
                    < self.tabs@.len(),
                Err(e) => e == StateError::TabNotFound && first_index(
                    tab_keys(self.tabs@),
                    key@,
                ).is_none(),
            },
    {
        let ghost keys = tab_keys(self.tabs@);
        let mut i: usize = 0;
        while i < self.tabs.len()
            invariant
                i <= self.tabs@.len(),
                keys == tab_keys(self.tabs@),
                forall|j: int| 0 <= j < i ==> keys[j] != key@,
            decreases self.tabs@.len() - i,
        {
            if same_text(self.tabs[i].key.as_str(), key) {
                proof {
                    lemma_first_index_is(keys, key@, Some(i as int));
                }
                return Ok(i);
            }
            i = i + 1;
        }
        proof {
            lemma_first_index_is(keys, key@, None);
        }
        Err(StateError::TabNotFound)
    }

    /// The position of the active tab.
    pub fn active_tab_index(&self) -> (found: Result<usize, StateError>)
        ensures
            match found {
                Ok(i) => self.active.is_some() && first_index(
                    tab_keys(self.tabs@),
                    self.active.unwrap().key@,
                ) == Some(i as int) && i < self.tabs@.len(),
                Err(e) => match self.active {
                    None => e == StateError::NoActiveTab,
                    Some(tab) => e == StateError::TabNotFound && first_index(
                        tab_keys(self.tabs@),
                        tab.key@,
                    ).is_none(),
                },
            },
    {
        match &self.active {
            None => Err(StateError::NoActiveTab),
            Some(tab) => self.get_tab_index_by_key(tab.key.as_str()),
        }
    }

    /// Opens a new tab that shows `devices` and makes it the active one. Its
    /// key is `tab-` and the number of tabs opened so far, this one counted.
    pub fn add_explorer_tab_state(&mut self, devices: Vec<Thumbnail>) -> (key: String)
        requires
            old(self).count < i32::MAX,
        ensures
            key@ == numbered("tab-"@, old(self).count + 1),
            final(self).count == old(self).count + 1,
            final(self).label == old(self).label,
            active_key(final(self).active) == Some(key@),
            final(self).tabs@.len() == old(self).tabs@.len() + 1,
            final(self).tabs@.subrange(0, old(self).tabs@.len() as int) == old(self).tabs@,
            ({
                let tab = final(self).tabs@.last();
                &&& tab.key@ == key@
                &&& tab.title@ == "Explorer"@
                &&& tab.path.is_none()
                &&& tab.transfer_path.is_none()
                &&& tab.page == 1
                &&& tab.end == 1
                &&& tab.folders == devices
                &&& tab.sort == (SortConfig {
                    field: SortField::DateModified,
                    order: SortOrder::Desc,
                })
                &&& tab.search_query.is_none()
            }),
    {
        self.count = self.count + 1;
        let key = make_numbered("tab-", self.count);
        self.tabs.push(
            ExplorerTabState {
                title: "Explorer".to_owned(),
                key: key.clone(),
                path: None,
                transfer_path: None,
                page: 1,
                end: 1,
                folders: devices,
                sort: SortConfig { field: SortField::DateModified, order: SortOrder::Desc },
                search_query: None,
            },
        );
        self.active = Some(ActiveTab { key: key.clone() });
        assert(self.tabs@.subrange(0, old(self).tabs@.len() as int) =~= old(self).tabs@);
        key
    }

    /// Puts the tab with the key `key` back to where a new tab starts: the
    /// devices on page one in the default order, no folder and no search. The
    /// title, the key and the folder to move to stay.
    pub fn reset_explorer_tab_state(&mut self, key: &str, devices: Vec<Thumbnail>) -> (result:
        Result<usize, StateError>)
        ensures
            final(self).label == old(self).label,
            final(self).count == old(self).count,
            final(self).active == old(self).active,
            final(self).tabs@.len() == old(self).tabs@.len(),
            match first_index(tab_keys(old(self).tabs@), key@) {
                None => result == Err::<usize, StateError>(StateError::TabNotFound) && final(self).tabs@ == old(self).tabs@,
                Some(i) => result == Ok::<usize, StateError>(i as usize) && (forall|j: int|
                    0 <= j < old(self).tabs@.len() && j != i ==> final(self).tabs@[j] == old(self).tabs@[j]) && ({
                    let tab = final(self).tabs@[i];
                    let before = old(self).tabs@[i];
                    &&& tab.key == before.key
                    &&& tab.title == before.title
                    &&& tab.transfer_path == before.transfer_path
                    &&& tab.path.is_none()
                    &&& tab.page == 1
                    &&& tab.end == 1
                    &&& tab.folders == devices
                    &&& tab.sort == (SortConfig {
                        field: SortField::DateModified,
                        order: SortOrder::Desc,
                    })
                    &&& tab.search_query.is_none()
                }),
            },
    {
        match self.get_tab_index_by_key(key) {
            Err(e) => Err(e),
            Ok(i) => {
                self.tabs[i].page = 1;
                self.tabs[i].end = 1;
                self.tabs[i].path = None;
                self.tabs[i].folders = devices;
                self.tabs[i].sort = SortConfig {
                    field: SortField::DateModified,
                    order: SortOrder::Desc,
                };
                self.tabs[i].search_query = None;
                Ok(i)
            },
        }
    }

    /// Closes the tab with the key `key`. Where it was the active one, the
    /// tab that takes its place becomes active, or the last one; with no tab
    /// left none is active.
    pub fn remove_explorer_tab_state(&mut self, key: &str) -> (result: Result<(), StateError>)
        ensures
            final(self).label == old(self).label,
            final(self).count == old(self).count,
            match first_index(tab_keys(old(self).tabs@), key@) {
                None => result == Err::<(), StateError>(StateError::TabNotFound) && final(self).tabs@ == old(self).tabs@ && final(self).active == old(self).active,
                Some(i) => result.is_ok() && final(self).tabs@ == old(self).tabs@.remove(i)
                    && active_key(final(self).active) == active_after_removal(
                    active_key(old(self).active),
                    key@,
                    i,
                    tab_keys(final(self).tabs@),
                ),
            },
    {
        match self.get_tab_index_by_key(key) {
            Err(e) => Err(e),
            Ok(index) => {
                self.tabs.remove(index);
                if self.tabs.len() == 0 {
                    self.active = None;
                } else {
                    let was_active = match &self.active {
                        Some(tab) => same_text(tab.key.as_str(), key),
                        None => false,
                    };
                    if was_active {
                        let at = if index < self.tabs.len() {
                            index
                        } else {
                            self.tabs.len() - 1
                        };
                        self.active = Some(ActiveTab { key: self.tabs[at].key.clone() });
                    }
                }
                Ok(())
            },
        }
    }

    /// Shows a listing in the tab at `index`: its page, its folders and the
    /// number of its pages.
    pub fn update_tab(
        &mut self,
        index: usize,
        page: usize,
        thumbnails: Vec<Thumbnail>,
        total_pages: usize,
    )
        requires
            index < old(self).tabs@.len(),
        ensures
            final(self).label == old(self).label,
            final(self).count == old(self).count,
            final(self).active == old(self).active,
            final(self).tabs@.len() == old(self).tabs@.len(),
            forall|j: int|
                0 <= j < old(self).tabs@.len() && j != index ==> final(self).tabs@[j] == old(self).tabs@[j],
            final(self).tabs@[index as int].page == page,
            final(self).tabs@[index as int].folders == thumbnails,
            final(self).tabs@[index as int].end == total_pages,
            final(self).tabs@[index as int].key == old(self).tabs@[index as int].key,
            final(self).tabs@[index as int].title == old(self).tabs@[index as int].title,
            final(self).tabs@[index as int].path == old(self).tabs@[index as int].path,
            final(self).tabs@[index as int].transfer_path == old(self).tabs@[index as int].transfer_path,
            final(self).tabs@[index as int].sort == old(self).tabs@[index as int].sort,
            final(self).tabs@[index as int].search_query == old(self).tabs@[index as int].search_query,
    {
        self.tabs[index].page = page;
        self.tabs[index].folders = thumbnails;
        self.tabs[index].end = total_pages;
    }
}

} // verus!
