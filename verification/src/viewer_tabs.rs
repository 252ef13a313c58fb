//! The tabs of a viewer window: which directory or archive each one shows,
//! which file of it is viewed, and which tab is active.

use crate::file_utils::{compressed_extensions, get_filename_without_extension, get_parent_dir};
use crate::file_utils::{get_parent_dir_name, image_extensions, is_compressed_file};
use crate::file_utils::{is_executable_file, kind_extension, or_empty, parent_dir};
use crate::file_utils::{parent_dir_name, path_file_stem_of, video_extensions};
use crate::text::same_text;
use crate::types::{active_after_removal, active_key, first_index, lemma_first_index_is};
use crate::types::{make_numbered, numbered, ActiveTab, StateError};
use crate::viewer_state::{file_by_key, file_by_path, file_view, find_first_file};
use crate::viewer_state::{find_key_in_tree, find_path_in_tree, first_file, get_next_in_tree};
use crate::viewer_state::{get_prev_in_tree, step_in, trees_view, File, FileTree};
use vstd::prelude::*;
use vstd::string::*;

verus! {

/// One tab of a viewer.
#[derive(Debug)]
pub struct ViewerTabState {
    pub title: String,
    pub key: String,
    /// The directory or the archive that the tab shows.
    pub path: String,
    pub viewing: Option<File>,
    pub tree: Vec<FileTree>,
}

/// One viewer window with its tabs.
#[derive(Debug)]
pub struct ViewerState {
    pub label: String,
    /// The number of tabs that were ever opened; the next key follows it.
    pub count: i32,
    pub active: Option<ActiveTab>,
    pub tabs: Vec<ViewerTabState>,
}

/// The keys of tabs, in order.
pub open spec fn viewer_tab_keys(tabs: Seq<ViewerTabState>) -> Seq<Seq<char>> {
    tabs.map_values(|t: ViewerTabState| t.key@)
}

/// The labels of viewers, in order.
pub open spec fn viewer_labels(viewers: Seq<ViewerState>) -> Seq<Seq<char>> {
    viewers.map_values(|v: ViewerState| v.label@)
}

/// Whether a path names an archive.
pub open spec fn names_archive(path: Seq<char>) -> bool {
    compressed_extensions().contains(kind_extension(path))
}

/// The title of the tab opened for `path`: for an image or a video the name
/// of the directory it lies in, for anything else its name without the
/// extension.
pub open spec fn title_of(path: Seq<char>) -> Seq<char> {
    if image_extensions().contains(kind_extension(path)) || video_extensions().contains(
        kind_extension(path),
    ) {
        parent_dir_name(path)
    } else {
        or_empty(path_file_stem_of(path))
    }
}

/// What the tab opened for `path` shows: an archive itself, for any other
/// file the directory it lies in.
pub open spec fn root_of(path: Seq<char>) -> Seq<char> {
    if names_archive(path) {
        path
    } else {
        parent_dir(path)
    }
}

/// The file viewed first in the tab opened for `path`: in an archive its
/// first file, else the file that `path` opens.
pub open spec fn first_viewed(path: Seq<char>, tree: Seq<crate::viewer_state::FileTreeView>)
    -> Option<crate::viewer_state::FileView> {
    if names_archive(path) {
        first_file(tree, 0)
    } else {
        file_by_path(tree, path, 0)
    }
}

/// Computes [`title_of`].
pub fn tab_title(path: &str) -> (title: String)
    ensures
        title@ == title_of(path@),
{
    if is_executable_file(path) {
        get_parent_dir_name(path)
    } else {
        get_filename_without_extension(path)
    }
}

/// Computes [`root_of`].
pub fn tab_root(path: &str) -> (root: String)
    ensures
        root@ == root_of(path@),
{
    if is_compressed_file(path) {
        path.to_owned()
    } else {
        get_parent_dir(path)
    }
}

/// The position of the viewer with the label `label`.
pub fn find_viewer(viewers: &Vec<ViewerState>, label: &str) -> (found: Result<usize, StateError>)
    ensures
        match found {
            Ok(i) => first_index(viewer_labels(viewers@), label@) == Some(i as int) && i
                < viewers@.len(),
            Err(e) => e == StateError::ViewerNotFound && first_index(
                viewer_labels(viewers@),
                label@,
            ).is_none(),
        },
{
    let ghost labels = viewer_labels(viewers@);
    let mut i: usize = 0;
    while i < viewers.len()
        invariant
            i <= viewers@.len(),
            labels == viewer_labels(viewers@),
            forall|j: int| 0 <= j < i ==> labels[j] != label@,
        decreases viewers@.len() - i,
    {
        if same_text(viewers[i].label.as_str(), label) {
            proof {
                lemma_first_index_is(labels, label@, Some(i as int));
            }
            return Ok(i);
        }
        i = i + 1;
    }
    proof {
        lemma_first_index_is(labels, label@, None);
    }
    Err(StateError::ViewerNotFound)
}

/// Opens a new viewer: its label is `viewer-` and the counter, which then
/// goes up by one. Returns the label.
pub fn add_viewer_state(viewers: &mut Vec<ViewerState>, count: &mut i32) -> (label: String)
    requires
        *old(count) < i32::MAX,
    ensures
        label@ == numbered("viewer-"@, *old(count) as int),
        *final(count) == *old(count) + 1,
        final(viewers)@.len() == old(viewers)@.len() + 1,
        final(viewers)@.subrange(0, old(viewers)@.len() as int) == old(viewers)@,
        final(viewers)@.last().label@ == label@,
        final(viewers)@.last().count == 0,
        final(viewers)@.last().active.is_none(),
        final(viewers)@.last().tabs@.len() == 0,
{
    let label = make_numbered("viewer-", *count);
    viewers.push(ViewerState { label: label.clone(), count: 0, active: None, tabs: Vec::new() });
    *count = *count + 1;
    assert(viewers@.subrange(0, old(viewers)@.len() as int) =~= old(viewers)@);
    label
}

/// Closes the viewer with the label `label`.
pub fn remove_viewer_state(viewers: &mut Vec<ViewerState>, label: &str) -> (result: Result<
    (),
    StateError,
>)
    ensures
        match first_index(viewer_labels(old(viewers)@), label@) {
            Some(i) => result.is_ok() && final(viewers)@ == old(viewers)@.remove(i),
            None => result == Err::<(), StateError>(StateError::ViewerNotFound) && final(viewers)@ == old(viewers)@,
        },
{
    match find_viewer(viewers, label) {
        Ok(i) => {
            viewers.remove(i);
            Ok(())
        },
        Err(e) => Err(e),
    }
}

impl ViewerState {
    /// The position of the tab with the key `key`.
    pub fn tab_index(&self, key: &str) -> (found: Result<usize, StateError>)
        ensures
            match found {
                Ok(i) => first_index(viewer_tab_keys(self.tabs@), key@) == Some(i as int) && i
                    < self.tabs@.len(),
                Err(e) => e == StateError::TabNotFound && first_index(
                    viewer_tab_keys(self.tabs@),
                    key@,
                ).is_none(),
            },
    {
        let ghost keys = viewer_tab_keys(self.tabs@);
        let mut i: usize = 0;
        while i < self.tabs.len()
            invariant
                i <= self.tabs@.len(),
                keys == viewer_tab_keys(self.tabs@),
                forall|j: int| 0 <= j < i ==> keys[j] != key@,
            decreases self.tabs@.len() - i,
        {
            if same_text(self.tabs[i].key.as_str(), key) {
                proof {
                    lemma_first_index_is(keys, key@, Some(i as int));
                }
                return Ok(i);
            }
            i = i + 1;
        }
        proof {
            lemma_first_index_is(keys, key@, None);
        }
        Err(StateError::TabNotFound)
    }

    /// Opens a tab for the file at `path` with the tree that was built for
    /// what the tab shows, and makes it the active one. Its key is `tab-` and
    /// the number of tabs opened so far, this one counted.
    pub fn add_viewer_tab_state(&mut self, path: &String, tree: Vec<FileTree>) -> (key: String)
        requires
            old(self).count < i32::MAX,
        ensures
            key@ == numbered("tab-"@, old(self).count + 1),
            final(self).count == old(self).count + 1,
            final(self).label == old(self).label,
            active_key(final(self).active) == Some(key@),
            final(self).tabs@.len() == old(self).tabs@.len() + 1,
            final(self).tabs@.subrange(0, old(self).tabs@.len() as int) == old(self).tabs@,
            ({
                let tab = final(self).tabs@.last();
                &&& tab.key@ == key@
                &&& tab.title@ == title_of(path@)
                &&& tab.path@ == root_of(path@)
                &&& tab.tree == tree
                &&& file_view(tab.viewing) == first_viewed(path@, trees_view(tree@))
            }),
    {
        self.count = self.count + 1;
        let key = make_numbered("tab-", self.count);
        let title = tab_title(path.as_str());
        let root = tab_root(path.as_str());
        let viewing = if is_compressed_file(path.as_str()) {
            find_first_file(&tree)
        } else {
            find_path_in_tree(&tree, path)
        };
        self.tabs.push(ViewerTabState { title, key: key.clone(), path: root, viewing, tree });
        self.active = Some(ActiveTab { key: key.clone() });
        assert(self.tabs@.subrange(0, old(self).tabs@.len() as int) =~= old(self).tabs@);
        key
    }

    /// Closes the tab with the key `key`. Where it was the active one, the
    /// tab that takes its place becomes active, or the last one; with no tab
    /// left none is active.
    pub fn remove_viewer_tab_state(&mut self, key: &str) -> (result: Result<(), StateError>)
        ensures
            final(self).label == old(self).label,
            final(self).count == old(self).count,
            match first_index(viewer_tab_keys(old(self).tabs@), key@) {
                None => result == Err::<(), StateError>(StateError::TabNotFound) && final(self).tabs@ == old(self).tabs@ && final(self).active == old(self).active,
                Some(i) => result.is_ok() && final(self).tabs@ == old(self).tabs@.remove(i)
                    && active_key(final(self).active) == active_after_removal(
                    active_key(old(self).active),
                    key@,
                    i,
                    viewer_tab_keys(final(self).tabs@),
                ),
            },
    {
        match self.tab_index(key) {
            Err(e) => Err(e),
            Ok(index) => {
                self.tabs.remove(index);
                if self.tabs.len() == 0 {
                    self.active = None;
                } else {
                    let was_active = match &self.active {
                        Some(tab) => same_text(tab.key.as_str(), key),
                        None => false,
                    };
                    if was_active {
                        let at = if index < self.tabs.len() {
                            index
                        } else {
                            self.tabs.len() - 1
                        };
                        self.active = Some(ActiveTab { key: self.tabs[at].key.clone() });
                    }
                }
                Ok(())
            },
        }
    }
}

impl ViewerTabState {
    /// Views the file with the key `key`; where the tree has none, no file
    /// is viewed.
    pub fn change_viewing(&mut self, key: &String)
        ensures
            final(self).title == old(self).title,
            final(self).key == old(self).key,
            final(self).path == old(self).path,
            final(self).tree == old(self).tree,
            file_view(final(self).viewing) == file_by_key(trees_view(old(self).tree@), key@, 0),
    {
        let viewing = find_key_in_tree(&self.tree, key);
        self.viewing = viewing;
    }

    /// Moves from the file that is viewed to its neighbour in its level of
    /// the tree, forward or backward. Says whether the view changed: it does
    /// not where no file is viewed or the viewed file is not in the tree.
    pub fn move_viewing(&mut self, forward: bool) -> (moved: bool)
        ensures
            final(self).title == old(self).title,
            final(self).key == old(self).key,
            final(self).path == old(self).path,
            final(self).tree == old(self).tree,
            ({
                let target = match old(self).viewing {
                    Some(file) => step_in(trees_view(old(self).tree@), file.key@, forward),
                    None => None,
                };
                &&& moved == target.is_some()
                &&& moved ==> file_view(final(self).viewing) == target
                &&& !moved ==> final(self).viewing == old(self).viewing
            }),
    {
        let target = match &self.viewing {
            Some(file) => {
                if forward {
                    get_next_in_tree(&file.key, &self.tree)
                } else {
                    get_prev_in_tree(&file.key, &self.tree)
                }
            },
            None => None,
        };
        if target.is_some() {
            self.viewing = target;
            true
        } else {
            false
        }
    }
}

} // verus!
