//! Names that the states of viewers and explorers share.

use vstd::prelude::*;
use vstd::string::*;

verus! {

/// The viewer that has the focus.
#[derive(Debug)]
pub struct ActiveViewer {
    pub label: String,
}

/// The tab of a window that is shown.
#[derive(Debug)]
pub struct ActiveTab {
    pub key: String,
}

/// Whether a stream of events is switched on.
#[derive(Debug, Clone, Copy, PartialEq, Eq, Structural)]
pub struct StreamActivation(pub bool);

/// Why a change of state was refused.
#[derive(Debug, Clone, Copy, PartialEq, Eq, Structural)]
pub enum StateError {
    ExplorerNotFound,
    ViewerNotFound,
    TabNotFound,
    NoActiveTab,
}

impl StateError {
    /// The text shown for this failure.
    pub fn message(&self) -> (text: String)
        ensures
            text@ == match *self {
                StateError::ExplorerNotFound => "explorer not found"@,
                StateError::ViewerNotFound => "viewer not found"@,
                StateError::TabNotFound => "tab not found"@,
                StateError::NoActiveTab => "no active tab"@,
            },
    {
        match self {
            StateError::ExplorerNotFound => "explorer not found".to_owned(),
            StateError::ViewerNotFound => "viewer not found".to_owned(),
            StateError::TabNotFound => "tab not found".to_owned(),
            StateError::NoActiveTab => "no active tab".to_owned(),
        }
    }
}

/// The key of the active tab, if one is active.
pub open spec fn active_key(active: Option<ActiveTab>) -> Option<Seq<char>> {
    match active {
        Some(tab) => Some(tab.key@),
        None => None,
    }
}

/// The position of the first of `keys` that is `key`.
pub open spec fn first_index(keys: Seq<Seq<char>>, key: Seq<char>) -> Option<int>
    decreases keys.len(),
{
    if keys.len() == 0 {
        None
    } else {
        match first_index(keys.drop_last(), key) {
            Some(i) => Some(i),
            None => if keys.last() == key {
                Some(keys.len() - 1)
            } else {
                None
            },
        }
    }
}

/// What [`first_index`] finds: the place of `key` with no `key` before it,
/// or nothing where `key` is not among `keys`.
pub proof fn lemma_first_index(keys: Seq<Seq<char>>, key: Seq<char>)
    ensures
        match first_index(keys, key) {
            Some(i) => 0 <= i < keys.len() && keys[i] == key && forall|j: int|
                0 <= j < i ==> keys[j] != key,
            None => forall|j: int| 0 <= j < keys.len() ==> keys[j] != key,
        },
    decreases keys.len(),
{
    if keys.len() > 0 {
        let shorter = keys.drop_last();
        lemma_first_index(shorter, key);
        assert(forall|j: int| 0 <= j < shorter.len() ==> shorter[j] == keys[j]);
    }
}

/// A place that holds `key` with no `key` before it is what [`first_index`]
/// finds; where no place holds `key` it finds nothing.
pub proof fn lemma_first_index_is(keys: Seq<Seq<char>>, key: Seq<char>, found: Option<int>)
    requires
        match found {
            Some(i) => 0 <= i < keys.len() && keys[i] == key && forall|j: int|
                0 <= j < i ==> keys[j] != key,
            None => forall|j: int| 0 <= j < keys.len() ==> keys[j] != key,
        },
    ensures
        first_index(keys, key) == found,
{
    lemma_first_index(keys, key);
}

/// The key of the tab that is active once the tab at `index` is gone, where
/// `remaining` are the keys of the tabs that are left: none where no tab is
/// left; where the tab that went was the active one, the tab that took its
/// place, or the last one; else the tab that was active.
pub open spec fn active_after_removal(
    active: Option<Seq<char>>,
    removed: Seq<char>,
    index: int,
    remaining: Seq<Seq<char>>,
) -> Option<Seq<char>> {
    if remaining.len() == 0 {
        None
    } else if active == Some(removed) {
        if index < remaining.len() {
            Some(remaining[index])
        } else {
            Some(remaining[remaining.len() - 1])
        }
    } else {
        active
    }
}

/// The label or key that the number `count` gives behind `prefix`.
pub open spec fn numbered(prefix: Seq<char>, count: int) -> Seq<char> {
    prefix + crate::text::signed_decimal_text(count)
}

/// Writes `prefix` and the number `count`.
pub fn make_numbered(prefix: &str, count: i32) -> (text: String)
    ensures
        text@ == numbered(prefix@, count as int),
{
    let mut text = prefix.to_owned();
    crate::text::append_signed_decimal(&mut text, count);
    text
}

} // verus!
