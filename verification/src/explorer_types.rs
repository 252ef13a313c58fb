//! Sort and query parameters of a folder listing.

use vstd::prelude::*;

verus! {

/// The attribute a listing is ordered by.
#[derive(Debug, Clone, Copy, PartialEq, Eq, Structural)]
pub enum SortField {
    Name,
    DateModified,
    DateCreated,
}

/// The direction of a listing's order.
#[derive(Debug, Clone, Copy, PartialEq, Eq, Structural)]
pub enum SortOrder {
    Asc,
    Desc,
}

/// How a listing is ordered.
#[derive(Debug, Clone, Copy, PartialEq, Eq, Structural)]
pub struct SortConfig {
    pub field: SortField,
    pub order: SortOrder,
}

/// The query of one explorer tab: its order and its optional search text.
#[derive(Debug, Clone)]
pub struct ExplorerQuery {
    pub sort: SortConfig,
    pub search: Option<String>,
}

impl Default for SortField {
    fn default() -> (field: Self)
        ensures
            field == SortField::DateModified,
    {
        SortField::DateModified
    }
}

impl Default for SortOrder {
    fn default() -> (order: Self)
        ensures
            order == SortOrder::Desc,
    {
        SortOrder::Desc
    }
}

impl Default for SortConfig {
    /// Newest modification first.
    fn default() -> (sort: Self)
        ensures
            sort == (SortConfig { field: SortField::DateModified, order: SortOrder::Desc }),
    {
        SortConfig { field: SortField::DateModified, order: SortOrder::Desc }
    }
}

impl Default for ExplorerQuery {
    /// The default order and no search text.
    fn default() -> (query: Self)
        ensures
            query.sort == (SortConfig { field: SortField::DateModified, order: SortOrder::Desc }),
            query.search.is_none(),
    {
        ExplorerQuery {
            sort: SortConfig { field: SortField::DateModified, order: SortOrder::Desc },
            search: None,
        }
    }
}

} // verus!
