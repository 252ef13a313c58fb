//! The folder listing of the explorer: which subfolders of a directory are
//! shown, in what order, on which page.
//!
//! A listing starts from the scanned subfolders of a directory, in the order
//! the file system gave them. Those whose name does not match the search text
//! drop out, the rest are put in stable order by the chosen attribute, and one
//! page of at most [`CATALOG_PER_PAGE`] folders is cut out.

use crate::cache::ThumbnailCache;
use crate::explorer_types::{SortConfig, SortField, SortOrder};
use crate::stable_order::{is_strict_weak, lemma_stable_order_is_permutation};
use crate::stable_order::{lemma_stable_order_is_sorted, lemma_stable_order_keeps_ties};
use crate::stable_order::{positions, sort_positions, stable_order, Ranked};
use crate::text::lemma_bytes_before_transitive;
use crate::text::{contains_text, lowercase_of, occurs_in, same_text, str_before, text_before};
use crate::text::to_lowercase;
use crate::text::{lemma_bytes_before_complement_transitive, lemma_bytes_before_irreflexive};
use vstd::prelude::*;
use vstd::string::*;
use vstd::utf8::encode_utf8;

verus! {

/// The number of folders on a full page.
pub const CATALOG_PER_PAGE: usize = 50;

/// A subfolder as the scan of its parent directory found it.
#[derive(Debug)]
pub struct FolderScan {
    pub path: String,
    pub filename: String,
    /// Seconds since the epoch, where the file system knows them.
    pub modified_at: Option<u64>,
    pub created_at: Option<u64>,
}

/// The mathematical value of a [`FolderScan`].
pub struct FolderScanView {
    pub path: Seq<char>,
    pub filename: Seq<char>,
    pub modified_at: Option<u64>,
    pub created_at: Option<u64>,
}

impl View for FolderScan {
    type V = FolderScanView;

    open spec fn view(&self) -> FolderScanView {
        FolderScanView {
            path: self.path@,
            filename: self.filename@,
            modified_at: self.modified_at,
            created_at: self.created_at,
        }
    }
}

impl FolderScan {
    /// A copy of this scan.
    pub fn duplicate(&self) -> (copy: Self)
        ensures
            copy@ == self@,
    {
        FolderScan {
            path: self.path.clone(),
            filename: self.filename.clone(),
            modified_at: self.modified_at,
            created_at: self.created_at,
        }
    }
}

/// The values of a sequence of scans.
pub open spec fn scan_views(scans: Seq<FolderScan>) -> Seq<FolderScanView> {
    scans.map_values(|f: FolderScan| f@)
}

/// The value of an optional text.
pub open spec fn text_view(text: Option<String>) -> Option<Seq<char>> {
    match text {
        Some(t) => Some(t@),
        None => None,
    }
}

/// The value of an optional borrowed text.
pub open spec fn str_view(text: Option<&str>) -> Option<Seq<char>> {
    match text {
        Some(t) => Some(t@),
        None => None,
    }
}

/// Whether a folder name passes the search: there is no search text, it is
/// empty, or its lower-case form occurs in the lower-case form of the name.
pub open spec fn matches_search(filename: Seq<char>, search: Option<Seq<char>>) -> bool {
    match search {
        None => true,
        Some(query) => query.len() == 0 || occurs_in(lowercase_of(query), lowercase_of(filename)),
    }
}

/// The scans that pass the search, in the order of the scan.
pub open spec fn eligible(scans: Seq<FolderScanView>, search: Option<Seq<char>>) -> Seq<
    FolderScanView,
> {
    scans.filter(|f: FolderScanView| matches_search(f.filename, search))
}

/// Whether one time stamp is earlier than another; a missing one is earlier
/// than any that is present.
pub open spec fn stamp_before(a: Option<u64>, b: Option<u64>) -> bool {
    match (a, b) {
        (None, Some(_)) => true,
        (Some(x), Some(y)) => x < y,
        _ => false,
    }
}

/// Whether `a` is smaller than `b` by the attribute `field`: names by the
/// bytes of their encoding, time stamps by their value.
pub open spec fn key_before(a: FolderScanView, b: FolderScanView, field: SortField) -> bool {
    match field {
        SortField::Name => text_before(a.filename, b.filename),
        SortField::DateModified => stamp_before(a.modified_at, b.modified_at),
        SortField::DateCreated => stamp_before(a.created_at, b.created_at),
    }
}

/// Whether `a` must stand after `b` in a listing ordered by `sort`.
pub open spec fn stands_after(a: FolderScanView, b: FolderScanView, sort: SortConfig) -> bool {
    match sort.order {
        SortOrder::Asc => key_before(b, a, sort.field),
        SortOrder::Desc => key_before(a, b, sort.field),
    }
}

/// The rule of a listing of `scans` ordered by `sort`, on positions.
pub open spec fn listing_rule(scans: Seq<FolderScanView>, sort: SortConfig) -> spec_fn(
    int,
    int,
) -> bool {
    |i: int, j: int| stands_after(scans[i], scans[j], sort)
}

/// `scans` in stable order by `sort`: folders that `sort` does not tell apart
/// keep the order in which they were scanned.
pub open spec fn sorted_scans(scans: Seq<FolderScanView>, sort: SortConfig) -> Seq<
    FolderScanView,
> {
    stable_order(listing_rule(scans, sort), scans.len()).map_values(|p: int| scans[p])
}

/// The number of pages that `count` folders fill; an empty listing has one.
pub open spec fn page_count(count: nat) -> nat {
    if count == 0 {
        1
    } else {
        ((count + CATALOG_PER_PAGE - 1) / (CATALOG_PER_PAGE as int)) as nat
    }
}

/// The position of the first folder of page `page`; page 0 starts where
/// page 1 does.
pub open spec fn page_start(page: nat) -> nat {
    if page == 0 {
        0
    } else {
        ((page - 1) * CATALOG_PER_PAGE) as nat
    }
}

/// The position behind the last folder of page `page` among `count` folders.
pub open spec fn page_end(page: nat, count: nat) -> nat {
    if page_start(page) + CATALOG_PER_PAGE <= count {
        page_start(page) + CATALOG_PER_PAGE as nat
    } else {
        count
    }
}

/// Page `page` of `items`: empty where the page starts behind the last item.
pub open spec fn page_of<T>(items: Seq<T>, page: nat) -> Seq<T> {
    if page_start(page) >= items.len() {
        Seq::empty()
    } else {
        items.subrange(page_start(page) as int, page_end(page, items.len()) as int)
    }
}

/// The folders a listing shows: page `page` of the eligible scans in order.
pub open spec fn listed(
    scans: Seq<FolderScanView>,
    page: nat,
    sort: SortConfig,
    search: Option<Seq<char>>,
) -> Seq<FolderScanView> {
    page_of(sorted_scans(eligible(scans, search), sort), page)
}

/// Computes [`page_count`].
pub fn total_pages(count: usize) -> (pages: usize)
    ensures
        pages == page_count(count as nat),
        pages >= 1,
{
    if count == 0 {
        1
    } else {
        (count - 1) / CATALOG_PER_PAGE + 1
    }
}

/// The range of positions that page `page` covers among `count` folders:
/// `start == end` where the page is empty.
pub fn page_bounds(page: usize, count: usize) -> (bounds: (usize, usize))
    ensures
        bounds.0 <= bounds.1 <= count,
        bounds.1 - bounds.0 <= CATALOG_PER_PAGE,
        page_start(page as nat) >= count ==> bounds.0 == bounds.1,
        page_start(page as nat) < count ==> bounds.0 == page_start(page as nat) && bounds.1
            == page_end(page as nat, count as nat),
{
    let before: usize = if page == 0 {
        0
    } else {
        page - 1
    };
    if before > count / CATALOG_PER_PAGE {
        assert(before * CATALOG_PER_PAGE >= count) by (nonlinear_arith)
            requires
                before > count / 50,
                CATALOG_PER_PAGE == 50,
        ;
        (count, count)
    } else {
        assert(before * CATALOG_PER_PAGE <= count) by (nonlinear_arith)
            requires
                before <= count / 50,
                CATALOG_PER_PAGE == 50,
        ;
        let start: usize = before * CATALOG_PER_PAGE;
        if start >= count {
            (count, count)
        } else if count - start > CATALOG_PER_PAGE {
            (start, start + CATALOG_PER_PAGE)
        } else {
            (start, count)
        }
    }
}

/// Decides [`matches_search`] for one folder name.
pub fn matches_query(filename: &str, search: Option<&str>) -> (matches: bool)
    ensures
        matches == matches_search(filename@, str_view(search)),
{
    match search {
        None => true,
        Some(query) => {
            if query.is_empty() {
                true
            } else {
                let wanted = to_lowercase(query);
                let name = to_lowercase(filename);
                contains_text(name.as_str(), wanted.as_str())
            }
        },
    }
}

/// The scans at the positions `picks`.
pub open spec fn picked(scans: Seq<FolderScanView>, picks: Seq<usize>) -> Seq<FolderScanView> {
    picks.map_values(|p: usize| scans[p as int])
}

/// The positions of the scans that pass the search, in rising order.
pub fn matching_positions(scans: &Vec<FolderScan>, search: Option<&str>) -> (picks: Vec<usize>)
    ensures
        picked(scan_views(scans@), picks@) == eligible(scan_views(scans@), str_view(search)),
        forall|k: int| 0 <= k < picks@.len() ==> #[trigger] picks@[k] < scans@.len(),
        forall|k: int, l: int| 0 <= k < l < picks@.len() ==> picks@[k] < picks@[l],
{
    let ghost views = scan_views(scans@);
    let ghost wanted = |f: FolderScanView| matches_search(f.filename, str_view(search));
    let mut picks: Vec<usize> = Vec::new();
    let mut i: usize = 0;
    proof {
        reveal(Seq::filter);
        assert(views.take(0) =~= Seq::empty());
    }
    while i < scans.len()
        invariant
            i <= scans@.len(),
            views == scan_views(scans@),
            wanted == |f: FolderScanView| matches_search(f.filename, str_view(search)),
            picked(views, picks@) =~= views.take(i as int).filter(wanted),
            forall|k: int| 0 <= k < picks@.len() ==> #[trigger] picks@[k] < i,
            forall|k: int, l: int| 0 <= k < l < picks@.len() ==> picks@[k] < picks@[l],
        decreases scans@.len() - i,
    {
        let keep = matches_query(scans[i].filename.as_str(), search);
        proof {
            reveal(Seq::filter);
            let next = views.take(i + 1);
            assert(next.drop_last() =~= views.take(i as int));
            assert(next.last() == views[i as int]);
            assert(views[i as int] == scans@[i as int]@);
        }
        if keep {
            picks.push(i);
        }
        i = i + 1;
    }
    assert(views.take(i as int) =~= views);
    picks
}

/// The scans at chosen positions, to be ordered by `sort`.
pub struct PickRanking<'a> {
    pub scans: &'a Vec<FolderScan>,
    pub picks: &'a Vec<usize>,
    pub sort: SortConfig,
}

impl<'a> PickRanking<'a> {
    /// The values of the chosen scans.
    pub open spec fn views(&self) -> Seq<FolderScanView> {
        picked(scan_views(self.scans@), self.picks@)
    }
}

/// Decides [`stamp_before`].
pub fn is_stamp_before(a: Option<u64>, b: Option<u64>) -> (before: bool)
    ensures
        before == stamp_before(a, b),
{
    match b {
        None => false,
        Some(y) => match a {
            None => true,
            Some(x) => x < y,
        },
    }
}

/// Decides [`key_before`].
pub fn is_key_before(a: &FolderScan, b: &FolderScan, field: SortField) -> (before: bool)
    ensures
        before == key_before(a@, b@, field),
{
    match field {
        SortField::Name => str_before(a.filename.as_str(), b.filename.as_str()),
        SortField::DateModified => is_stamp_before(a.modified_at, b.modified_at),
        SortField::DateCreated => is_stamp_before(a.created_at, b.created_at),
    }
}

impl<'a> Ranked for PickRanking<'a> {
    open spec fn valid(&self) -> bool {
        forall|k: int| 0 <= k < self.picks@.len() ==> #[trigger] self.picks@[k] < self.scans@.len()
    }

    open spec fn count(&self) -> nat {
        self.picks@.len()
    }

    open spec fn rule(&self) -> spec_fn(int, int) -> bool {
        listing_rule(self.views(), self.sort)
    }

    fn len(&self) -> (n: usize) {
        self.picks.len()
    }

    fn is_after(&self, i: usize, j: usize) -> (r: bool) {
        let a = &self.scans[self.picks[i]];
        let b = &self.scans[self.picks[j]];
        assert(self.views()[i as int] == a@);
        assert(self.views()[j as int] == b@);
        match self.sort.order {
            SortOrder::Asc => is_key_before(b, a, self.sort.field),
            SortOrder::Desc => is_key_before(a, b, self.sort.field),
        }
    }
}

/// Filters, orders and pages the scanned subfolders of a directory.
///
/// Returns the folders of page `page` and the number of pages of the whole
/// listing. A page behind the last one is empty; the number of pages is the
/// same whichever page is asked for.
pub fn list_page(scans: &Vec<FolderScan>, page: usize, sort: &SortConfig, search: Option<&str>) -> (listing: (
    Vec<FolderScan>,
    usize,
))
    ensures
        scan_views(listing.0@) == listed(
            scan_views(scans@),
            page as nat,
            *sort,
            str_view(search),
        ),
        listing.1 == page_count(eligible(scan_views(scans@), str_view(search)).len()),
        listing.1 >= 1,
        listing.0@.len() <= CATALOG_PER_PAGE,
        page > listing.1 ==> listing.0@.len() == 0,
{
    let picks = matching_positions(scans, search);
    let ranking = PickRanking { scans, picks: &picks, sort: *sort };
    let order = sort_positions(&ranking);
    let count = picks.len();
    let pages = total_pages(count);
    let (start, end) = page_bounds(page, count);
    let ghost chosen = eligible(scan_views(scans@), str_view(search));
    let ghost sorted = sorted_scans(chosen, *sort);
    proof {
        assert(ranking.views() == chosen);
        lemma_stable_order_is_permutation(listing_rule(chosen, *sort), chosen.len());
        assert(sorted.len() == count);
        lemma_page_behind_last(page as nat, count as nat);
    }
    let mut folders: Vec<FolderScan> = Vec::new();
    let mut k: usize = start;
    while k < end
        invariant
            start <= k <= end <= count,
            count == picks@.len(),
            count == order@.len(),
            sorted.len() == count,
            sorted == sorted_scans(chosen, *sort),
            chosen == picked(scan_views(scans@), picks@),
            positions(order@) == stable_order(listing_rule(chosen, *sort), chosen.len()),
            forall|p: int| 0 <= p < order@.len() ==> #[trigger] order@[p] < count,
            forall|p: int| 0 <= p < picks@.len() ==> #[trigger] picks@[p] < scans@.len(),
            scan_views(folders@) =~= sorted.subrange(start as int, k as int),
        decreases end - k,
    {
        let at = picks[order[k]];
        let copy = scans[at].duplicate();
        let ghost shown = scan_views(folders@);
        proof {
            assert(positions(order@)[k as int] == order@[k as int]);
            assert(sorted[k as int] == chosen[order@[k as int] as int]);
            assert(chosen[order@[k as int] as int] == scans@[at as int]@);
        }
        folders.push(copy);
        assert(scan_views(folders@) =~= shown.push(sorted[k as int]));
        k = k + 1;
    }
    proof {
        if page_start(page as nat) >= count {
            assert(scan_views(folders@) =~= Seq::<FolderScanView>::empty());
        }
    }
    (folders, pages)
}

/// A listed folder with the path of the image that stands for it.
#[derive(Debug)]
pub struct Thumbnail {
    pub path: String,
    pub filename: String,
    /// Empty where the folder holds no image.
    pub thumbpath: String,
    pub modified_at: Option<u64>,
    pub created_at: Option<u64>,
}

/// The mathematical value of a [`Thumbnail`].
pub struct ThumbnailView {
    pub path: Seq<char>,
    pub filename: Seq<char>,
    pub thumbpath: Seq<char>,
    pub modified_at: Option<u64>,
    pub created_at: Option<u64>,
}

impl View for Thumbnail {
    type V = ThumbnailView;

    open spec fn view(&self) -> ThumbnailView {
        ThumbnailView {
            path: self.path@,
            filename: self.filename@,
            thumbpath: self.thumbpath@,
            modified_at: self.modified_at,
            created_at: self.created_at,
        }
    }
}

impl Default for Thumbnail {
    /// Empty texts and no time stamps.
    fn default() -> (thumbnail: Self)
        ensures
            thumbnail@ == (ThumbnailView {
                path: Seq::empty(),
                filename: Seq::empty(),
                thumbpath: Seq::empty(),
                modified_at: None,
                created_at: None,
            }),
    {
        Thumbnail {
            path: String::new(),
            filename: String::new(),
            thumbpath: String::new(),
            modified_at: None,
            created_at: None,
        }
    }
}

impl Thumbnail {
    /// A copy of this thumbnail.
    pub fn duplicate(&self) -> (copy: Self)
        ensures
            copy@ == self@,
    {
        Thumbnail {
            path: self.path.clone(),
            filename: self.filename.clone(),
            thumbpath: self.thumbpath.clone(),
            modified_at: self.modified_at,
            created_at: self.created_at,
        }
    }
}

/// The values of a sequence of thumbnails.
pub open spec fn thumbnail_views(thumbnails: Seq<Thumbnail>) -> Seq<ThumbnailView> {
    thumbnails.map_values(|t: Thumbnail| t@)
}

/// Why a listing failed as a whole.
#[derive(Debug, Clone, Copy, PartialEq, Eq, Structural)]
pub enum ListingError {
    /// The directory could not be opened or scanned.
    DirectoryUnreadable,
    /// A thumbnail task was lost; this is not a folder without a thumbnail.
    ThumbnailExtractionFailed,
}

impl ListingError {
    /// The text shown for this failure.
    pub fn message(&self) -> (text: String)
        ensures
            text@ == match *self {
                ListingError::DirectoryUnreadable => "failed to open path"@,
                ListingError::ThumbnailExtractionFailed => "failed to extract thumbnails"@,
            },
    {
        match self {
            ListingError::DirectoryUnreadable => "failed to open path".to_owned(),
            ListingError::ThumbnailExtractionFailed => "failed to extract thumbnails".to_owned(),
        }
    }
}

/// A folder of the requested page with what the cache held for it when the
/// listing was planned.
#[derive(Debug)]
pub struct PlannedFolder {
    pub folder: FolderScan,
    /// The cached thumbnail path; `None` where the folder has to be probed.
    pub cached: Option<String>,
}

/// The mathematical value of a [`PlannedFolder`].
pub struct PlannedFolderView {
    pub folder: FolderScanView,
    pub cached: Option<Seq<char>>,
}

impl View for PlannedFolder {
    type V = PlannedFolderView;

    open spec fn view(&self) -> PlannedFolderView {
        PlannedFolderView { folder: self.folder@, cached: text_view(self.cached) }
    }
}

/// The requested page of a listing before its thumbnails are resolved.
#[derive(Debug)]
pub struct ListingPlan {
    pub entries: Vec<PlannedFolder>,
    pub total_pages: usize,
}

/// The values of a sequence of planned folders.
pub open spec fn plan_views(entries: Seq<PlannedFolder>) -> Seq<PlannedFolderView> {
    entries.map_values(|e: PlannedFolder| e@)
}

/// How the probe of one folder of the page ended.
#[derive(Debug)]
pub enum ProbeOutcome {
    /// The probe ran; the text is the first image found, empty for none.
    Found(String),
    /// The probe could not run: the folder is shown without a thumbnail.
    Unavailable,
    /// The task of this folder was lost: the listing fails as a whole.
    TaskFailed,
}

/// The mathematical value of a [`ProbeOutcome`].
pub enum ProbeOutcomeView {
    Found(Seq<char>),
    Unavailable,
    TaskFailed,
}

impl View for ProbeOutcome {
    type V = ProbeOutcomeView;

    open spec fn view(&self) -> ProbeOutcomeView {
        match *self {
            ProbeOutcome::Found(t) => ProbeOutcomeView::Found(t@),
            ProbeOutcome::Unavailable => ProbeOutcomeView::Unavailable,
            ProbeOutcome::TaskFailed => ProbeOutcomeView::TaskFailed,
        }
    }
}

/// The values of a sequence of probe outcomes.
pub open spec fn outcome_views(outcomes: Seq<ProbeOutcome>) -> Seq<ProbeOutcomeView> {
    outcomes.map_values(|o: ProbeOutcome| o@)
}

/// What the cache holds for `path`.
pub open spec fn cached_thumb(cache: Map<Seq<char>, Seq<char>>, path: Seq<char>) -> Option<
    Seq<char>,
> {
    if cache.contains_key(path) {
        Some(cache[path])
    } else {
        None
    }
}

/// The plan of a page: each folder with what the cache holds for its path.
pub open spec fn planned(folders: Seq<FolderScanView>, cache: Map<Seq<char>, Seq<char>>) -> Seq<
    PlannedFolderView,
> {
    folders.map_values(
        |f: FolderScanView| PlannedFolderView { folder: f, cached: cached_thumb(cache, f.path) },
    )
}

/// The outcome for the folder at `i`; a folder without one counts as not
/// probed.
pub open spec fn outcome_at(outcomes: Seq<ProbeOutcomeView>, i: int) -> ProbeOutcomeView {
    if 0 <= i < outcomes.len() {
        outcomes[i]
    } else {
        ProbeOutcomeView::Unavailable
    }
}

/// The thumbnail path of a planned folder: what the cache held, else what the
/// probe found, else none.
pub open spec fn resolved_thumb(entry: PlannedFolderView, outcome: ProbeOutcomeView) -> Seq<char> {
    match entry.cached {
        Some(thumb) => thumb,
        None => match outcome {
            ProbeOutcomeView::Found(thumb) => thumb,
            _ => Seq::empty(),
        },
    }
}

/// The thumbnail of a planned folder.
pub open spec fn resolved_entry(entry: PlannedFolderView, outcome: ProbeOutcomeView) -> ThumbnailView {
    ThumbnailView {
        path: entry.folder.path,
        filename: entry.folder.filename,
        thumbpath: resolved_thumb(entry, outcome),
        modified_at: entry.folder.modified_at,
        created_at: entry.folder.created_at,
    }
}

/// The thumbnails of a planned page.
pub open spec fn resolved(entries: Seq<PlannedFolderView>, outcomes: Seq<ProbeOutcomeView>) -> Seq<
    ThumbnailView,
> {
    Seq::new(entries.len(), |i: int| resolved_entry(entries[i], outcome_at(outcomes, i)))
}

/// Whether the task of one of the first `n` folders was lost.
pub open spec fn any_task_failed(outcomes: Seq<ProbeOutcomeView>, n: nat) -> bool {
    exists|i: int| 0 <= i < n && #[trigger] outcome_at(outcomes, i) == ProbeOutcomeView::TaskFailed
}

/// The cache once the first `n` folders of the plan are resolved: each folder
/// that was not cached and whose task was not lost has its thumbnail path
/// stored under its path, later folders over earlier ones.
pub open spec fn cache_after(
    cache: Map<Seq<char>, Seq<char>>,
    entries: Seq<PlannedFolderView>,
    outcomes: Seq<ProbeOutcomeView>,
    n: nat,
) -> Map<Seq<char>, Seq<char>>
    decreases n,
{
    if n == 0 {
        cache
    } else {
        let earlier = cache_after(cache, entries, outcomes, (n - 1) as nat);
        let entry = entries[n - 1];
        let outcome = outcome_at(outcomes, n - 1);
        if entry.cached.is_none() && outcome != ProbeOutcomeView::TaskFailed {
            earlier.insert(entry.folder.path, resolved_thumb(entry, outcome))
        } else {
            earlier
        }
    }
}

/// Plans the requested page of a listing: filters, orders and pages the
/// scans, and looks each folder of the page up in the cache. The folders with
/// no cached thumbnail are the ones to probe.
pub fn plan_listing(
    scans: &Vec<FolderScan>,
    page: usize,
    cache: &ThumbnailCache,
    sort: &SortConfig,
    search: Option<&str>,
) -> (plan: ListingPlan)
    ensures
        plan_views(plan.entries@) == planned(
            listed(scan_views(scans@), page as nat, *sort, str_view(search)),
            cache@,
        ),
        plan.total_pages == page_count(eligible(scan_views(scans@), str_view(search)).len()),
        plan.total_pages >= 1,
        plan.entries@.len() <= CATALOG_PER_PAGE,
        page > plan.total_pages ==> plan.entries@.len() == 0,
{
    let (folders, total_pages) = list_page(scans, page, sort, search);
    let ghost shown = scan_views(folders@);
    let mut entries: Vec<PlannedFolder> = Vec::new();
    let mut i: usize = 0;
    while i < folders.len()
        invariant
            i <= folders@.len(),
            scan_views(folders@) == shown,
            plan_views(entries@) =~= planned(shown, cache@).take(i as int),
        decreases folders@.len() - i,
    {
        let folder = folders[i].duplicate();
        let cached = cache.get(folder.path.as_str());
        let ghost before = plan_views(entries@);
        assert(shown[i as int] == folders@[i as int]@);
        entries.push(PlannedFolder { folder, cached });
        assert(plan_views(entries@) =~= before.push(planned(shown, cache@)[i as int]));
        i = i + 1;
    }
    assert(planned(shown, cache@).take(i as int) =~= planned(shown, cache@));
    ListingPlan { entries, total_pages }
}

/// Plans the requested page from what the scan of the directory gave,
/// `None` where the directory could not be opened: the listing then fails as
/// a whole, whatever page is asked for.
pub fn plan_scanned_listing(
    scan: Option<Vec<FolderScan>>,
    page: usize,
    cache: &ThumbnailCache,
    sort: &SortConfig,
    search: Option<&str>,
) -> (result: Result<ListingPlan, ListingError>)
    ensures
        match scan {
            None => result matches Err(e) && e == ListingError::DirectoryUnreadable,
            Some(scans) => result matches Ok(plan) && plan_views(plan.entries@) == planned(
                listed(scan_views(scans@), page as nat, *sort, str_view(search)),
                cache@,
            ) && plan.total_pages == page_count(
                eligible(scan_views(scans@), str_view(search)).len(),
            ) && plan.entries@.len() <= CATALOG_PER_PAGE && (page > plan.total_pages
                ==> plan.entries@.len() == 0),
        },
{
    match scan {
        None => Err(ListingError::DirectoryUnreadable),
        Some(scans) => Ok(plan_listing(&scans, page, cache, sort, search)),
    }
}

/// Resolves the thumbnails of a planned page from the outcomes of its probes,
/// one outcome per folder in the order of the plan.
///
/// A folder that the cache held keeps that path. Any other takes what its
/// probe found, or no thumbnail where there is no finding, and that result is
/// stored in the cache. Where the task of any folder was lost the listing
/// fails; what the other folders found is stored all the same.
pub fn complete_listing(
    plan: &ListingPlan,
    outcomes: &Vec<ProbeOutcome>,
    cache: &mut ThumbnailCache,
) -> (result: Result<(Vec<Thumbnail>, usize), ListingError>)
    requires
        old(cache).wf(),
    ensures
        final(cache).wf(),
        final(cache)@ == cache_after(
            old(cache)@,
            plan_views(plan.entries@),
            outcome_views(outcomes@),
            plan.entries@.len(),
        ),
        result.is_ok() <==> !any_task_failed(outcome_views(outcomes@), plan.entries@.len()),
        match result {
            Ok((thumbnails, total_pages)) => thumbnail_views(thumbnails@) == resolved(
                plan_views(plan.entries@),
                outcome_views(outcomes@),
            ) && total_pages == plan.total_pages,
            Err(e) => e == ListingError::ThumbnailExtractionFailed,
        },
{
    let ghost entries = plan_views(plan.entries@);
    let ghost given = outcome_views(outcomes@);
    let mut thumbnails: Vec<Thumbnail> = Vec::new();
    let mut failed = false;
    let mut i: usize = 0;
    while i < plan.entries.len()
        invariant
            i <= plan.entries@.len(),
            entries == plan_views(plan.entries@),
            given == outcome_views(outcomes@),
            cache.wf(),
            cache@ == cache_after(old(cache)@, entries, given, i as nat),
            failed <==> any_task_failed(given, i as nat),
            thumbnails@.len() == i,
            forall|k: int|
                0 <= k < i ==> (#[trigger] thumbnails@[k])@ == resolved_entry(
                    entries[k],
                    outcome_at(given, k),
                ),
        decreases plan.entries@.len() - i,
    {
        let entry = &plan.entries[i];
        assert(entries[i as int] == entry@);
        let ghost outcome = outcome_at(given, i as int);
        let mut lost = false;
        let mut found: Option<String> = None;
        if i < outcomes.len() {
            assert(given[i as int] == outcomes@[i as int]@);
            match &outcomes[i] {
                ProbeOutcome::Found(thumb) => {
                    found = Some(thumb.clone());
                },
                ProbeOutcome::Unavailable => {},
                ProbeOutcome::TaskFailed => {
                    lost = true;
                },
            }
        }
        let thumbpath = match &entry.cached {
            Some(thumb) => thumb.clone(),
            None => {
                let thumb = match found {
                    Some(thumb) => thumb,
                    None => String::new(),
                };
                if !lost {
                    cache.put(entry.folder.path.clone(), thumb.clone());
                }
                thumb
            },
        };
        assert(thumbpath@ == resolved_thumb(entries[i as int], outcome));
        proof {
            if lost {
                assert(outcome_at(given, i as int) == ProbeOutcomeView::TaskFailed);
            } else if any_task_failed(given, (i + 1) as nat) {
                let k = choose|k: int|
                    0 <= k < i + 1 && #[trigger] outcome_at(given, k)
                        == ProbeOutcomeView::TaskFailed;
                assert(k < i);
            }
        }
        failed = failed || lost;
        thumbnails.push(
            Thumbnail {
                path: entry.folder.path.clone(),
                filename: entry.folder.filename.clone(),
                thumbpath,
                modified_at: entry.folder.modified_at,
                created_at: entry.folder.created_at,
            },
        );
        i = i + 1;
    }
    if failed {
        Err(ListingError::ThumbnailExtractionFailed)
    } else {
        assert(thumbnail_views(thumbnails@) =~= resolved(entries, given));
        Ok((thumbnails, plan.total_pages))
    }
}

/// The rule of a listing is a strict weak order on its folders, for every
/// attribute and both directions.
pub proof fn lemma_listing_rule_is_strict_weak(scans: Seq<FolderScanView>, sort: SortConfig)
    ensures
        is_strict_weak(listing_rule(scans, sort), scans.len()),
{
    let rule = listing_rule(scans, sort);
    let n = scans.len();
    assert forall|i: int| 0 <= i < n implies !#[trigger] rule(i, i) by {
        lemma_bytes_before_irreflexive(encode_utf8(scans[i].filename));
    }
    assert forall|i: int, j: int, k: int|
        0 <= i < n && 0 <= j < n && 0 <= k < n && #[trigger] rule(i, j) && #[trigger] rule(
            j,
            k,
        ) implies rule(i, k) by {
        let a = encode_utf8(scans[i].filename);
        let b = encode_utf8(scans[j].filename);
        let c = encode_utf8(scans[k].filename);
        if sort.field == SortField::Name {
            if sort.order == SortOrder::Asc {
                lemma_bytes_before_transitive(c, b, a);
            } else {
                lemma_bytes_before_transitive(a, b, c);
            }
        }
    }
    assert forall|i: int, j: int, k: int|
        0 <= i < n && 0 <= j < n && 0 <= k < n && !#[trigger] rule(i, j) && !#[trigger] rule(
            j,
            k,
        ) implies !rule(i, k) by {
        let a = encode_utf8(scans[i].filename);
        let b = encode_utf8(scans[j].filename);
        let c = encode_utf8(scans[k].filename);
        if sort.field == SortField::Name {
            if sort.order == SortOrder::Asc {
                lemma_bytes_before_complement_transitive(c, b, a);
            } else {
                lemma_bytes_before_complement_transitive(a, b, c);
            }
        }
    }
}

/// An ordered listing holds every scan exactly once: it has the length of the
/// scans, and its folder at `p` is the scan at the `p`-th position of the
/// stable order, which names each position once.
pub proof fn lemma_sorted_scans_rearranges(scans: Seq<FolderScanView>, sort: SortConfig)
    ensures
        sorted_scans(scans, sort).len() == scans.len(),
        forall|p: int|
            0 <= p < scans.len() ==> {
                let from = stable_order(listing_rule(scans, sort), scans.len())[p];
                0 <= from < scans.len() && #[trigger] sorted_scans(scans, sort)[p] == scans[from]
            },
        forall|p: int, q: int|
            0 <= p < q < scans.len() ==> #[trigger] stable_order(
                listing_rule(scans, sort),
                scans.len(),
            )[p] != #[trigger] stable_order(listing_rule(scans, sort), scans.len())[q],
        forall|i: int|
            0 <= i < scans.len() ==> sorted_scans(scans, sort).contains(#[trigger] scans[i]),
{
    let order = stable_order(listing_rule(scans, sort), scans.len());
    lemma_stable_order_is_permutation(listing_rule(scans, sort), scans.len());
    assert forall|i: int| 0 <= i < scans.len() implies sorted_scans(scans, sort).contains(
        #[trigger] scans[i],
    ) by {
        assert(order.contains(i));
        let p = choose|p: int| 0 <= p < order.len() && order[p] == i;
        assert(sorted_scans(scans, sort)[p] == scans[i]);
    }
}

/// In an ordered listing no folder must stand after a later one: ascending
/// listings never fall, descending ones never rise.
pub proof fn lemma_sorted_scans_in_order(scans: Seq<FolderScanView>, sort: SortConfig)
    ensures
        forall|p: int, q: int|
            0 <= p < q < scans.len() ==> !stands_after(
                #[trigger] sorted_scans(scans, sort)[p],
                #[trigger] sorted_scans(scans, sort)[q],
                sort,
            ),
{
    let rule = listing_rule(scans, sort);
    let order = stable_order(rule, scans.len());
    lemma_listing_rule_is_strict_weak(scans, sort);
    lemma_stable_order_is_permutation(rule, scans.len());
    lemma_stable_order_is_sorted(rule, scans.len(), scans.len());
    assert forall|p: int, q: int| 0 <= p < q < scans.len() implies !stands_after(
        #[trigger] sorted_scans(scans, sort)[p],
        #[trigger] sorted_scans(scans, sort)[q],
        sort,
    ) by {
        assert(!rule(order[p], order[q]));
    }
}

/// In an ordered listing, two folders that the order does not tell apart
/// stand as they were scanned.
pub proof fn lemma_sorted_scans_keeps_scan_order(scans: Seq<FolderScanView>, sort: SortConfig)
    ensures
        forall|p: int, q: int|
            0 <= p < q < scans.len() && !stands_after(
                #[trigger] sorted_scans(scans, sort)[q],
                #[trigger] sorted_scans(scans, sort)[p],
                sort,
            ) ==> stable_order(listing_rule(scans, sort), scans.len())[p] < stable_order(
                listing_rule(scans, sort),
                scans.len(),
            )[q],
{
    let rule = listing_rule(scans, sort);
    let order = stable_order(rule, scans.len());
    lemma_stable_order_is_permutation(rule, scans.len());
    lemma_stable_order_keeps_ties(rule, scans.len());
    assert forall|p: int, q: int|
        0 <= p < q < scans.len() && !stands_after(
            #[trigger] sorted_scans(scans, sort)[q],
            #[trigger] sorted_scans(scans, sort)[p],
            sort,
        ) implies order[p] < order[q] by {
        assert(!rule(order[q], order[p]));
    }
}

/// The number of pages is the number of eligible folders over the page size,
/// rounded up, and never less than one; a page holds at most a page's size of
/// folders, and a page behind the last holds none.
pub proof fn lemma_page_shape<T>(items: Seq<T>, page: nat)
    ensures
        page_count(items.len()) >= 1,
        (page_count(items.len()) - 1) * CATALOG_PER_PAGE < items.len() || items.len() == 0,
        items.len() <= page_count(items.len()) * CATALOG_PER_PAGE,
        page_of(items, page).len() <= CATALOG_PER_PAGE,
        page > page_count(items.len()) ==> page_of(items, page).len() == 0,
{
    lemma_page_behind_last(page, items.len());
    let n = items.len();
    if n > 0 {
        assert(((n + 49) / 50 - 1) * 50 < n && n <= ((n + 49) / 50) * 50) by (nonlinear_arith)
            requires
                n > 0,
        ;
    }
}

/// Whether no two of the folders have the same path, as it is with the
/// subfolders of one directory.
pub open spec fn paths_differ(folders: Seq<FolderScanView>) -> bool {
    forall|i: int, j: int|
        0 <= i < j < folders.len() ==> (#[trigger] folders[i]).path != (#[trigger] folders[j]).path
}

/// Decides [`paths_differ`] for scanned folders.
pub fn have_different_paths(scans: &Vec<FolderScan>) -> (differ: bool)
    ensures
        differ == paths_differ(scan_views(scans@)),
{
    let ghost views = scan_views(scans@);
    let mut j: usize = 0;
    while j < scans.len()
        invariant
            j <= scans@.len(),
            views == scan_views(scans@),
            forall|a: int, b: int|
                0 <= a < b < j ==> (#[trigger] views[a]).path != (#[trigger] views[b]).path,
        decreases scans@.len() - j,
    {
        let mut i: usize = 0;
        while i < j
            invariant
                i <= j < scans@.len(),
                views == scan_views(scans@),
                forall|a: int| 0 <= a < i ==> (#[trigger] views[a]).path != views[j as int].path,
            decreases j - i,
        {
            if same_text(scans[i].path.as_str(), scans[j].path.as_str()) {
                assert(views[i as int].path == views[j as int].path);
                return false;
            }
            i = i + 1;
        }
        j = j + 1;
    }
    true
}

/// The folders that pass a search are among the scans, and no two of them
/// have the same path where no two scans have.
pub proof fn lemma_eligible_paths_differ(scans: Seq<FolderScanView>, search: Option<Seq<char>>)
    requires
        paths_differ(scans),
    ensures
        paths_differ(eligible(scans, search)),
        forall|i: int|
            0 <= i < eligible(scans, search).len() ==> scans.contains(
                #[trigger] eligible(scans, search)[i],
            ),
    decreases scans.len(),
{
    reveal(Seq::filter);
    if scans.len() > 0 {
        let shorter = scans.drop_last();
        let kept = eligible(shorter, search);
        let all = eligible(scans, search);
        assert forall|i: int, j: int| 0 <= i < j < shorter.len() implies (#[trigger] shorter[i]).path
            != (#[trigger] shorter[j]).path by {
            assert(shorter[i] == scans[i] && shorter[j] == scans[j]);
        }
        lemma_eligible_paths_differ(shorter, search);
        assert forall|i: int| 0 <= i < kept.len() implies scans.contains(#[trigger] kept[i]) && kept[i].path
            != scans.last().path by {
            assert(shorter.contains(kept[i]));
            let k = choose|k: int| 0 <= k < shorter.len() && shorter[k] == kept[i];
            assert(scans[k] == kept[i]);
            assert(scans[k].path != scans[scans.len() - 1].path);
        }
        if matches_search(scans.last().filename, search) {
            assert(all == kept.push(scans.last()));
            assert forall|i: int| 0 <= i < all.len() implies scans.contains(#[trigger] all[i]) by {
                if i < kept.len() {
                    assert(all[i] == kept[i]);
                } else {
                    assert(scans[scans.len() - 1] == all[i]);
                }
            }
            assert forall|i: int, j: int| 0 <= i < j < all.len() implies (#[trigger] all[i]).path != (
            #[trigger] all[j]).path by {
                assert(all[i] == kept[i]);
                if j < kept.len() {
                    assert(all[j] == kept[j]);
                }
            }
        } else {
            assert(all == kept);
        }
    }
}

/// No two folders of a listed page have the same path where no two scans
/// have: a listing shows each eligible scan at most once.
pub proof fn lemma_listed_paths_differ(
    scans: Seq<FolderScanView>,
    page: nat,
    sort: SortConfig,
    search: Option<Seq<char>>,
)
    requires
        paths_differ(scans),
    ensures
        paths_differ(listed(scans, page, sort, search)),
{
    let chosen = eligible(scans, search);
    let sorted = sorted_scans(chosen, sort);
    let order = stable_order(listing_rule(chosen, sort), chosen.len());
    let shown = listed(scans, page, sort, search);
    lemma_eligible_paths_differ(scans, search);
    lemma_sorted_scans_rearranges(chosen, sort);
    assert forall|p: int, q: int| 0 <= p < q < sorted.len() implies (#[trigger] sorted[p]).path != (
    #[trigger] sorted[q]).path by {
        assert(sorted[p] == chosen[order[p]]);
        assert(sorted[q] == chosen[order[q]]);
        assert(order[p] != order[q]);
        if order[p] < order[q] {
            assert(chosen[order[p]].path != chosen[order[q]].path);
        } else {
            assert(chosen[order[q]].path != chosen[order[p]].path);
        }
    }
    assert forall|i: int, j: int| 0 <= i < j < shown.len() implies (#[trigger] shown[i]).path != (
    #[trigger] shown[j]).path by {
        let start = page_start(page) as int;
        assert(shown[i] == sorted[start + i]);
        assert(shown[j] == sorted[start + j]);
    }
}

/// Listing an unchanged directory twice gives the same page both times, and
/// the second listing probes nothing. For the subfolders of a directory, the
/// same page, order and search, and a first listing in which no task was
/// lost: the number of pages is a function of the scans alone; the second
/// plan finds every folder of the page in the cache, with the thumbnail path
/// that the first listing returned; whatever outcomes the second listing is
/// given, it resolves to the thumbnails of the first and leaves the cache as
/// the first listing left it.
pub proof fn lemma_relisting_unchanged_directory(
    cache: Map<Seq<char>, Seq<char>>,
    scans: Seq<FolderScanView>,
    page: nat,
    sort: SortConfig,
    search: Option<Seq<char>>,
    outcomes: Seq<ProbeOutcomeView>,
    later: Seq<ProbeOutcomeView>,
)
    requires
        paths_differ(scans),
        !any_task_failed(outcomes, listed(scans, page, sort, search).len()),
    ensures
        ({
            let folders = listed(scans, page, sort, search);
            let first = planned(folders, cache);
            let filled = cache_after(cache, first, outcomes, folders.len());
            let second = planned(folders, filled);
            &&& forall|i: int|
                0 <= i < folders.len() ==> (#[trigger] second[i]).cached == Some(
                    resolved(first, outcomes)[i].thumbpath,
                )
            &&& resolved(second, later) == resolved(first, outcomes)
            &&& cache_after(filled, second, later, folders.len()) == filled
        }),
{
    lemma_listed_paths_differ(scans, page, sort, search);
    lemma_relisting_is_served_from_cache(
        cache,
        listed(scans, page, sort, search),
        outcomes,
        later,
    );
}

/// Listing a page again is served from the cache: after a listing whose
/// folders have different paths and whose tasks all finished, the cache holds
/// for each folder of the page exactly the thumbnail path that the listing
/// returned, so that a second plan of the same page has nothing to probe and
/// resolves to the same thumbnails.
pub proof fn lemma_relisting_is_served_from_cache(
    cache: Map<Seq<char>, Seq<char>>,
    folders: Seq<FolderScanView>,
    outcomes: Seq<ProbeOutcomeView>,
    later: Seq<ProbeOutcomeView>,
)
    requires
        paths_differ(folders),
        !any_task_failed(outcomes, folders.len()),
    ensures
        ({
            let first = planned(folders, cache);
            let filled = cache_after(cache, first, outcomes, folders.len());
            let second = planned(folders, filled);
            &&& forall|i: int|
                0 <= i < folders.len() ==> (#[trigger] second[i]).cached == Some(
                    resolved(first, outcomes)[i].thumbpath,
                )
            &&& resolved(second, later) == resolved(first, outcomes)
            &&& cache_after(filled, second, later, folders.len()) == filled
        }),
{
    let first = planned(folders, cache);
    let n = folders.len();
    let filled = cache_after(cache, first, outcomes, n);
    let second = planned(folders, filled);
    lemma_cache_after_holds(cache, folders, outcomes, n);
    assert forall|i: int| 0 <= i < n implies (#[trigger] second[i]).cached == Some(
        resolved(first, outcomes)[i].thumbpath,
    ) by {
        assert(!(outcome_at(outcomes, i) == ProbeOutcomeView::TaskFailed));
    }
    assert(resolved(second, later) =~= resolved(first, outcomes));
    lemma_cached_plan_leaves_cache(filled, second, later, n);
}

/// What the cache holds after the first `n` folders of a plan with different
/// paths: for a folder among them, what the cache held or its probe found;
/// for any other path, what it held before.
pub proof fn lemma_cache_after_holds(
    cache: Map<Seq<char>, Seq<char>>,
    folders: Seq<FolderScanView>,
    outcomes: Seq<ProbeOutcomeView>,
    n: nat,
)
    requires
        n <= folders.len(),
        paths_differ(folders),
    ensures
        ({
            let plan = planned(folders, cache);
            let filled = cache_after(cache, plan, outcomes, n);
            &&& forall|i: int|
                0 <= i < n && outcome_at(outcomes, i) != ProbeOutcomeView::TaskFailed
                    ==> filled.contains_key((#[trigger] folders[i]).path) && filled[folders[i].path]
                    == resolved_thumb(plan[i], outcome_at(outcomes, i))
            &&& forall|path: Seq<char>|
                (forall|i: int| 0 <= i < n ==> (#[trigger] folders[i]).path != path) ==> (
                #[trigger] filled.contains_key(path) <==> cache.contains_key(path)) && (
                cache.contains_key(path) ==> filled[path] == cache[path])
            &&& forall|path: Seq<char>|
                cache.contains_key(path) ==> #[trigger] filled.contains_key(path) && filled[path]
                    == cache[path]
        }),
    decreases n,
{
    if n > 0 {
        lemma_cache_after_holds(cache, folders, outcomes, (n - 1) as nat);
        let plan = planned(folders, cache);
        let earlier = cache_after(cache, plan, outcomes, (n - 1) as nat);
        let filled = cache_after(cache, plan, outcomes, n);
        let last = n - 1;
        assert(plan[last].folder == folders[last]);
        assert forall|i: int|
            0 <= i < n && outcome_at(outcomes, i)
                != ProbeOutcomeView::TaskFailed implies filled.contains_key(
            (#[trigger] folders[i]).path,
        ) && filled[folders[i].path] == resolved_thumb(plan[i], outcome_at(outcomes, i)) by {
            assert(plan[i].folder == folders[i]);
            assert(plan[i].cached == cached_thumb(cache, folders[i].path));
            if i < last {
                assert(folders[i].path != folders[last].path);
                assert(earlier.contains_key(folders[i].path));
            } else if cache.contains_key(folders[i].path) {
                assert(earlier.contains_key(folders[i].path));
            }
        }
        assert forall|path: Seq<char>|
            cache.contains_key(path) implies #[trigger] filled.contains_key(path) && filled[path]
            == cache[path] by {
            if path == folders[last].path {
                assert(plan[last].cached == cached_thumb(cache, folders[last].path));
            }
        }
    }
}

/// Resolving a plan in which every folder was cached leaves the cache as it
/// was.
pub proof fn lemma_cached_plan_leaves_cache(
    cache: Map<Seq<char>, Seq<char>>,
    entries: Seq<PlannedFolderView>,
    outcomes: Seq<ProbeOutcomeView>,
    n: nat,
)
    requires
        n <= entries.len(),
        forall|i: int| 0 <= i < entries.len() ==> (#[trigger] entries[i]).cached.is_some(),
    ensures
        cache_after(cache, entries, outcomes, n) == cache,
    decreases n,
{
    if n > 0 {
        lemma_cached_plan_leaves_cache(cache, entries, outcomes, (n - 1) as nat);
    }
}

/// A page behind the last page starts behind the last folder.
pub proof fn lemma_page_behind_last(page: nat, count: nat)
    ensures
        page > page_count(count) ==> page_start(page) >= count,
        page_start(page) >= count && count > 0 ==> page > page_count(count),
{
    if count > 0 && page > 0 {
        assert(page > (count + 49) / 50 ==> (page - 1) * 50 >= count) by (nonlinear_arith);
        assert((page - 1) * 50 >= count ==> page > (count + 49) / 50) by (nonlinear_arith)
            requires
                count > 0,
        ;
    }
}

} // verus!
