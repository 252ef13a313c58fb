//! Building the file tree of the viewer from what a scan of a directory or
//! the index of an archive holds.
//!
//! In a tree built from a directory, directories come before files,
//! directories stand in the byte order of their paths and files in the
//! natural order of their names. Only images and videos are kept, and only
//! directories that hold something. Every file of the scan gets a number,
//! kept or not, and a kept file has the key `file-` and its number.

use crate::file_utils::{image_extensions, is_image_file, is_video_file, kind_extension};
use crate::file_utils::{texts, video_extensions};
use crate::natural::{comes_after, natural_order_of};
use crate::stable_order::{lemma_stable_order_is_permutation, lemma_stable_order_is_sorted};
use crate::stable_order::{is_strict_weak, positions, sort_positions, stable_order, Ranked};
use crate::text::{append_decimal, append_signed_decimal, decimal_text, signed_decimal_text};
use crate::text::{lemma_bytes_before_complement_transitive, lemma_bytes_before_irreflexive};
use crate::text::{lemma_bytes_before_total, lemma_bytes_before_transitive, str_before, text_before};
use crate::viewer_state::{lemma_trees_view, tree_view, trees_view};
use crate::viewer_state::{Directory, DirectoryView, File, FileTree, FileTreeView, FileView};
use vstd::prelude::*;
use vstd::string::*;
use vstd::utf8::{encode_utf8, encode_utf8_decode_utf8};

verus! {

/// An entry of a scanned directory; a directory entry holds the scan of the
/// directory it names.
#[derive(Debug)]
pub struct ScannedEntry {
    pub path: String,
    pub name: String,
    pub is_dir: bool,
    pub children: Vec<ScannedEntry>,
}

/// What a tree is built from.
#[derive(Debug)]
pub enum TreeSource {
    /// The scan of a directory.
    Directory(Vec<ScannedEntry>),
    /// The bytes of an archive.
    Archive(Vec<u8>),
}

/// The key of the file with the number `number`.
pub open spec fn file_key(number: int) -> Seq<char> {
    "file-"@ + signed_decimal_text(number)
}

/// Whether a file is kept in the tree: it is an image or a video.
pub open spec fn is_shown(path: Seq<char>) -> bool {
    image_extensions().contains(kind_extension(path)) || video_extensions().contains(
        kind_extension(path),
    )
}

/// The kind of a file, told by its extension.
pub open spec fn file_kind(path: Seq<char>) -> Seq<char> {
    if image_extensions().contains(kind_extension(path)) {
        "Image"@
    } else if video_extensions().contains(kind_extension(path)) {
        "Video"@
    } else {
        "File"@
    }
}

/// The number of the last file once the first `n` entries are numbered, each
/// directory entry with all below it, starting behind `key_count`.
pub open spec fn keys_after(entries: Seq<ScannedEntry>, n: nat, key_count: int) -> int
    decreases entries, n,
{
    if n == 0 || n > entries.len() {
        key_count
    } else {
        let before = keys_after(entries, (n - 1) as nat, key_count);
        let entry = entries[n - 1];
        if entry.is_dir {
            keys_after(entry.children@, entry.children@.len(), before)
        } else {
            before + 1
        }
    }
}

/// Whether node `a` must stand after node `b`: a file after a directory,
/// a directory after one whose path is smaller in byte order, a file after
/// one whose name comes first in natural order.
pub open spec fn node_after(a: FileTreeView, b: FileTreeView) -> bool {
    match (a, b) {
        (FileTreeView::File(_), FileTreeView::Directory(_)) => true,
        (FileTreeView::Directory(_), FileTreeView::File(_)) => false,
        (FileTreeView::Directory(x), FileTreeView::Directory(y)) => text_before(y.path, x.path),
        (FileTreeView::File(x), FileTreeView::File(y)) => natural_order_of(x.name, y.name) > 0,
    }
}

/// The rule of the order of `nodes`, on positions.
pub open spec fn node_rule(nodes: Seq<FileTreeView>) -> spec_fn(int, int) -> bool {
    |i: int, j: int| node_after(nodes[i], nodes[j])
}

/// `nodes` in stable order by [`node_after`].
pub open spec fn sorted_nodes(nodes: Seq<FileTreeView>) -> Seq<FileTreeView> {
    stable_order(node_rule(nodes), nodes.len()).map_values(|p: int| nodes[p])
}

/// The nodes kept of the first `n` entries, in the order of the scan.
pub open spec fn kept_nodes(entries: Seq<ScannedEntry>, n: nat, key_count: int) -> Seq<
    FileTreeView,
>
    decreases entries, n,
{
    if n == 0 || n > entries.len() {
        Seq::empty()
    } else {
        let earlier = kept_nodes(entries, (n - 1) as nat, key_count);
        let before = keys_after(entries, (n - 1) as nat, key_count);
        let entry = entries[n - 1];
        if entry.is_dir {
            let children = file_tree(entry.children@, before);
            if children.len() > 0 {
                earlier.push(
                    FileTreeView::Directory(
                        DirectoryView { path: entry.path@, name: entry.name@, children },
                    ),
                )
            } else {
                earlier
            }
        } else if is_shown(entry.path@) {
            earlier.push(
                FileTreeView::File(
                    FileView {
                        key: file_key(before + 1),
                        file_type: file_kind(entry.path@),
                        path: entry.path@,
                        name: entry.name@,
                    },
                ),
            )
        } else {
            earlier
        }
    }
}

/// The tree of a scanned directory whose files are numbered behind
/// `key_count`.
pub open spec fn file_tree(entries: Seq<ScannedEntry>, key_count: int) -> Seq<FileTreeView>
    decreases entries, entries.len() + 1,
{
    sorted_nodes(kept_nodes(entries, entries.len(), key_count))
}

/// Numbering never goes back: more entries give a number at least as large.
pub proof fn lemma_keys_grow(entries: Seq<ScannedEntry>, n: nat, m: nat, key_count: int)
    requires
        n <= m <= entries.len(),
    ensures
        key_count <= keys_after(entries, n, key_count) <= keys_after(entries, m, key_count),
    decreases entries, m,
{
    if m > 0 {
        if n < m {
            lemma_keys_grow(entries, n, (m - 1) as nat, key_count);
        } else {
            lemma_keys_grow(entries, (n - 1) as nat, (m - 1) as nat, key_count);
        }
        let before = keys_after(entries, (m - 1) as nat, key_count);
        let entry = entries[m - 1];
        if entry.is_dir {
            lemma_keys_grow(entry.children@, 0, entry.children@.len(), before);
        }
    }
}

/// The nodes of one level, to be ordered.
pub struct NodeRanking<'a> {
    pub nodes: &'a Vec<FileTree>,
}

impl<'a> Ranked for NodeRanking<'a> {
    open spec fn valid(&self) -> bool {
        true
    }

    open spec fn count(&self) -> nat {
        self.nodes@.len()
    }

    open spec fn rule(&self) -> spec_fn(int, int) -> bool {
        node_rule(trees_view(self.nodes@))
    }

    fn len(&self) -> (n: usize) {
        self.nodes.len()
    }

    fn is_after(&self, i: usize, j: usize) -> (r: bool) {
        proof {
            lemma_trees_view(self.nodes@);
        }
        match &self.nodes[i] {
            FileTree::File(x) => match &self.nodes[j] {
                FileTree::Directory(_) => true,
                FileTree::File(y) => comes_after(x.name.as_str(), y.name.as_str()),
            },
            FileTree::Directory(x) => match &self.nodes[j] {
                FileTree::File(_) => false,
                FileTree::Directory(y) => str_before(y.path.as_str(), x.path.as_str()),
            },
        }
    }
}

/// Puts the nodes of one level in order.
pub fn sort_nodes(nodes: &Vec<FileTree>) -> (sorted: Vec<FileTree>)
    ensures
        trees_view(sorted@) == sorted_nodes(trees_view(nodes@)),
{
    let ranking = NodeRanking { nodes };
    let order = sort_positions(&ranking);
    let ghost views = trees_view(nodes@);
    let ghost wanted = sorted_nodes(views);
    proof {
        lemma_trees_view(nodes@);
        lemma_stable_order_is_permutation(node_rule(views), views.len());
    }
    let mut sorted: Vec<FileTree> = Vec::new();
    let mut k: usize = 0;
    while k < order.len()
        invariant
            k <= order@.len(),
            order@.len() == nodes@.len(),
            views == trees_view(nodes@),
            views.len() == nodes@.len(),
            wanted == sorted_nodes(views),
            wanted.len() == nodes@.len(),
            positions(order@) == stable_order(node_rule(views), views.len()),
            forall|p: int| 0 <= p < order@.len() ==> #[trigger] order@[p] < nodes@.len(),
            forall|p: int| 0 <= p < nodes@.len() ==> #[trigger] views[p] == tree_view(nodes@[p]),
            sorted@.len() == k,
            forall|p: int| 0 <= p < k ==> tree_view(#[trigger] sorted@[p]) == wanted[p],
        decreases order@.len() - k,
    {
        let at = order[k];
        let copy = nodes[at].duplicate();
        proof {
            assert(positions(order@)[k as int] == order@[k as int]);
            assert(wanted[k as int] == views[at as int]);
        }
        sorted.push(copy);
        k = k + 1;
    }
    proof {
        lemma_trees_view(sorted@);
        assert(trees_view(sorted@) =~= wanted);
    }
    sorted
}

/// Writes the key of the file with the number `number`.
pub fn make_file_key(number: i32) -> (key: String)
    ensures
        key@ == file_key(number as int),
{
    let mut key = "file-".to_owned();
    append_signed_decimal(&mut key, number);
    key
}

/// Tells the kind of a file by its extension.
pub fn get_file_kind(path: &str) -> (kind: String)
    ensures
        kind@ == file_kind(path@),
{
    if is_image_file(path) {
        "Image".to_owned()
    } else if is_video_file(path) {
        "Video".to_owned()
    } else {
        "File".to_owned()
    }
}

/// Builds the tree of a scanned directory. The files are numbered behind
/// `key_count`, which is left at the number of the last file.
pub fn get_file_tree(entries: &Vec<ScannedEntry>, key_count: &mut i32) -> (tree: Vec<FileTree>)
    requires
        keys_after(entries@, entries@.len(), *old(key_count) as int) <= i32::MAX,
    ensures
        trees_view(tree@) == file_tree(entries@, *old(key_count) as int),
        *final(key_count) == keys_after(entries@, entries@.len(), *old(key_count) as int),
    decreases entries,
{
    let ghost start = *key_count as int;
    let mut nodes: Vec<FileTree> = Vec::new();
    let mut i: usize = 0;
    proof {
        lemma_trees_view(nodes@);
        assert(trees_view(nodes@) =~= kept_nodes(entries@, 0, start));
    }
    while i < entries.len()
        invariant
            i <= entries@.len(),
            start == *old(key_count),
            keys_after(entries@, entries@.len(), start) <= i32::MAX,
            *key_count == keys_after(entries@, i as nat, start),
            trees_view(nodes@) == kept_nodes(entries@, i as nat, start),
        decreases entries@.len() - i,
    {
        let entry = &entries[i];
        let ghost before = *key_count as int;
        let ghost shown = trees_view(nodes@);
        proof {
            lemma_keys_grow(entries@, (i + 1) as nat, entries@.len(), start);
            lemma_trees_view(nodes@);
        }
        if entry.is_dir {
            let children = get_file_tree(&entry.children, key_count);
            let ghost below = trees_view(children@);
            proof {
                lemma_trees_view(children@);
            }
            if children.len() > 0 {
                let node = FileTree::Directory(
                    Directory { path: entry.path.clone(), name: entry.name.clone(), children },
                );
                assert(tree_view(node) == FileTreeView::Directory(
                    DirectoryView { path: entry.path@, name: entry.name@, children: below },
                ));
                nodes.push(node);
                proof {
                    lemma_trees_view(nodes@);
                    assert(trees_view(nodes@) =~= shown.push(tree_view(node)));
                }
            }
        } else {
            *key_count = *key_count + 1;
            let shown_file = is_image_file(entry.path.as_str()) || is_video_file(
                entry.path.as_str(),
            );
            if shown_file {
                let node = FileTree::File(
                    File {
                        key: make_file_key(*key_count),
                        file_type: get_file_kind(entry.path.as_str()),
                        path: entry.path.clone(),
                        name: entry.name.clone(),
                    },
                );
                nodes.push(node);
                proof {
                    lemma_trees_view(nodes@);
                    assert(trees_view(nodes@) =~= shown.push(tree_view(node)));
                }
            }
        }
        i = i + 1;
    }
    sort_nodes(&nodes)
}

/// Counts the files of a scan behind `key_count`; `None` where the numbers
/// do not fit.
pub fn count_file_keys(entries: &Vec<ScannedEntry>, key_count: i32) -> (last: Option<i32>)
    ensures
        match last {
            Some(k) => k == keys_after(entries@, entries@.len(), key_count as int),
            None => keys_after(entries@, entries@.len(), key_count as int) > i32::MAX,
        },
    decreases entries,
{
    let mut count = key_count;
    let mut i: usize = 0;
    while i < entries.len()
        invariant
            i <= entries@.len(),
            count == keys_after(entries@, i as nat, key_count as int),
        decreases entries@.len() - i,
    {
        proof {
            lemma_keys_grow(entries@, (i + 1) as nat, entries@.len(), key_count as int);
        }
        let entry = &entries[i];
        if entry.is_dir {
            match count_file_keys(&entry.children, count) {
                Some(k) => {
                    count = k;
                },
                None => {
                    return None;
                },
            }
        } else {
            if count == i32::MAX {
                return None;
            }
            count = count + 1;
        }
        i = i + 1;
    }
    Some(count)
}

/// The names of the entries of an archive, as `zip::ZipArchive` reads them
/// from its index; `None` where the bytes are no archive that it reads.
pub uninterp spec fn archive_names_of(archive: Seq<u8>) -> Option<Set<Seq<char>>>;

/// `zip::ZipArchive::new` on the bytes, then `file_names`. The result holds
/// each name of the archive once, in no stated order; it is `None` where the
/// archive cannot be read.
#[verifier::external_body]
pub(crate) fn archive_file_names(archive: &[u8]) -> (names: Option<Vec<String>>)
    ensures
        match names {
            Some(list) => archive_names_of(archive@) == Some(texts(list@).to_set()) && texts(
                list@,
            ).no_duplicates(),
            None => archive_names_of(archive@).is_none(),
        },
{
    match zip::ZipArchive::new(std::io::Cursor::new(archive)) {
        Ok(read) => Some(read.file_names().map(|name| name.to_string()).collect()),
        Err(_) => None,
    }
}

/// Names to be put in byte order.
pub struct NameRanking<'a> {
    pub names: &'a Vec<String>,
}

/// The rule of the byte order of `names`, on positions.
pub open spec fn name_rule(names: Seq<Seq<char>>) -> spec_fn(int, int) -> bool {
    |i: int, j: int| text_before(names[j], names[i])
}

impl<'a> Ranked for NameRanking<'a> {
    open spec fn valid(&self) -> bool {
        true
    }

    open spec fn count(&self) -> nat {
        self.names@.len()
    }

    open spec fn rule(&self) -> spec_fn(int, int) -> bool {
        name_rule(texts(self.names@))
    }

    fn len(&self) -> (n: usize) {
        self.names.len()
    }

    fn is_after(&self, i: usize, j: usize) -> (r: bool) {
        str_before(self.names[j].as_str(), self.names[i].as_str())
    }
}

/// `names` in byte order, equal names in their given order.
pub open spec fn sorted_names(names: Seq<Seq<char>>) -> Seq<Seq<char>> {
    stable_order(name_rule(names), names.len()).map_values(|p: int| names[p])
}

/// Whether each name stands before every later one in byte order.
pub open spec fn names_ascend(names: Seq<Seq<char>>) -> bool {
    forall|i: int, j: int| 0 <= i < j < names.len() ==> text_before(names[i], names[j])
}

/// Names in byte order hold the same names; names that differ from each
/// other ascend.
pub proof fn lemma_sorted_names(names: Seq<Seq<char>>)
    ensures
        sorted_names(names).len() == names.len(),
        sorted_names(names).to_set() == names.to_set(),
        names.no_duplicates() ==> names_ascend(sorted_names(names)),
{
    let rule = name_rule(names);
    let n = names.len();
    let order = stable_order(rule, n);
    let sorted = sorted_names(names);
    lemma_stable_order_is_permutation(rule, n);
    assert forall|t: Seq<char>| sorted.to_set().contains(t) <==> names.to_set().contains(t) by {
        if sorted.to_set().contains(t) {
            let p = choose|p: int| 0 <= p < sorted.len() && sorted[p] == t;
            assert(names[order[p]] == t);
        }
        if names.to_set().contains(t) {
            let i = choose|i: int| 0 <= i < names.len() && names[i] == t;
            assert(order.contains(i));
            let p = choose|p: int| 0 <= p < order.len() && order[p] == i;
            assert(sorted[p] == t);
        }
    }
    assert(sorted.to_set() =~= names.to_set());
    if names.no_duplicates() {
        assert forall|i: int| 0 <= i < n implies !#[trigger] rule(i, i) by {
            lemma_bytes_before_irreflexive(encode_utf8(names[i]));
        }
        assert forall|i: int, j: int, k: int|
            0 <= i < n && 0 <= j < n && 0 <= k < n && #[trigger] rule(i, j) && #[trigger] rule(
                j,
                k,
            ) implies rule(i, k) by {
            lemma_bytes_before_transitive(
                encode_utf8(names[k]),
                encode_utf8(names[j]),
                encode_utf8(names[i]),
            );
        }
        assert forall|i: int, j: int, k: int|
            0 <= i < n && 0 <= j < n && 0 <= k < n && !#[trigger] rule(i, j) && !#[trigger] rule(
                j,
                k,
            ) implies !rule(i, k) by {
            lemma_bytes_before_complement_transitive(
                encode_utf8(names[k]),
                encode_utf8(names[j]),
                encode_utf8(names[i]),
            );
        }
        assert(is_strict_weak(rule, n));
        lemma_stable_order_is_sorted(rule, n, n);
        assert forall|i: int, j: int| 0 <= i < j < sorted.len() implies text_before(
            sorted[i],
            sorted[j],
        ) by {
            let a = names[order[i]];
            let b = names[order[j]];
            assert(!rule(order[i], order[j]));
            assert(order[i] != order[j]);
            assert(a != b);
            lemma_bytes_before_total(encode_utf8(a), encode_utf8(b));
            if encode_utf8(a) == encode_utf8(b) {
                encode_utf8_decode_utf8(a);
                encode_utf8_decode_utf8(b);
            }
        }
    }
}

/// Puts names in byte order.
pub fn sort_names(names: &Vec<String>) -> (sorted: Vec<String>)
    ensures
        texts(sorted@) == sorted_names(texts(names@)),
{
    let ranking = NameRanking { names };
    let order = sort_positions(&ranking);
    let ghost given = texts(names@);
    let ghost wanted = sorted_names(given);
    proof {
        lemma_stable_order_is_permutation(name_rule(given), given.len());
    }
    let mut sorted: Vec<String> = Vec::new();
    let mut k: usize = 0;
    while k < order.len()
        invariant
            k <= order@.len(),
            order@.len() == names@.len(),
            given == texts(names@),
            wanted == sorted_names(given),
            wanted.len() == names@.len(),
            positions(order@) == stable_order(name_rule(given), given.len()),
            forall|p: int| 0 <= p < order@.len() ==> #[trigger] order@[p] < names@.len(),
            sorted@.len() == k,
            forall|p: int| 0 <= p < k ==> (#[trigger] sorted@[p])@ == wanted[p],
        decreases order@.len() - k,
    {
        let at = order[k];
        proof {
            assert(positions(order@)[k as int] == order@[k as int]);
            assert(wanted[k as int] == given[at as int]);
        }
        sorted.push(names[at].clone());
        k = k + 1;
    }
    assert(texts(sorted@) =~= wanted);
    sorted
}

/// The names of the entries of an archive in byte order; none where the
/// bytes are no archive that can be read.
pub fn get_filenames_inner_zip(archive: &[u8]) -> (names: Vec<String>)
    ensures
        names_ascend(texts(names@)),
        match archive_names_of(archive@) {
            Some(held) => texts(names@).to_set() == held,
            None => names@.len() == 0,
        },
{
    match archive_file_names(archive) {
        Some(list) => {
            proof {
                lemma_sorted_names(texts(list@));
            }
            sort_names(&list)
        },
        None => Vec::new(),
    }
}

/// The key of the `number`-th entry of an archive.
pub open spec fn entry_key(number: nat) -> Seq<char> {
    "file-"@ + decimal_text(number)
}

/// The nodes of an archive at `path` whose entries have the names `names`:
/// one file per name, numbered from one.
pub open spec fn archive_nodes(path: Seq<char>, names: Seq<Seq<char>>) -> Seq<FileTreeView> {
    Seq::new(
        names.len(),
        |i: int|
            FileTreeView::File(
                FileView {
                    key: entry_key((i + 1) as nat),
                    file_type: "Zip"@,
                    path,
                    name: names[i],
                },
            ),
    )
}

/// The name of each node.
pub open spec fn node_names(nodes: Seq<FileTreeView>) -> Seq<Seq<char>> {
    Seq::new(
        nodes.len(),
        |i: int|
            match nodes[i] {
                FileTreeView::File(f) => f.name,
                FileTreeView::Directory(d) => d.name,
            },
    )
}

/// Builds the tree of an archive from the names of its entries, in the
/// order given.
pub fn archive_tree(filepath: &str, names: &Vec<String>) -> (tree: Vec<FileTree>)
    ensures
        trees_view(tree@) == archive_nodes(filepath@, texts(names@)),
{
    let mut tree: Vec<FileTree> = Vec::new();
    let mut i: usize = 0;
    while i < names.len()
        invariant
            i <= names@.len(),
            tree@.len() == i,
            forall|k: int|
                0 <= k < i ==> tree_view(#[trigger] tree@[k]) == archive_nodes(
                    filepath@,
                    texts(names@),
                )[k],
        decreases names@.len() - i,
    {
        let mut key = "file-".to_owned();
        append_decimal(&mut key, i as u64 + 1);
        let node = FileTree::File(
            File {
                key,
                file_type: "Zip".to_owned(),
                path: filepath.to_owned(),
                name: names[i].clone(),
            },
        );
        tree.push(node);
        i = i + 1;
    }
    proof {
        lemma_trees_view(tree@);
        assert(trees_view(tree@) =~= archive_nodes(filepath@, texts(names@)));
    }
    tree
}

/// Builds the tree of the archive at `filepath` from its bytes: one file per
/// entry, in the byte order of the names. Bytes that are no archive give an
/// empty tree.
pub fn get_compressed_file_tree(filepath: &str, archive: &[u8]) -> (tree: Vec<FileTree>)
    ensures
        trees_view(tree@) == archive_nodes(filepath@, node_names(trees_view(tree@))),
        names_ascend(node_names(trees_view(tree@))),
        match archive_names_of(archive@) {
            Some(held) => node_names(trees_view(tree@)).to_set() == held,
            None => tree@.len() == 0,
        },
{
    let names = get_filenames_inner_zip(archive);
    let tree = archive_tree(filepath, &names);
    proof {
        lemma_trees_view(tree@);
        assert(node_names(trees_view(tree@)) =~= texts(names@));
    }
    tree
}

/// Builds the tree of a tab anew from what was read for it.
pub fn rebuild_file_tree(path: &str, source: &TreeSource) -> (tree: Vec<FileTree>)
    requires
        source matches TreeSource::Directory(entries) ==> keys_after(entries@, entries@.len(), 0)
            <= i32::MAX,
    ensures
        match *source {
            TreeSource::Directory(entries) => trees_view(tree@) == file_tree(entries@, 0),
            TreeSource::Archive(bytes) => trees_view(tree@) == archive_nodes(
                path@,
                node_names(trees_view(tree@)),
            ) && names_ascend(node_names(trees_view(tree@))) && match archive_names_of(bytes@) {
                Some(held) => node_names(trees_view(tree@)).to_set() == held,
                None => tree@.len() == 0,
            },
        },
{
    match source {
        TreeSource::Directory(entries) => {
            let mut key_count: i32 = 0;
            get_file_tree(entries, &mut key_count)
        },
        TreeSource::Archive(bytes) => get_compressed_file_tree(path, bytes.as_slice()),
    }
}

} // verus!
