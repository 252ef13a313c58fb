//! The file tree of the viewer and the walks through it.

use crate::text::same_text;
use vstd::prelude::*;
use vstd::string::*;

verus! {

/// A file of the tree.
#[derive(Debug)]
pub struct File {
    pub key: String,
    pub file_type: String,
    pub path: String,
    pub name: String,
}

/// A directory of the tree with what it holds.
#[derive(Debug)]
pub struct Directory {
    pub path: String,
    pub name: String,
    pub children: Vec<FileTree>,
}

/// A node of the tree.
#[derive(Debug)]
pub enum FileTree {
    Directory(Directory),
    File(File),
}

/// The mathematical value of a [`File`].
pub struct FileView {
    pub key: Seq<char>,
    pub file_type: Seq<char>,
    pub path: Seq<char>,
    pub name: Seq<char>,
}

/// The mathematical value of a [`Directory`].
pub struct DirectoryView {
    pub path: Seq<char>,
    pub name: Seq<char>,
    pub children: Seq<FileTreeView>,
}

/// The mathematical value of a [`FileTree`].
pub enum FileTreeView {
    Directory(DirectoryView),
    File(FileView),
}

impl View for File {
    type V = FileView;

    open spec fn view(&self) -> FileView {
        FileView { key: self.key@, file_type: self.file_type@, path: self.path@, name: self.name@ }
    }
}

/// The value of a node.
pub open spec fn tree_view(node: FileTree) -> FileTreeView
    decreases node, 0nat,
{
    match node {
        FileTree::File(f) => FileTreeView::File(f@),
        FileTree::Directory(d) => FileTreeView::Directory(
            DirectoryView {
                path: d.path@,
                name: d.name@,
                children: forest_view(d.children@, d.children@.len()),
            },
        ),
    }
}

/// The values of the first `n` nodes.
pub open spec fn forest_view(nodes: Seq<FileTree>, n: nat) -> Seq<FileTreeView>
    decreases nodes, n,
{
    if n == 0 || n > nodes.len() {
        Seq::empty()
    } else {
        forest_view(nodes, (n - 1) as nat).push(tree_view(nodes[n - 1]))
    }
}

/// The values of a sequence of nodes.
pub open spec fn trees_view(nodes: Seq<FileTree>) -> Seq<FileTreeView> {
    forest_view(nodes, nodes.len())
}

impl View for FileTree {
    type V = FileTreeView;

    open spec fn view(&self) -> FileTreeView {
        tree_view(*self)
    }
}

impl View for Directory {
    type V = DirectoryView;

    open spec fn view(&self) -> DirectoryView {
        DirectoryView { path: self.path@, name: self.name@, children: trees_view(self.children@) }
    }
}

/// The value of an optional file.
pub open spec fn file_view(file: Option<File>) -> Option<FileView> {
    match file {
        Some(f) => Some(f@),
        None => None,
    }
}

/// The values of the first `n` nodes are the values of each of them.
pub proof fn lemma_forest_view(nodes: Seq<FileTree>, n: nat)
    requires
        n <= nodes.len(),
    ensures
        forest_view(nodes, n).len() == n,
        forall|i: int| 0 <= i < n ==> #[trigger] forest_view(nodes, n)[i] == tree_view(nodes[i]),
    decreases n,
{
    if n > 0 {
        lemma_forest_view(nodes, (n - 1) as nat);
    }
}

/// The values of a sequence of nodes are the values of each of them.
pub proof fn lemma_trees_view(nodes: Seq<FileTree>)
    ensures
        trees_view(nodes).len() == nodes.len(),
        forall|i: int| 0 <= i < nodes.len() ==> #[trigger] trees_view(nodes)[i] == tree_view(nodes[i]),
{
    lemma_forest_view(nodes, nodes.len());
}

impl File {
    /// A copy of this file.
    pub fn duplicate(&self) -> (copy: Self)
        ensures
            copy@ == self@,
    {
        File {
            key: self.key.clone(),
            file_type: self.file_type.clone(),
            path: self.path.clone(),
            name: self.name.clone(),
        }
    }
}

impl FileTree {
    /// A copy of this node with all that is below it.
    pub fn duplicate(&self) -> (copy: Self)
        ensures
            copy@ == self@,
        decreases self,
    {
        match self {
            FileTree::File(f) => FileTree::File(f.duplicate()),
            FileTree::Directory(d) => {
                let children = duplicate_trees(&d.children);
                FileTree::Directory(
                    Directory { path: d.path.clone(), name: d.name.clone(), children },
                )
            },
        }
    }
}

/// A copy of a sequence of nodes.
pub fn duplicate_trees(nodes: &Vec<FileTree>) -> (copy: Vec<FileTree>)
    ensures
        trees_view(copy@) == trees_view(nodes@),
    decreases nodes,
{
    let mut copy: Vec<FileTree> = Vec::new();
    let mut i: usize = 0;
    while i < nodes.len()
        invariant
            i <= nodes@.len(),
            copy@.len() == i,
            forall|k: int| 0 <= k < i ==> tree_view(copy@[k]) == tree_view(nodes@[k]),
        decreases nodes@.len() - i,
    {
        let node = nodes[i].duplicate();
        copy.push(node);
        i = i + 1;
    }
    proof {
        lemma_trees_view(copy@);
        lemma_trees_view(nodes@);
        assert(trees_view(copy@) =~= trees_view(nodes@));
    }
    copy
}

/// The first file among the nodes from position `from` on; a directory is
/// searched in depth before what follows it.
pub open spec fn first_file(tree: Seq<FileTreeView>, from: nat) -> Option<FileView>
    decreases tree, tree.len() - from,
{
    if from >= tree.len() {
        None
    } else {
        match tree[from as int] {
            FileTreeView::File(f) => Some(f),
            FileTreeView::Directory(d) => match first_file(d.children, 0) {
                Some(f) => Some(f),
                None => first_file(tree, from + 1),
            },
        }
    }
}

/// The first file with the key `key` among the nodes from position `from`
/// on; a directory is searched in depth before what follows it.
pub open spec fn file_by_key(tree: Seq<FileTreeView>, key: Seq<char>, from: nat) -> Option<FileView>
    decreases tree, tree.len() - from,
{
    if from >= tree.len() {
        None
    } else {
        match tree[from as int] {
            FileTreeView::File(f) => if f.key == key {
                Some(f)
            } else {
                file_by_key(tree, key, from + 1)
            },
            FileTreeView::Directory(d) => match file_by_key(d.children, key, 0) {
                Some(f) => Some(f),
                None => file_by_key(tree, key, from + 1),
            },
        }
    }
}

/// The file that a path opens among the nodes from position `from` on: a
/// file of this level whose path is `path`, or a file below a directory of
/// this level whose key is `path`.
pub open spec fn file_by_path(tree: Seq<FileTreeView>, path: Seq<char>, from: nat) -> Option<
    FileView,
>
    decreases tree.len() - from,
{
    if from >= tree.len() {
        None
    } else {
        match tree[from as int] {
            FileTreeView::File(f) => if f.path == path {
                Some(f)
            } else {
                file_by_path(tree, path, from + 1)
            },
            FileTreeView::Directory(d) => match file_by_key(d.children, path, 0) {
                Some(f) => Some(f),
                None => file_by_path(tree, path, from + 1),
            },
        }
    }
}

/// The files among the nodes of one level, in order.
pub open spec fn level_files(tree: Seq<FileTreeView>) -> Seq<FileView>
    decreases tree.len(),
{
    if tree.len() == 0 {
        Seq::empty()
    } else {
        match tree.last() {
            FileTreeView::File(f) => level_files(tree.drop_last()).push(f),
            FileTreeView::Directory(_) => level_files(tree.drop_last()),
        }
    }
}

/// The position of the first of `files` with the key `key`.
pub open spec fn key_position(files: Seq<FileView>, key: Seq<char>) -> Option<int>
    decreases files.len(),
{
    if files.len() == 0 {
        None
    } else {
        match key_position(files.drop_last(), key) {
            Some(i) => Some(i),
            None => if files.last().key == key {
                Some(files.len() - 1)
            } else {
                None
            },
        }
    }
}

/// The position next to `i` among `len` positions, around the end.
pub open spec fn neighbour(i: int, len: int, forward: bool) -> int {
    if forward {
        (i + 1) % len
    } else {
        (i + len - 1) % len
    }
}

/// The file next to the one with the key `viewing`: its neighbour among the
/// files of its own level, around the end. The level that holds the key
/// is looked for from the top, each level before the directories below it.
pub open spec fn step_in(tree: Seq<FileTreeView>, viewing: Seq<char>, forward: bool) -> Option<
    FileView,
>
    decreases tree, tree.len() + 1,
{
    match key_position(level_files(tree), viewing) {
        Some(i) => Some(level_files(tree)[neighbour(i, level_files(tree).len() as int, forward)]),
        None => step_below(tree, viewing, forward, 0),
    }
}

/// [`step_in`] for the directories among the nodes from position `from` on.
pub open spec fn step_below(
    tree: Seq<FileTreeView>,
    viewing: Seq<char>,
    forward: bool,
    from: nat,
) -> Option<FileView>
    decreases tree, tree.len() - from,
{
    if from >= tree.len() {
        None
    } else {
        match tree[from as int] {
            FileTreeView::File(_) => step_below(tree, viewing, forward, from + 1),
            FileTreeView::Directory(d) => match step_in(d.children, viewing, forward) {
                Some(f) => Some(f),
                None => step_below(tree, viewing, forward, from + 1),
            },
        }
    }
}

/// The first file of the tree in depth-first order.
pub fn find_first_file(tree: &Vec<FileTree>) -> (found: Option<File>)
    ensures
        file_view(found) == first_file(trees_view(tree@), 0),
    decreases tree,
{
    let ghost nodes = trees_view(tree@);
    proof {
        lemma_trees_view(tree@);
    }
    let mut i: usize = 0;
    while i < tree.len()
        invariant
            i <= tree@.len(),
            nodes == trees_view(tree@),
            nodes.len() == tree@.len(),
            forall|k: int| 0 <= k < tree@.len() ==> #[trigger] nodes[k] == tree_view(tree@[k]),
            first_file(nodes, 0) == first_file(nodes, i as nat),
        decreases tree@.len() - i,
    {
        assert(nodes[i as int] == tree_view(tree@[i as int]));
        match &tree[i] {
            FileTree::Directory(d) => {
                if let Some(f) = find_first_file(&d.children) {
                    return Some(f);
                }
            },
            FileTree::File(f) => {
                return Some(f.duplicate());
            },
        }
        i = i + 1;
    }
    None
}

/// The first file of the tree with the key `key`, in depth-first order.
pub fn find_key_in_tree(tree: &Vec<FileTree>, key: &String) -> (found: Option<File>)
    ensures
        file_view(found) == file_by_key(trees_view(tree@), key@, 0),
    decreases tree,
{
    let ghost nodes = trees_view(tree@);
    proof {
        lemma_trees_view(tree@);
    }
    let mut i: usize = 0;
    while i < tree.len()
        invariant
            i <= tree@.len(),
            nodes == trees_view(tree@),
            nodes.len() == tree@.len(),
            forall|k: int| 0 <= k < tree@.len() ==> #[trigger] nodes[k] == tree_view(tree@[k]),
            file_by_key(nodes, key@, 0) == file_by_key(nodes, key@, i as nat),
        decreases tree@.len() - i,
    {
        assert(nodes[i as int] == tree_view(tree@[i as int]));
        match &tree[i] {
            FileTree::File(f) => {
                if same_text(f.key.as_str(), key.as_str()) {
                    return Some(f.duplicate());
                }
            },
            FileTree::Directory(d) => {
                let found = find_key_in_tree(&d.children, key);
                if found.is_some() {
                    return found;
                }
            },
        }
        i = i + 1;
    }
    None
}

/// The file that `path` opens: a file of the top level with that path, or a
/// file below a directory of the top level with that key.
pub fn find_path_in_tree(tree: &Vec<FileTree>, path: &String) -> (found: Option<File>)
    ensures
        file_view(found) == file_by_path(trees_view(tree@), path@, 0),
{
    let ghost nodes = trees_view(tree@);
    proof {
        lemma_trees_view(tree@);
    }
    let mut i: usize = 0;
    while i < tree.len()
        invariant
            i <= tree@.len(),
            nodes == trees_view(tree@),
            nodes.len() == tree@.len(),
            forall|k: int| 0 <= k < tree@.len() ==> #[trigger] nodes[k] == tree_view(tree@[k]),
            file_by_path(nodes, path@, 0) == file_by_path(nodes, path@, i as nat),
        decreases tree@.len() - i,
    {
        assert(nodes[i as int] == tree_view(tree@[i as int]));
        match &tree[i] {
            FileTree::File(f) => {
                if same_text(f.path.as_str(), path.as_str()) {
                    return Some(f.duplicate());
                }
            },
            FileTree::Directory(d) => {
                let found = find_key_in_tree(&d.children, path);
                if found.is_some() {
                    return found;
                }
            },
        }
        i = i + 1;
    }
    None
}

/// The values of a sequence of files.
pub open spec fn file_views(files: Seq<File>) -> Seq<FileView> {
    files.map_values(|f: File| f@)
}

/// The neighbour of the file with the key `viewing` in its own level.
fn step_in_tree(viewing: &String, tree: &Vec<FileTree>, forward: bool) -> (found: Option<File>)
    ensures
        file_view(found) == step_in(trees_view(tree@), viewing@, forward),
    decreases tree,
{
    let ghost nodes = trees_view(tree@);
    proof {
        lemma_trees_view(tree@);
    }
    let mut files: Vec<File> = Vec::new();
    let mut i: usize = 0;
    assert(nodes.take(0) =~= Seq::empty());
    while i < tree.len()
        invariant
            i <= tree@.len(),
            nodes == trees_view(tree@),
            nodes.len() == tree@.len(),
            forall|k: int| 0 <= k < tree@.len() ==> #[trigger] nodes[k] == tree_view(tree@[k]),
            file_views(files@) =~= level_files(nodes.take(i as int)),
        decreases tree@.len() - i,
    {
        proof {
            let next = nodes.take(i + 1);
            assert(next.drop_last() =~= nodes.take(i as int));
            assert(next.last() == nodes[i as int]);
            assert(nodes[i as int] == tree_view(tree@[i as int]));
        }
        match &tree[i] {
            FileTree::File(f) => {
                let ghost before = file_views(files@);
                let copy = f.duplicate();
                files.push(copy);
                assert(file_views(files@) =~= before.push(f@));
            },
            FileTree::Directory(_) => {},
        }
        i = i + 1;
    }
    assert(nodes.take(i as int) =~= nodes);
    let ghost level = level_files(nodes);
    let length = files.len();
    let mut j: usize = 0;
    assert(level.take(0) =~= Seq::empty());
    while j < length
        invariant
            j <= length,
            length == files@.len(),
            level == file_views(files@),
            level == level_files(nodes),
            nodes == trees_view(tree@),
            key_position(level.take(j as int), viewing@).is_none(),
        decreases length - j,
    {
        proof {
            let next = level.take(j + 1);
            assert(next.drop_last() =~= level.take(j as int));
            assert(next.last() == files@[j as int]@);
        }
        if same_text(files[j].key.as_str(), viewing.as_str()) {
            proof {
                let next = level.take(j + 1);
                assert(next.drop_last() =~= level.take(j as int));
                assert(next.last().key == viewing@);
                assert(key_position(next, viewing@) == Some(j as int));
                lemma_key_position_prefix(level, viewing@, (j + 1) as nat);
                assert(key_position(level, viewing@) == Some(j as int));
            }
            let at: usize = if forward {
                if j + 1 == length {
                    0
                } else {
                    j + 1
                }
            } else {
                if j == 0 {
                    length - 1
                } else {
                    j - 1
                }
            };
            assert(at == neighbour(j as int, length as int, forward)) by {
                lemma_neighbour(j as int, length as int);
            }
            return Some(files[at].duplicate());
        }
        j = j + 1;
    }
    assert(level.take(j as int) =~= level);
    let mut k: usize = 0;
    while k < tree.len()
        invariant
            k <= tree@.len(),
            nodes == trees_view(tree@),
            nodes.len() == tree@.len(),
            forall|n: int| 0 <= n < tree@.len() ==> #[trigger] nodes[n] == tree_view(tree@[n]),
            key_position(level_files(nodes), viewing@).is_none(),
            step_in(nodes, viewing@, forward) == step_below(nodes, viewing@, forward, k as nat),
        decreases tree@.len() - k,
    {
        assert(nodes[k as int] == tree_view(tree@[k as int]));
        match &tree[k] {
            FileTree::Directory(d) => {
                let found = step_in_tree(viewing, &d.children, forward);
                if found.is_some() {
                    return found;
                }
            },
            FileTree::File(_) => {},
        }
        k = k + 1;
    }
    None
}

/// A key found in a prefix of the files is found at the same place in all
/// of them.
pub proof fn lemma_key_position_prefix(files: Seq<FileView>, key: Seq<char>, n: nat)
    requires
        n <= files.len(),
        key_position(files.take(n as int), key).is_some(),
    ensures
        key_position(files, key) == key_position(files.take(n as int), key),
    decreases files.len() - n,
{
    if n < files.len() {
        let longer = files.take(n as int + 1);
        assert(longer.drop_last() =~= files.take(n as int));
        lemma_key_position_prefix(files, key, n + 1);
    } else {
        assert(files.take(n as int) =~= files);
    }
}

/// Whether no two of the files have the same key.
pub open spec fn keys_differ(files: Seq<FileView>) -> bool {
    forall|i: int, j: int|
        0 <= i < j < files.len() ==> (#[trigger] files[i]).key != (#[trigger] files[j]).key
}

/// Among files with different keys, the key of a file is found at the place
/// of that file.
pub proof fn lemma_key_position_of(files: Seq<FileView>, at: int)
    requires
        keys_differ(files),
        0 <= at < files.len(),
    ensures
        key_position(files, files[at].key) == Some(at),
    decreases files.len(),
{
    let shorter = files.drop_last();
    let key = files[at].key;
    if at < files.len() - 1 {
        assert forall|i: int, j: int| 0 <= i < j < shorter.len() implies (#[trigger] shorter[i]).key
            != (#[trigger] shorter[j]).key by {
            assert(shorter[i] == files[i] && shorter[j] == files[j]);
        }
        assert(shorter[at] == files[at]);
        lemma_key_position_of(shorter, at);
    } else {
        lemma_key_position_absent(shorter, key);
        assert forall|i: int| 0 <= i < shorter.len() implies (#[trigger] shorter[i]).key != key by {
            assert(shorter[i] == files[i]);
            assert(files[i].key != files[at].key);
        }
    }
}

/// A key is found among files exactly when one of them has it.
pub proof fn lemma_key_position_absent(files: Seq<FileView>, key: Seq<char>)
    ensures
        key_position(files, key).is_none() <==> forall|i: int|
            0 <= i < files.len() ==> (#[trigger] files[i]).key != key,
        key_position(files, key) matches Some(i) ==> 0 <= i < files.len() && files[i].key == key,
    decreases files.len(),
{
    if files.len() > 0 {
        let shorter = files.drop_last();
        lemma_key_position_absent(shorter, key);
        assert(forall|i: int| 0 <= i < shorter.len() ==> shorter[i] == files[i]);
        if key_position(shorter, key).is_none() && files.last().key != key {
            assert forall|i: int| 0 <= i < files.len() implies (#[trigger] files[i]).key != key by {
                if i < shorter.len() {
                    assert(shorter[i].key != key);
                }
            }
        } else if key_position(shorter, key).is_none() {
            assert(files[files.len() - 1].key == key);
        } else {
            let i = key_position(shorter, key).unwrap();
            assert(files[i].key == key);
        }
    }
}

/// A step back undoes a step forward, and a step forward a step back: in a
/// tree whose top level holds the viewed key and has files with different
/// keys, the step leads to a file of that level, and the opposite step from
/// that file leads back to the file with the viewed key.
pub proof fn lemma_step_back_returns(tree: Seq<FileTreeView>, viewing: Seq<char>, forward: bool)
    requires
        keys_differ(level_files(tree)),
        key_position(level_files(tree), viewing).is_some(),
    ensures
        step_in(tree, viewing, forward) matches Some(there) && step_in(tree, there.key, !forward)
            matches Some(back) && back.key == viewing && back == level_files(tree)[key_position(
            level_files(tree),
            viewing,
        ).unwrap()],
{
    let level = level_files(tree);
    let len = level.len() as int;
    let at = key_position(level, viewing).unwrap();
    lemma_key_position_absent(level, viewing);
    lemma_neighbour(at, len);
    let to = neighbour(at, len, forward);
    lemma_key_position_of(level, to);
    lemma_neighbour(to, len);
    assert(neighbour(to, len, !forward) == at);
}

/// Whether a node holds a file with the key `key`: it is that file, or a
/// directory with such a file below it.
pub open spec fn node_holds(node: FileTreeView, key: Seq<char>) -> bool {
    match node {
        FileTreeView::File(f) => f.key == key,
        FileTreeView::Directory(d) => file_by_key(d.children, key, 0).is_some(),
    }
}

/// Whether no key occurs twice in a tree: no two nodes of a level hold the
/// same key, and so it is in every directory.
pub open spec fn tree_keys_differ(tree: Seq<FileTreeView>) -> bool
    decreases tree,
{
    &&& forall|p: int, q: int, key: Seq<char>|
        0 <= p < q < tree.len() && #[trigger] node_holds(tree[p], key) ==> !#[trigger] node_holds(
            tree[q],
            key,
        )
    &&& forall|p: int|
        0 <= p < tree.len() ==> (#[trigger] tree[p] matches FileTreeView::Directory(d)
            ==> tree_keys_differ(d.children))
}

/// A file with a key is found exactly where a node holds the key, and the
/// file that is found has the key.
pub proof fn lemma_file_by_key_holds(tree: Seq<FileTreeView>, key: Seq<char>, from: nat)
    ensures
        file_by_key(tree, key, from).is_some() <==> exists|p: int|
            from <= p < tree.len() && node_holds(#[trigger] tree[p], key),
        file_by_key(tree, key, from) matches Some(f) ==> f.key == key,
    decreases tree, tree.len() - from,
{
    if from < tree.len() {
        lemma_file_by_key_holds(tree, key, from + 1);
        match tree[from as int] {
            FileTreeView::File(_) => {},
            FileTreeView::Directory(d) => {
                lemma_file_by_key_holds(d.children, key, 0);
            },
        }
        if file_by_key(tree, key, from).is_some() {
            if node_holds(tree[from as int], key) {
            } else {
                let p = choose|p: int|
                    from + 1 <= p < tree.len() && node_holds(#[trigger] tree[p], key);
                assert(from <= p < tree.len() && node_holds(tree[p], key));
            }
        }
        if exists|p: int| from <= p < tree.len() && node_holds(#[trigger] tree[p], key) {
            let p = choose|p: int| from <= p < tree.len() && node_holds(#[trigger] tree[p], key);
            if p > from {
                assert(from + 1 <= p < tree.len() && node_holds(tree[p], key));
            }
        }
    }
}

/// The place in the level of the `j`-th of its files.
pub open spec fn level_place(tree: Seq<FileTreeView>, j: int) -> int
    decreases tree.len(),
{
    if tree.len() == 0 {
        0
    } else {
        match tree.last() {
            FileTreeView::File(_) => if j == level_files(tree.drop_last()).len() {
                tree.len() - 1
            } else {
                level_place(tree.drop_last(), j)
            },
            FileTreeView::Directory(_) => level_place(tree.drop_last(), j),
        }
    }
}

/// The files of a level are the file nodes of the level, in their order.
pub proof fn lemma_level_files(tree: Seq<FileTreeView>)
    ensures
        forall|j: int|
            0 <= j < level_files(tree).len() ==> 0 <= #[trigger] level_place(tree, j) < tree.len()
                && tree[level_place(tree, j)] == FileTreeView::File(level_files(tree)[j]),
        forall|i: int, j: int|
            0 <= i < j < level_files(tree).len() ==> #[trigger] level_place(tree, i)
                < #[trigger] level_place(tree, j),
        forall|p: int|
            0 <= p < tree.len() ==> (#[trigger] tree[p] matches FileTreeView::File(f) ==> exists|
                j: int,
            |
                0 <= j < level_files(tree).len() && #[trigger] level_files(tree)[j] == f),
    decreases tree.len(),
{
    if tree.len() > 0 {
        let shorter = tree.drop_last();
        let level = level_files(tree);
        let before = level_files(shorter);
        lemma_level_files(shorter);
        assert(forall|p: int| 0 <= p < shorter.len() ==> shorter[p] == tree[p]);
        assert forall|j: int| 0 <= j < level.len() implies 0 <= #[trigger] level_place(tree, j)
            < tree.len() && tree[level_place(tree, j)] == FileTreeView::File(level[j]) by {
            if j < before.len() {
                assert(level[j] == before[j]);
                assert(level_place(tree, j) == level_place(shorter, j));
            }
        }
        assert forall|i: int, j: int| 0 <= i < j < level.len() implies #[trigger] level_place(
            tree,
            i,
        ) < #[trigger] level_place(tree, j) by {
            assert(level_place(tree, i) == level_place(shorter, i));
            if j < before.len() {
                assert(level_place(tree, j) == level_place(shorter, j));
            }
        }
        assert forall|p: int| 0 <= p < tree.len() implies (#[trigger] tree[p] matches FileTreeView::File(
            f,
        ) ==> exists|j: int| 0 <= j < level.len() && #[trigger] level[j] == f) by {
            if let FileTreeView::File(f) = tree[p] {
                if p < shorter.len() {
                    assert(shorter[p] == tree[p]);
                    let j = choose|j: int| 0 <= j < before.len() && #[trigger] before[j] == f;
                    assert(level[j] == f);
                } else {
                    assert(level[level.len() - 1] == f);
                }
            }
        }
    }
}

/// Where a step below the nodes from `from` on leads somewhere, it is the
/// step in the first of the directories in which a step leads somewhere.
pub proof fn lemma_step_below_found(
    tree: Seq<FileTreeView>,
    viewing: Seq<char>,
    forward: bool,
    from: nat,
) -> (at: int)
    requires
        step_below(tree, viewing, forward, from).is_some(),
    ensures
        from <= at < tree.len(),
        tree[at] matches FileTreeView::Directory(d) && step_in(d.children, viewing, forward)
            == step_below(tree, viewing, forward, from),
        forall|q: int|
            from <= q < at ==> (#[trigger] tree[q] matches FileTreeView::Directory(d) ==> step_in(
                d.children,
                viewing,
                forward,
            ).is_none()),
    decreases tree.len() - from,
{
    match tree[from as int] {
        FileTreeView::File(_) => lemma_step_below_found(tree, viewing, forward, from + 1),
        FileTreeView::Directory(d) => {
            if step_in(d.children, viewing, forward).is_some() {
                from as int
            } else {
                lemma_step_below_found(tree, viewing, forward, from + 1)
            }
        },
    }
}

/// The step below the nodes from `from` on is the step in the directory at
/// `at` where no directory before it has a step that leads somewhere.
pub proof fn lemma_step_below_is(
    tree: Seq<FileTreeView>,
    viewing: Seq<char>,
    forward: bool,
    from: nat,
    at: int,
)
    requires
        from <= at < tree.len(),
        tree[at] matches FileTreeView::Directory(d) && step_in(d.children, viewing, forward).is_some(),
        forall|q: int|
            from <= q < at ==> (#[trigger] tree[q] matches FileTreeView::Directory(d) ==> step_in(
                d.children,
                viewing,
                forward,
            ).is_none()),
    ensures
        tree[at] matches FileTreeView::Directory(d) && step_below(tree, viewing, forward, from)
            == step_in(d.children, viewing, forward),
    decreases at - from,
{
    if from < at {
        assert(tree[from as int] matches FileTreeView::Directory(d) ==> step_in(
            d.children,
            viewing,
            forward,
        ).is_none());
        lemma_step_below_is(tree, viewing, forward, from + 1, at);
    }
}

/// A step leads from a key that the tree holds to a key that it holds.
pub proof fn lemma_step_in_holds(tree: Seq<FileTreeView>, viewing: Seq<char>, forward: bool)
    requires
        step_in(tree, viewing, forward).is_some(),
    ensures
        file_by_key(tree, viewing, 0).is_some(),
        file_by_key(tree, step_in(tree, viewing, forward).unwrap().key, 0).is_some(),
    decreases tree,
{
    let level = level_files(tree);
    let there = step_in(tree, viewing, forward).unwrap();
    lemma_level_files(tree);
    lemma_file_by_key_holds(tree, viewing, 0);
    lemma_file_by_key_holds(tree, there.key, 0);
    match key_position(level, viewing) {
        Some(i) => {
            lemma_key_position_absent(level, viewing);
            lemma_neighbour(i, level.len() as int);
            let to = neighbour(i, level.len() as int, forward);
            assert(node_holds(tree[level_place(tree, i)], viewing));
            assert(node_holds(tree[level_place(tree, to)], there.key));
        },
        None => {
            let at = lemma_step_below_found(tree, viewing, forward, 0);
            if let FileTreeView::Directory(d) = tree[at] {
                lemma_step_in_holds(d.children, viewing, forward);
                assert(node_holds(tree[at], viewing));
                assert(node_holds(tree[at], there.key));
            }
        },
    }
}

/// In a tree in which no key occurs twice, a step back undoes a step
/// forward and a step forward a step back: from the file that a step leads
/// to, the opposite step leads to the file with the viewed key.
pub proof fn lemma_step_back_in_tree(tree: Seq<FileTreeView>, viewing: Seq<char>, forward: bool)
    requires
        tree_keys_differ(tree),
        step_in(tree, viewing, forward).is_some(),
    ensures
        step_in(tree, step_in(tree, viewing, forward).unwrap().key, !forward) matches Some(back)
            && back.key == viewing,
    decreases tree,
{
    let level = level_files(tree);
    let there = step_in(tree, viewing, forward).unwrap();
    lemma_level_files(tree);
    assert forall|i: int, j: int| 0 <= i < j < level.len() implies (#[trigger] level[i]).key != (
    #[trigger] level[j]).key by {
        let p = level_place(tree, i);
        let q = level_place(tree, j);
        assert(node_holds(tree[p], level[i].key));
        assert(!node_holds(tree[q], level[i].key));
    }
    if key_position(level, viewing).is_some() {
        lemma_step_back_returns(tree, viewing, forward);
    } else {
        let at = lemma_step_below_found(tree, viewing, forward, 0);
        if let FileTreeView::Directory(d) = tree[at] {
            lemma_step_in_holds(d.children, viewing, forward);
            assert(node_holds(tree[at], there.key));
            // no file of this level has the key that the step led to
            lemma_key_position_absent(level, there.key);
            if key_position(level, there.key).is_some() {
                let i = key_position(level, there.key).unwrap();
                let p = level_place(tree, i);
                assert(node_holds(tree[p], there.key));
                if p < at {
                    assert(!node_holds(tree[at], there.key));
                } else {
                    assert(!node_holds(tree[p], there.key));
                }
            }
            // nor has a directory before this one
            assert forall|q: int| 0 <= q < at implies (#[trigger] tree[q] matches FileTreeView::Directory(
                e,
            ) ==> step_in(e.children, there.key, !forward).is_none()) by {
                if let FileTreeView::Directory(e) = tree[q] {
                    if step_in(e.children, there.key, !forward).is_some() {
                        lemma_step_in_holds(e.children, there.key, !forward);
                        assert(node_holds(tree[q], there.key));
                        assert(!node_holds(tree[at], there.key));
                    }
                }
            }
            lemma_step_back_in_tree(d.children, viewing, forward);
            lemma_step_below_is(tree, there.key, !forward, 0, at);
        }
    }
}

/// The neighbour of a position, without division.
pub proof fn lemma_neighbour(i: int, len: int)
    requires
        0 <= i < len,
    ensures
        neighbour(i, len, true) == if i + 1 == len {
            0
        } else {
            i + 1
        },
        neighbour(i, len, false) == if i == 0 {
            len - 1
        } else {
            i - 1
        },
{
    if i + 1 == len {
        assert((i + 1) % len == 0) by (nonlinear_arith)
            requires
                i + 1 == len,
                len > 0,
        ;
    } else {
        assert((i + 1) % len == i + 1) by (nonlinear_arith)
            requires
                0 <= i + 1 < len,
        ;
    }
    if i == 0 {
        assert((i + len - 1) % len == len - 1) by (nonlinear_arith)
            requires
                i == 0,
                len > 0,
        ;
    } else {
        assert((i + len - 1) % len == i - 1) by (nonlinear_arith)
            requires
                0 < i < len,
        ;
    }
}

/// The file after the one with the key `viewing` among the files of its
/// level; after the last comes the first.
pub fn get_next_in_tree(viewing: &String, tree: &Vec<FileTree>) -> (found: Option<File>)
    ensures
        file_view(found) == step_in(trees_view(tree@), viewing@, true),
{
    step_in_tree(viewing, tree, true)
}

/// The file before the one with the key `viewing` among the files of its
/// level; before the first comes the last.
pub fn get_prev_in_tree(viewing: &String, tree: &Vec<FileTree>) -> (found: Option<File>)
    ensures
        file_view(found) == step_in(trees_view(tree@), viewing@, false),
{
    step_in_tree(viewing, tree, false)
}

} // verus!
