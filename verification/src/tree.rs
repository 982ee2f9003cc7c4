//! A directory tree as a mathematical value, and what a walk over it finds.
//!
//! The walker of [`crate::walk`] never sees a tree: it sees listings. This module says
//! what it means to answer every request of the walker from one tree, and proves that
//! such a walk ends with exactly the files of the tree, in the order of a depth-first
//! descent, unless the tree holds a directory that cannot be read: then the walk fails.
use crate::walk::{DirEntry, EntryKind, Listing, WalkState, WalkStep};
use vstd::prelude::*;

verus! {

/// A directory tree: a regular file, a directory with the trees below it, in the order
/// in which the file system lists them, a directory that cannot be read, or a node
/// that is neither file nor directory.
pub enum Tree<P> {
    File { path: P },
    Dir { path: P, children: Seq<Tree<P>> },
    Locked { path: P },
    Other { path: P },
}

impl<P> Tree<P> {
    /// The path of the root of the tree.
    pub open spec fn path(self) -> P {
        match self {
            Tree::File { path } => path,
            Tree::Dir { path, .. } => path,
            Tree::Locked { path } => path,
            Tree::Other { path } => path,
        }
    }

    /// What the file system reports the root of the tree to be.
    pub open spec fn kind(self) -> EntryKind {
        match self {
            Tree::File { .. } => EntryKind::File,
            Tree::Dir { .. } => EntryKind::Directory,
            Tree::Locked { .. } => EntryKind::Directory,
            Tree::Other { .. } => EntryKind::Other,
        }
    }

    /// What listing the root of the tree gives.
    pub open spec fn answer(self) -> Listing<P> {
        match self {
            Tree::File { .. } => Listing::RegularFile,
            Tree::Dir { children, .. } => Listing::Entries(entries_of(children)),
            Tree::Locked { .. } => Listing::Unreadable,
            Tree::Other { .. } => Listing::NotADirectory,
        }
    }

    /// Whether `entry` stands for the tree: it has the path of its root, and either
    /// the kind of its root or that of a path still to be listed.
    pub open spec fn is_shown_by(self, entry: DirEntry<P>) -> bool {
        entry.path == self.path() && (entry.kind == self.kind() || entry.kind is Directory)
    }

    /// The entry under which the listing of the parent directory shows the tree.
    pub open spec fn entry(self) -> DirEntry<P> {
        DirEntry { path: self.path(), kind: self.kind() }
    }

    /// The files of the tree, in the order of a depth-first descent that takes the
    /// entries of each directory in their order.
    pub open spec fn files(self) -> Seq<P>
        decreases self,
    {
        match self {
            Tree::File { path } => seq![path],
            Tree::Dir { children, .. } => forest_files(children),
            Tree::Locked { .. } => Seq::empty(),
            Tree::Other { .. } => Seq::empty(),
        }
    }

    /// The paths of all nodes of the tree, directories and files alike, in the order
    /// of a depth-first descent.
    pub open spec fn paths(self) -> Seq<P>
        decreases self,
    {
        match self {
            Tree::File { path } => seq![path],
            Tree::Dir { path, children } => seq![path] + forest_paths(children),
            Tree::Locked { path } => seq![path],
            Tree::Other { path } => seq![path],
        }
    }

    /// Whether a recursive descent into the tree reaches a regular file at `path`.
    pub open spec fn has_file(self, path: P) -> bool
        decreases self,
    {
        match self {
            Tree::File { path: own } => own == path,
            Tree::Dir { children, .. } => exists|i: int|
                0 <= i < children.len() && (#[trigger] children[i]).has_file(path),
            Tree::Locked { .. } => false,
            Tree::Other { .. } => false,
        }
    }

    /// Whether a recursive descent into the tree reaches a directory at `path`, the
    /// root included.
    pub open spec fn has_dir(self, path: P) -> bool
        decreases self,
    {
        match self {
            Tree::File { .. } => false,
            Tree::Dir { path: own, children } => own == path || exists|i: int|
                0 <= i < children.len() && (#[trigger] children[i]).has_dir(path),
            Tree::Locked { path: own } => own == path,
            Tree::Other { .. } => false,
        }
    }

    /// Whether every directory of the tree can be read.
    pub open spec fn is_readable(self) -> bool
        decreases self,
    {
        match self {
            Tree::File { .. } => true,
            Tree::Dir { children, .. } => forall|i: int|
                0 <= i < children.len() ==> (#[trigger] children[i]).is_readable(),
            Tree::Locked { .. } => false,
            Tree::Other { .. } => true,
        }
    }

    /// Whether every node of the tree has a path of its own, as the nodes of a
    /// directory tree on disk have.
    pub open spec fn has_distinct_paths(self) -> bool {
        self.paths().no_duplicates()
    }
}

/// The files of the trees of a forest, tree by tree.
pub open spec fn forest_files<P>(forest: Seq<Tree<P>>) -> Seq<P>
    decreases forest,
{
    if forest.len() == 0 {
        Seq::empty()
    } else {
        forest[0].files() + forest_files(forest.drop_first())
    }
}

/// The paths of all nodes of the trees of a forest, tree by tree.
pub open spec fn forest_paths<P>(forest: Seq<Tree<P>>) -> Seq<P>
    decreases forest,
{
    if forest.len() == 0 {
        Seq::empty()
    } else {
        forest[0].paths() + forest_paths(forest.drop_first())
    }
}

/// The listing of a directory that holds the trees of `forest`.
pub open spec fn entries_of<P>(forest: Seq<Tree<P>>) -> Seq<DirEntry<P>> {
    forest.map_values(|tree: Tree<P>| tree.entry())
}

/// The state of a walk after it has gone through `tree`, the tree of the entry that
/// comes next. Where the walk waits for a listing, it gets that of the tree. A regular
/// file is collected and a node that is neither file nor directory is dropped, in one
/// step; the walk goes through the trees below a directory; a directory that cannot
/// be read fails the walk.
pub open spec fn walk_tree<P>(state: WalkState<P>, tree: Tree<P>) -> WalkState<P>
    decreases tree,
{
    match tree {
        Tree::File { .. } => state.deliver(Listing::RegularFile).step(),
        Tree::Dir { children, .. } => walk_forest(state.deliver(tree.answer()), children),
        Tree::Locked { .. } => state.deliver(Listing::Unreadable),
        Tree::Other { .. } => if state.next_step() is ListDirectory {
            state.deliver(Listing::NotADirectory)
        } else {
            state.step()
        },
    }
}

/// The state of a walk after it has gone through the trees of `forest`, one after the
/// other.
pub open spec fn walk_forest<P>(state: WalkState<P>, forest: Seq<Tree<P>>) -> WalkState<P>
    decreases forest,
{
    if forest.len() == 0 {
        state
    } else {
        walk_forest(walk_tree(state, forest[0]), forest.drop_first())
    }
}

/// The state in which the walk from the root of `tree` ends, every listing being that
/// of the tree.
pub open spec fn walk<P>(tree: Tree<P>) -> WalkState<P> {
    walk_tree(WalkState::start(tree.path()), tree)
}

/// Whether a recursive descent into one of the trees of `forest` reaches a regular file
/// at `path`.
pub open spec fn forest_has_file<P>(forest: Seq<Tree<P>>, path: P) -> bool {
    exists|i: int| 0 <= i < forest.len() && (#[trigger] forest[i]).has_file(path)
}

/// Whether a recursive descent into one of the trees of `forest` reaches a directory
/// at `path`.
pub open spec fn forest_has_dir<P>(forest: Seq<Tree<P>>, path: P) -> bool {
    exists|i: int| 0 <= i < forest.len() && (#[trigger] forest[i]).has_dir(path)
}

/// Whether every directory of every tree of `forest` can be read.
pub open spec fn forest_is_readable<P>(forest: Seq<Tree<P>>) -> bool {
    forall|i: int| 0 <= i < forest.len() ==> (#[trigger] forest[i]).is_readable()
}

/// A value is in the concatenation of two sequences exactly where it is in one of them.
proof fn lemma_concat_contains<A>(a: Seq<A>, b: Seq<A>, x: A)
    ensures
        (a + b).contains(x) <==> a.contains(x) || b.contains(x),
{
    if a.contains(x) {
        let i = choose|i: int| 0 <= i < a.len() && a[i] == x;
        assert((a + b)[i] == x);
    }
    if b.contains(x) {
        let i = choose|i: int| 0 <= i < b.len() && b[i] == x;
        assert((a + b)[a.len() + i] == x);
    }
    if (a + b).contains(x) {
        let i = choose|i: int| 0 <= i < (a + b).len() && (a + b)[i] == x;
        if i < a.len() {
            assert(a[i] == x);
        } else {
            assert(b[i - a.len()] == x);
        }
    }
}

/// A concatenation holds nothing twice exactly where neither part does and the parts
/// share nothing.
proof fn lemma_concat_distinct<A>(a: Seq<A>, b: Seq<A>)
    ensures
        (a + b).no_duplicates() <==> {
            &&& a.no_duplicates()
            &&& b.no_duplicates()
            &&& forall|x: A| !(a.contains(x) && b.contains(x))
        },
{
    let whole = a + b;
    if whole.no_duplicates() {
        assert forall|i: int, j: int| 0 <= i < a.len() && 0 <= j < a.len() && i != j implies a[i]
            != a[j] by {
            assert(whole[i] == a[i] && whole[j] == a[j]);
        }
        assert forall|i: int, j: int| 0 <= i < b.len() && 0 <= j < b.len() && i != j implies b[i]
            != b[j] by {
            assert(whole[a.len() + i] == b[i] && whole[a.len() + j] == b[j]);
        }
        assert forall|x: A| !(a.contains(x) && b.contains(x)) by {
            if a.contains(x) && b.contains(x) {
                let i = choose|i: int| 0 <= i < a.len() && a[i] == x;
                let j = choose|j: int| 0 <= j < b.len() && b[j] == x;
                assert(whole[i] == x && whole[a.len() + j] == x);
            }
        }
    }
    if a.no_duplicates() && b.no_duplicates() && forall|x: A| !(a.contains(x) && b.contains(x)) {
        assert forall|i: int, j: int|
            0 <= i < whole.len() && 0 <= j < whole.len() && i != j implies whole[i]
            != whole[j] by {
            if i < a.len() && j >= a.len() {
                assert(a.contains(a[i]) && b.contains(b[j - a.len()]));
            }
            if j < a.len() && i >= a.len() {
                assert(a.contains(a[j]) && b.contains(b[i - a.len()]));
            }
        }
    }
}

/// A forest reaches what its first tree or the forest of the others reaches.
proof fn lemma_forest_unfold<P>(forest: Seq<Tree<P>>, path: P)
    requires
        forest.len() > 0,
    ensures
        forest_has_file(forest, path) <==> forest[0].has_file(path) || forest_has_file(
            forest.drop_first(),
            path,
        ),
        forest_has_dir(forest, path) <==> forest[0].has_dir(path) || forest_has_dir(
            forest.drop_first(),
            path,
        ),
{
    let rest = forest.drop_first();
    if forest_has_file(forest, path) {
        let i = choose|i: int| 0 <= i < forest.len() && (#[trigger] forest[i]).has_file(path);
        if i > 0 {
            assert(rest[i - 1].has_file(path));
        }
    }
    if forest_has_file(rest, path) {
        let i = choose|i: int| 0 <= i < rest.len() && (#[trigger] rest[i]).has_file(path);
        assert(forest[i + 1].has_file(path));
    }
    if forest_has_dir(forest, path) {
        let i = choose|i: int| 0 <= i < forest.len() && (#[trigger] forest[i]).has_dir(path);
        if i > 0 {
            assert(rest[i - 1].has_dir(path));
        }
    }
    if forest_has_dir(rest, path) {
        let i = choose|i: int| 0 <= i < rest.len() && (#[trigger] rest[i]).has_dir(path);
        assert(forest[i + 1].has_dir(path));
    }
}

/// Where the entries that come next are those of a forest, the first is that of its
/// first tree, and those behind it are those of the other trees.
proof fn lemma_entries_unfold<P>(pending: Seq<DirEntry<P>>, forest: Seq<Tree<P>>)
    requires
        0 < forest.len() <= pending.len(),
        pending.take(forest.len() as int) == entries_of(forest),
    ensures
        forest[0].is_shown_by(pending[0]),
        pending.drop_first().take(forest.len() - 1) == entries_of(forest.drop_first()),
{
    let rest = forest.drop_first();
    let behind = pending.drop_first();
    assert(pending[0] == pending.take(forest.len() as int)[0]);
    assert(pending[0] == forest[0].entry());
    assert(entries_of(rest).len() == rest.len());
    assert forall|i: int| 0 <= i < rest.len() implies behind[i] == entries_of(rest)[i] by {
        assert(rest[i] == forest[i + 1]);
        assert(pending.take(forest.len() as int)[i + 1] == entries_of(forest)[i + 1]);
        assert(entries_of(forest)[i + 1] == forest[i + 1].entry());
        assert(entries_of(rest)[i] == rest[i].entry());
    }
    assert(behind.take(forest.len() - 1) =~= entries_of(rest));
}

/// Going through a tree adds its files to the files found and takes its entry from
/// the entries that are left.
pub proof fn lemma_walk_tree<P>(state: WalkState<P>, tree: Tree<P>)
    requires
        tree.is_readable(),
        !state.failed,
        state.pending.len() > 0,
        tree.is_shown_by(state.pending[0]),
    ensures
        walk_tree(state, tree) == (WalkState {
            files: state.files + tree.files(),
            pending: state.pending.drop_first(),
            failed: false,
        }),
    decreases tree,
{
    let end = WalkState {
        files: state.files + tree.files(),
        pending: state.pending.drop_first(),
        failed: false,
    };
    match tree {
        Tree::File { path } => {
            let told = state.deliver(Listing::RegularFile);
            assert(told.pending[0] == DirEntry { path, kind: EntryKind::File });
            assert(told.pending.drop_first() =~= state.pending.drop_first());
            assert(walk_tree(state, tree) =~= end);
        },
        Tree::Dir { children, .. } => {
            let listed = state.deliver(tree.answer());
            assert(listed.pending.take(children.len() as int) =~= entries_of(children));
            lemma_walk_forest(listed, children);
            assert(listed.pending.skip(children.len() as int) =~= state.pending.drop_first());
            assert(walk_tree(state, tree) =~= end);
        },
        Tree::Locked { .. } => {},
        Tree::Other { .. } => {
            assert(walk_tree(state, tree) =~= end);
        },
    }
}

/// Going through a forest adds the files of its trees to the files found and takes
/// their entries from the entries that are left.
pub proof fn lemma_walk_forest<P>(state: WalkState<P>, forest: Seq<Tree<P>>)
    requires
        forest_is_readable(forest),
        !state.failed,
        forest.len() <= state.pending.len(),
        state.pending.take(forest.len() as int) == entries_of(forest),
    ensures
        walk_forest(state, forest) == (WalkState {
            files: state.files + forest_files(forest),
            pending: state.pending.skip(forest.len() as int),
            failed: false,
        }),
    decreases forest,
{
    let end = WalkState {
        files: state.files + forest_files(forest),
        pending: state.pending.skip(forest.len() as int),
        failed: false,
    };
    if forest.len() == 0 {
        assert(walk_forest(state, forest) =~= end);
    } else {
        let first = forest[0];
        let rest = forest.drop_first();
        lemma_entries_unfold(state.pending, forest);
        assert(forest_is_readable(rest)) by {
            assert forall|i: int| 0 <= i < rest.len() implies (#[trigger] rest[i]).is_readable() by {
                assert(rest[i] == forest[i + 1]);
            }
        }
        lemma_walk_tree(state, first);
        let mid = walk_tree(state, first);
        lemma_walk_forest(mid, rest);
        assert(mid.pending.skip(rest.len() as int) =~= state.pending.skip(forest.len() as int));
        assert((state.files + first.files()) + forest_files(rest) =~= state.files + forest_files(
            forest,
        ));
        assert(walk_forest(state, forest) =~= end);
    }
}

/// The files of a tree are the regular files that a recursive descent reaches.
pub proof fn lemma_files_of_tree<P>(tree: Tree<P>, path: P)
    ensures
        tree.files().contains(path) <==> tree.has_file(path),
    decreases tree,
{
    match tree {
        Tree::File { path: own } => {
            assert(seq![own][0] == own);
        },
        Tree::Dir { children, .. } => {
            lemma_files_of_forest(children, path);
        },
        _ => {},
    }
}

/// The files of a forest are the regular files that a recursive descent into its trees
/// reaches.
pub proof fn lemma_files_of_forest<P>(forest: Seq<Tree<P>>, path: P)
    ensures
        forest_files(forest).contains(path) <==> forest_has_file(forest, path),
    decreases forest,
{
    if forest.len() > 0 {
        lemma_files_of_tree(forest[0], path);
        lemma_files_of_forest(forest.drop_first(), path);
        lemma_concat_contains(forest[0].files(), forest_files(forest.drop_first()), path);
        lemma_forest_unfold(forest, path);
    }
}

/// Whatever a descent into a tree reaches, file or directory, is among its paths.
pub proof fn lemma_paths_of_tree<P>(tree: Tree<P>, path: P)
    ensures
        tree.has_file(path) || tree.has_dir(path) ==> tree.paths().contains(path),
    decreases tree,
{
    match tree {
        Tree::File { path: own } => {
            assert(seq![own][0] == own);
        },
        Tree::Dir { path: own, children } => {
            lemma_paths_of_forest(children, path);
            lemma_concat_contains(seq![own], forest_paths(children), path);
            assert(seq![own][0] == own);
        },
        Tree::Locked { path: own } => {
            assert(seq![own][0] == own);
        },
        Tree::Other { .. } => {},
    }
}

/// Whatever a descent into the trees of a forest reaches is among the paths of the
/// forest.
pub proof fn lemma_paths_of_forest<P>(forest: Seq<Tree<P>>, path: P)
    ensures
        forest_has_file(forest, path) || forest_has_dir(forest, path) ==> forest_paths(
            forest,
        ).contains(path),
    decreases forest,
{
    if forest.len() > 0 {
        lemma_paths_of_tree(forest[0], path);
        lemma_paths_of_forest(forest.drop_first(), path);
        lemma_concat_contains(forest[0].paths(), forest_paths(forest.drop_first()), path);
        lemma_forest_unfold(forest, path);
    }
}

/// In a tree whose nodes have paths of their own, no file is listed twice and no path
/// is both a file and a directory.
pub proof fn lemma_distinct_tree<P>(tree: Tree<P>)
    requires
        tree.paths().no_duplicates(),
    ensures
        tree.files().no_duplicates(),
        forall|path: P| !(tree.has_file(path) && tree.has_dir(path)),
    decreases tree,
{
    match tree {
        Tree::File { .. } => {},
        Tree::Locked { .. } => {},
        Tree::Other { .. } => {},
        Tree::Dir { path: own, children } => {
            lemma_concat_distinct(seq![own], forest_paths(children));
            lemma_distinct_forest(children);
            assert forall|path: P| !(tree.has_file(path) && tree.has_dir(path)) by {
                assert(tree.has_file(path) == forest_has_file(children, path));
                assert(tree.has_dir(path) == (own == path || forest_has_dir(children, path)));
                if forest_has_file(children, path) && path == own {
                    lemma_paths_of_forest(children, path);
                    assert(seq![own][0] == own);
                    assert(seq![own].contains(path));
                }
            }
        },
    }
}

/// In a forest whose nodes have paths of their own, no file is listed twice and no
/// path is both a file and a directory.
pub proof fn lemma_distinct_forest<P>(forest: Seq<Tree<P>>)
    requires
        forest_paths(forest).no_duplicates(),
    ensures
        forest_files(forest).no_duplicates(),
        forall|path: P| !(forest_has_file(forest, path) && forest_has_dir(forest, path)),
    decreases forest,
{
    if forest.len() > 0 {
        let first = forest[0];
        let rest = forest.drop_first();
        lemma_concat_distinct(first.paths(), forest_paths(rest));
        lemma_distinct_tree(first);
        lemma_distinct_forest(rest);
        assert forall|path: P|
            !(first.paths().contains(path) && forest_paths(rest).contains(path)) implies !((
        first.has_file(path) || first.has_dir(path)) && (forest_has_file(rest, path)
            || forest_has_dir(rest, path))) by {
            lemma_paths_of_tree(first, path);
            lemma_paths_of_forest(rest, path);
        }
        assert forall|path: P|
            !(first.files().contains(path) && forest_files(rest).contains(path)) by {
            lemma_files_of_tree(first, path);
            lemma_files_of_forest(rest, path);
            lemma_paths_of_tree(first, path);
            lemma_paths_of_forest(rest, path);
        }
        lemma_concat_distinct(first.files(), forest_files(rest));
        assert forall|path: P|
            !(forest_has_file(forest, path) && forest_has_dir(forest, path)) by {
            lemma_forest_unfold(forest, path);
            lemma_paths_of_tree(first, path);
            lemma_paths_of_forest(rest, path);
        }
    } else {
        assert forall|path: P|
            !(forest_has_file(forest, path) && forest_has_dir(forest, path)) by {}
    }
}

/// A walk that has failed stays as it is, whatever tree it is led through.
pub proof fn lemma_failed_walk_tree<P>(state: WalkState<P>, tree: Tree<P>)
    requires
        state.failed,
    ensures
        walk_tree(state, tree) == state,
    decreases tree,
{
    match tree {
        Tree::Dir { children, .. } => {
            lemma_failed_walk_forest(state, children);
        },
        _ => {},
    }
}

/// A walk that has failed stays as it is, whatever forest it is led through.
pub proof fn lemma_failed_walk_forest<P>(state: WalkState<P>, forest: Seq<Tree<P>>)
    requires
        state.failed,
    ensures
        walk_forest(state, forest) == state,
    decreases forest,
{
    if forest.len() > 0 {
        lemma_failed_walk_tree(state, forest[0]);
        lemma_failed_walk_forest(state, forest.drop_first());
    }
}

/// Going through a tree that holds a directory that cannot be read fails the walk.
pub proof fn lemma_walk_tree_fails<P>(state: WalkState<P>, tree: Tree<P>)
    requires
        !tree.is_readable(),
        !state.failed,
        state.pending.len() > 0,
        tree.is_shown_by(state.pending[0]),
    ensures
        walk_tree(state, tree).failed,
    decreases tree,
{
    match tree {
        Tree::Dir { children, .. } => {
            let listed = state.deliver(tree.answer());
            assert(listed.pending.take(children.len() as int) =~= entries_of(children));
            lemma_walk_forest_fails(listed, children);
        },
        _ => {},
    }
}

/// Going through a forest of which one tree holds a directory that cannot be read
/// fails the walk.
pub proof fn lemma_walk_forest_fails<P>(state: WalkState<P>, forest: Seq<Tree<P>>)
    requires
        !forest_is_readable(forest),
        !state.failed,
        forest.len() <= state.pending.len(),
        state.pending.take(forest.len() as int) == entries_of(forest),
    ensures
        walk_forest(state, forest).failed,
    decreases forest,
{
    let first = forest[0];
    let rest = forest.drop_first();
    let locked = choose|i: int| 0 <= i < forest.len() && !(#[trigger] forest[i]).is_readable();
    lemma_entries_unfold(state.pending, forest);
    if first.is_readable() {
        lemma_walk_tree(state, first);
        assert(!forest_is_readable(rest)) by {
            assert(rest[locked - 1] == forest[locked]);
        }
        lemma_walk_forest_fails(walk_tree(state, first), rest);
    } else {
        lemma_walk_tree_fails(state, first);
        lemma_failed_walk_forest(walk_tree(state, first), rest);
    }
}

/// The walk over a directory tree whose directories can all be read comes to its end,
/// without a failure and with no entry left, and has then found the files of the tree
/// in the order of a depth-first descent.
pub proof fn lemma_walk_finds_files<P>(tree: Tree<P>)
    requires
        tree.is_readable(),
    ensures
        walk(tree).next_step() is Finished,
        !walk(tree).failed,
        walk(tree).pending.len() == 0,
        walk(tree).files == tree.files(),
{
    let start = WalkState::start(tree.path());
    lemma_walk_tree(start, tree);
    assert(start.pending.drop_first() =~= Seq::empty());
    assert(start.files + tree.files() =~= tree.files());
}

/// The walk over a directory tree whose directories can all be read finds a path
/// exactly where a recursive descent reaches a regular file at that path: every such
/// file is found, and nothing else.
pub proof fn lemma_walk_finds_reachable_files<P>(tree: Tree<P>)
    requires
        tree.is_readable(),
    ensures
        walk(tree).files.to_set() == Set::new(|path: P| tree.has_file(path)),
{
    lemma_walk_finds_files(tree);
    assert forall|path: P| walk(tree).files.contains(path) <==> tree.has_file(path) by {
        lemma_files_of_tree(tree, path);
    }
    assert(walk(tree).files.to_set() =~= Set::new(|path: P| tree.has_file(path)));
}

/// The walk over such a tree, if its nodes have paths of their own, finds no file
/// twice and no directory.
pub proof fn lemma_walk_finds_each_file_once<P>(tree: Tree<P>)
    requires
        tree.is_readable(),
        tree.has_distinct_paths(),
    ensures
        walk(tree).files.no_duplicates(),
        forall|path: P| walk(tree).files.contains(path) ==> !tree.has_dir(path),
{
    lemma_walk_finds_files(tree);
    lemma_distinct_tree(tree);
    assert forall|path: P| walk(tree).files.contains(path) implies !tree.has_dir(path) by {
        lemma_files_of_tree(tree, path);
    }
}

/// The walk over a directory tree that holds a directory that cannot be read fails as
/// a whole: it ends in the failed state, in which it gives no list of files.
pub proof fn lemma_walk_fails_on_unreadable<P>(tree: Tree<P>)
    requires
        !tree.is_readable(),
    ensures
        walk(tree).failed,
        walk(tree).next_step() is Finished,
{
    lemma_walk_tree_fails(WalkState::start(tree.path()), tree);
}

/// The walk from a root that is a regular file finds the root and nothing else.
pub proof fn lemma_walk_from_file_root<P>(root: P)
    ensures
        walk(Tree::File { path: root }).files == seq![root],
        walk(Tree::File { path: root }).next_step() is Finished,
        !walk(Tree::File { path: root }).failed,
{
    lemma_walk_finds_files(Tree::File { path: root });
}

/// The walk from a root that is neither a regular file nor a directory finds nothing.
pub proof fn lemma_walk_from_other_root<P>(root: P)
    ensures
        walk(Tree::Other { path: root }).files == Seq::<P>::empty(),
        walk(Tree::Other { path: root }).next_step() is Finished,
        !walk(Tree::Other { path: root }).failed,
{
    lemma_walk_finds_files(Tree::Other { path: root });
}

} // verus!
