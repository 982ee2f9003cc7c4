//! The path enumerator: a depth-first walk over a directory tree that collects every
//! regular file it meets.
//!
//! Looking at the file system is the caller's part. The walker keeps the entries that
//! are still to be looked at and tells the caller, step by step, which path to list
//! next; the caller lists it and hands back what it found. Entries are taken in the
//! order of the listing, and a directory is walked to its end before the entry that
//! follows it is looked at.
//!
//! The walk starts at a root of which nothing is known yet, so the root is the first
//! path that the caller is asked to list. A root that turns out to be a regular file is
//! the one file of the walk.
//!
//! The walker does not look into a path: `P` can be any type that names a file.
use vstd::prelude::*;

verus! {

/// What the file system reports an entry to be.
#[derive(Debug, Clone, Copy, PartialEq, Eq, Structural)]
pub enum EntryKind {
    /// A regular file.
    File,
    /// A directory.
    Directory,
    /// Neither: a socket, a pipe, a device, a link that leads nowhere.
    Other,
}

/// One entry of a directory listing.
#[derive(Debug)]
pub struct DirEntry<P> {
    /// The path of the entry.
    pub path: P,
    /// What the file system reports the entry to be.
    pub kind: EntryKind,
}

/// What listing a path gave.
#[derive(Debug)]
pub enum DirListing<P> {
    /// The path is a directory, and these are its entries, in the order in which the
    /// file system lists them.
    Entries(Vec<DirEntry<P>>),
    /// The path is a regular file.
    RegularFile,
    /// The path is neither a directory nor a regular file, or does not exist.
    NotADirectory,
    /// The path is a directory that cannot be read.
    Unreadable,
}

/// A [`DirListing`] as plain data.
pub enum Listing<P> {
    Entries(Seq<DirEntry<P>>),
    RegularFile,
    NotADirectory,
    Unreadable,
}

impl<P> View for DirListing<P> {
    type V = Listing<P>;

    open spec fn view(&self) -> Listing<P> {
        match self {
            DirListing::Entries(entries) => Listing::Entries(entries@),
            DirListing::RegularFile => Listing::RegularFile,
            DirListing::NotADirectory => Listing::NotADirectory,
            DirListing::Unreadable => Listing::Unreadable,
        }
    }
}

/// What one step of the walk did, or what it waits for.
#[derive(Debug, Clone, Copy, PartialEq, Eq, Structural)]
pub enum WalkStep {
    /// The next entry was a regular file: it has been added to the files found.
    Collected,
    /// The next entry was neither a regular file nor a directory: it has been dropped.
    Skipped,
    /// The next entry is to be listed: the caller is to list its path and to hand what
    /// it found to [`DirWalker::visit_dirs`].
    ListDirectory,
    /// No entry is left, or the walk has failed.
    Finished,
}

/// Why an enumeration gave no list of files.
#[derive(Debug, Clone, Copy, PartialEq, Eq, Structural)]
pub enum EnumerationError {
    /// A directory could not be read.
    Unreadable,
    /// Entries are still to be looked at.
    Unfinished,
}

/// The state of a walk as plain data.
#[verifier::ext_equal]
pub struct WalkState<P> {
    /// The files found so far, in the order in which they were met.
    pub files: Seq<P>,
    /// The entries still to be looked at, the next one first.
    pub pending: Seq<DirEntry<P>>,
    /// Whether a directory could not be read.
    pub failed: bool,
}

impl<P> WalkState<P> {
    /// The state in which the walk from `root` starts: nothing found, and the root to
    /// be listed.
    pub open spec fn start(root: P) -> WalkState<P> {
        WalkState {
            files: Seq::empty(),
            pending: seq![DirEntry { path: root, kind: EntryKind::Directory }],
            failed: false,
        }
    }

    /// What the next step of the walk is.
    pub open spec fn next_step(self) -> WalkStep {
        if self.failed || self.pending.len() == 0 {
            WalkStep::Finished
        } else {
            match self.pending[0].kind {
                EntryKind::File => WalkStep::Collected,
                EntryKind::Directory => WalkStep::ListDirectory,
                EntryKind::Other => WalkStep::Skipped,
            }
        }
    }

    /// The state after one step: a regular file that comes next moves to the files
    /// found; an entry that is neither file nor directory is dropped; nothing else
    /// changes.
    pub open spec fn step(self) -> WalkState<P> {
        match self.next_step() {
            WalkStep::Collected => WalkState {
                files: self.files.push(self.pending[0].path),
                pending: self.pending.drop_first(),
                failed: false,
            },
            WalkStep::Skipped => WalkState {
                files: self.files,
                pending: self.pending.drop_first(),
                failed: false,
            },
            _ => self,
        }
    }

    /// The state after the listing of the path that comes next has come in. The entries
    /// of a directory take its place, in their order. A path that turned out to be a
    /// regular file stays, as a file, and is collected by the next step. A path that is
    /// neither is dropped. A directory that cannot be read fails the walk. A walk that
    /// waits for no listing stays as it is.
    pub open spec fn deliver(self, listing: Listing<P>) -> WalkState<P> {
        if self.next_step() is ListDirectory {
            match listing {
                Listing::Entries(entries) => WalkState {
                    files: self.files,
                    pending: entries + self.pending.drop_first(),
                    failed: false,
                },
                Listing::RegularFile => WalkState {
                    files: self.files,
                    pending: seq![DirEntry { path: self.pending[0].path, kind: EntryKind::File }]
                        + self.pending.drop_first(),
                    failed: false,
                },
                Listing::NotADirectory => WalkState {
                    files: self.files,
                    pending: self.pending.drop_first(),
                    failed: false,
                },
                Listing::Unreadable => WalkState {
                    files: self.files,
                    pending: self.pending,
                    failed: true,
                },
            }
        } else {
            self
        }
    }
}

/// A depth-first walk over a directory tree.
#[derive(Debug)]
pub struct DirWalker<P> {
    files: Vec<P>,
    /// The entries still to be looked at; the next one is the last.
    stack: Vec<DirEntry<P>>,
    failed: bool,
}

impl<P> View for DirWalker<P> {
    type V = WalkState<P>;

    closed spec fn view(&self) -> WalkState<P> {
        WalkState { files: self.files@, pending: self.stack@.reverse(), failed: self.failed }
    }
}

impl<P> DirWalker<P> {
    /// A walk from the root `path`. The root is the first path that the caller is asked
    /// to list: a directory is walked, a regular file is the one file found, and
    /// anything else gives no file.
    pub fn new(path: P) -> (walker: Self)
        ensures
            walker@ == WalkState::start(path),
    {
        let mut stack: Vec<DirEntry<P>> = Vec::new();
        stack.push(DirEntry { path, kind: EntryKind::Directory });
        let walker = DirWalker { files: Vec::new(), stack, failed: false };
        assert(walker.stack@.reverse() =~= seq![DirEntry { path, kind: EntryKind::Directory }]);
        walker
    }

    /// Takes one step: a regular file that comes next is added to the files found, and
    /// an entry that is neither file nor directory is dropped. The result says what was
    /// done, or what the walk waits for.
    pub fn step(&mut self) -> (s: WalkStep)
        ensures
            s == old(self)@.next_step(),
            final(self)@ == old(self)@.step(),
    {
        let n = self.stack.len();
        if self.failed || n == 0 {
            return WalkStep::Finished;
        }
        assert(self.stack@.reverse()[0] == self.stack@[n - 1]);
        match self.stack[n - 1].kind {
            EntryKind::Directory => WalkStep::ListDirectory,
            EntryKind::File => {
                let entry = self.stack.pop().unwrap();
                self.files.push(entry.path);
                assert(self.stack@.reverse() =~= old(self).stack@.reverse().drop_first());
                WalkStep::Collected
            },
            EntryKind::Other => {
                let _ = self.stack.pop();
                assert(self.stack@.reverse() =~= old(self).stack@.reverse().drop_first());
                WalkStep::Skipped
            },
        }
    }

    /// The path that the walk waits for a listing of, if it waits for one.
    pub fn pending_dir(&self) -> (dir: Option<&P>)
        ensures
            match dir {
                Some(path) => self@.next_step() is ListDirectory && *path == self@.pending[0].path,
                None => !(self@.next_step() is ListDirectory),
            },
    {
        let n = self.stack.len();
        if self.failed || n == 0 {
            return None;
        }
        assert(self.stack@.reverse()[0] == self.stack@[n - 1]);
        match self.stack[n - 1].kind {
            EntryKind::Directory => Some(&self.stack[n - 1].path),
            _ => None,
        }
    }

    /// Takes in the listing of the path that the walk waits for. The entries of a
    /// directory are looked at next, in the order of the listing, before the entries
    /// that were waiting behind it. A path that turned out to be a regular file is
    /// collected by the next step. A directory that cannot be read fails the whole
    /// walk, for good: the result is `Unreadable` from then on.
    pub fn visit_dirs(&mut self, listing: DirListing<P>) -> (r: Result<(), EnumerationError>)
        ensures
            final(self)@ == old(self)@.deliver(listing@),
            r == if final(self)@.failed {
                Err::<(), EnumerationError>(EnumerationError::Unreadable)
            } else {
                Ok::<(), EnumerationError>(())
            },
    {
        let n = self.stack.len();
        if self.failed {
            return Err(EnumerationError::Unreadable);
        }
        if n == 0 {
            return Ok(());
        }
        assert(self.stack@.reverse()[0] == self.stack@[n - 1]);
        match self.stack[n - 1].kind {
            EntryKind::Directory => {},
            _ => {
                return Ok(());
            },
        }
        let ghost rest = self.stack@.reverse().drop_first();
        match listing {
            DirListing::Entries(entries) => {
                let _ = self.stack.pop();
                assert(self.stack@.reverse() =~= rest);
                let mut entries = entries;
                let ghost all = entries@;
                while entries.len() > 0
                    invariant
                        !self.failed,
                        self.files == old(self).files,
                        entries@.len() <= all.len(),
                        entries@ == all.take(entries@.len() as int),
                        self.stack@.reverse() == all.skip(entries@.len() as int) + rest,
                    decreases entries.len(),
                {
                    let ghost before = self.stack@;
                    let ghost k = entries@.len() as int;
                    let entry = entries.pop().unwrap();
                    self.stack.push(entry);
                    assert(entries@ =~= all.take(k - 1));
                    assert(self.stack@.reverse() =~= all.skip(k - 1) + rest) by {
                        assert(entry == all[k - 1]);
                        assert(self.stack@.reverse() =~= seq![entry] + before.reverse());
                    }
                }
                assert(all.skip(0) =~= all);
                Ok(())
            },
            DirListing::RegularFile => {
                let entry = self.stack.pop().unwrap();
                assert(self.stack@.reverse() =~= rest);
                let ghost before = self.stack@;
                let found = DirEntry { path: entry.path, kind: EntryKind::File };
                self.stack.push(found);
                assert(self.stack@.reverse() =~= seq![found] + before.reverse());
                Ok(())
            },
            DirListing::NotADirectory => {
                let _ = self.stack.pop();
                assert(self.stack@.reverse() =~= rest);
                Ok(())
            },
            DirListing::Unreadable => {
                self.failed = true;
                Err(EnumerationError::Unreadable)
            },
        }
    }

    /// Ends the walk and returns the files found, in the order in which they were met.
    /// Fails with `Unreadable` where a directory could not be read, and with
    /// `Unfinished` where entries are still to be looked at.
    pub fn get_all_files(self) -> (r: Result<Vec<P>, EnumerationError>)
        ensures
            match r {
                Ok(files) => !self@.failed && self@.pending.len() == 0 && files@ == self@.files,
                Err(EnumerationError::Unreadable) => self@.failed,
                Err(EnumerationError::Unfinished) => !self@.failed && self@.pending.len() > 0,
            },
    {
        if self.failed {
            Err(EnumerationError::Unreadable)
        } else if self.stack.len() > 0 {
            Err(EnumerationError::Unfinished)
        } else {
            Ok(self.files)
        }
    }
}

} // verus!
