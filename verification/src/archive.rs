//! The archive scanner: finds the HEIC entries of one zip archive.
//!
//! The archive is read by the `zip` crate from bytes held in memory. What that crate
//! reports of an archive is taken on trust and modelled as a sequence of
//! [`StoredEntry`] values; which of them the scanner yields, in which order, and where
//! it fails is proved against that model.
use crate::names::{has_heic_extension, name_is_heic};
use vstd::prelude::*;
use vstd::utf8::encode_utf8;

verus! {

/// `zip::ZipArchive`, the reader of a zip container. Its fields are not looked at.
#[verifier::external_type_specification]
#[verifier::external_body]
#[verifier::reject_recursive_types(R)]
pub struct ExZipArchive<R>(zip::ZipArchive<R>);

/// `std::io::Cursor`, through which the `zip` crate reads bytes held in memory.
#[verifier::external_type_specification]
#[verifier::external_body]
#[verifier::reject_recursive_types(T)]
pub struct ExCursor<T>(std::io::Cursor<T>);

/// `zip::result::ZipError`, the error of every fallible call into the `zip` crate.
#[verifier::external_type_specification]
#[verifier::external_body]
pub struct ExZipError(zip::result::ZipError);

/// What a zip archive holds for one entry of its central directory.
pub struct StoredEntry {
    /// Whether the entry can be opened for reading.
    pub opens: bool,
    /// The enclosed name of an entry that opens: the components of the relative path
    /// that its stored name stands for, the file name last, or `None` where that name
    /// gives no path below the archive's root.
    pub name: Option<Seq<Seq<char>>>,
    /// The decompressed payload, or `None` where it cannot be read to its end.
    pub payload: Option<Seq<u8>>,
}

/// The entries that `zip::ZipArchive::new` finds in `bytes`, in the order of their
/// indices, or `None` where it refuses `bytes` as a zip container.
pub uninterp spec fn zip_directory(bytes: Seq<u8>) -> Option<Seq<StoredEntry>>;

/// The entries that an opened archive holds, in the order of their indices.
pub uninterp spec fn archive_entries(archive: zip::ZipArchive<std::io::Cursor<Vec<u8>>>) -> Seq<
    StoredEntry,
>;

/// The text of each component of a name.
pub open spec fn texts(parts: Seq<String>) -> Seq<Seq<char>> {
    parts.map_values(|part: String| part@)
}

/// Calls `zip::ZipArchive::new` on a cursor over `bytes`. Trusted: the call succeeds
/// exactly where `zip_directory` gives entries for these bytes, and the archive it
/// returns holds those entries.
#[verifier::external_body]
fn open_archive(bytes: Vec<u8>) -> (r: Result<
    zip::ZipArchive<std::io::Cursor<Vec<u8>>>,
    zip::result::ZipError,
>)
    ensures
        match r {
            Ok(archive) => zip_directory(bytes@) == Some(archive_entries(archive)),
            Err(_) => zip_directory(bytes@) is None,
        },
{
    zip::ZipArchive::new(std::io::Cursor::new(bytes))
}

/// Calls `zip::ZipArchive::len`. Trusted: it returns the number of entries that the
/// archive holds.
#[verifier::external_body]
fn entry_count(archive: &zip::ZipArchive<std::io::Cursor<Vec<u8>>>) -> (n: usize)
    ensures
        n == archive_entries(*archive).len(),
{
    archive.len()
}

/// Calls `zip::ZipArchive::by_index` and, on the entry it opens,
/// `zip::read::ZipFile::enclosed_name`. Trusted: the archive holds the same entries
/// afterwards; the call fails exactly where the entry does not open; otherwise it
/// returns the entry's enclosed name, component by component, as text.
#[verifier::external_body]
fn entry_name(archive: &mut zip::ZipArchive<std::io::Cursor<Vec<u8>>>, index: usize) -> (r: Result<
    Option<Vec<String>>,
    zip::result::ZipError,
>)
    requires
        index < archive_entries(*old(archive)).len(),
    ensures
        archive_entries(*final(archive)) == archive_entries(*old(archive)),
        match r {
            Ok(Some(name)) => {
                &&& archive_entries(*old(archive))[index as int].opens
                &&& archive_entries(*old(archive))[index as int].name == Some(texts(name@))
            },
            Ok(None) => {
                &&& archive_entries(*old(archive))[index as int].opens
                &&& archive_entries(*old(archive))[index as int].name is None
            },
            Err(_) => !archive_entries(*old(archive))[index as int].opens,
        },
{
    let file = archive.by_index(index)?;
    Ok(file.enclosed_name().map(|path| path.iter().map(|part| part.to_string_lossy().into_owned()).collect()))
}

/// Calls `zip::ZipArchive::by_index` and reads the entry it opens to its end with
/// `std::io::Read::read_to_end`. Trusted: the archive holds the same entries
/// afterwards; the call returns the entry's whole payload, and fails exactly where the
/// archive holds none that can be read.
#[verifier::external_body]
fn entry_payload(archive: &mut zip::ZipArchive<std::io::Cursor<Vec<u8>>>, index: usize) -> (r:
    Result<Vec<u8>, zip::result::ZipError>)
    requires
        index < archive_entries(*old(archive)).len(),
    ensures
        archive_entries(*final(archive)) == archive_entries(*old(archive)),
        match r {
            Ok(payload) => archive_entries(*old(archive))[index as int].payload == Some(payload@),
            Err(_) => archive_entries(*old(archive))[index as int].payload is None,
        },
{
    let mut file = archive.by_index(index)?;
    let mut payload = Vec::new();
    std::io::Read::read_to_end(&mut file, &mut payload)?;
    Ok(payload)
}

/// Why an archive could not be scanned.
#[derive(Debug, Clone, Copy, PartialEq, Eq, Structural)]
pub enum ArchiveError {
    /// The bytes are no valid zip container.
    InvalidArchive,
    /// The entry at `index` cannot be opened, or its payload cannot be read.
    UnreadableEntry { index: usize },
}

/// One HEIC entry of an archive.
#[derive(Debug, PartialEq, Eq)]
pub struct ArchiveEntry {
    /// The components of the enclosed name, the file name last.
    pub name: Vec<String>,
    /// The decompressed payload.
    pub payload: Vec<u8>,
}

/// An [`ArchiveEntry`] as plain data.
pub struct EntryView {
    pub name: Seq<Seq<char>>,
    pub payload: Seq<u8>,
}

impl View for ArchiveEntry {
    type V = EntryView;

    open spec fn view(&self) -> EntryView {
        EntryView { name: texts(self.name@), payload: self.payload@ }
    }
}

/// Whether the scanner keeps an entry: it has an enclosed name, and the extension of
/// the file name in it marks a HEIC image.
pub open spec fn is_retained(entry: StoredEntry) -> bool {
    match entry.name {
        Some(parts) => parts.len() > 0 && has_heic_extension(encode_utf8(parts.last())),
        None => false,
    }
}

/// Whether a scan fails at an entry: the entry does not open, or it is kept and its
/// payload cannot be read.
pub open spec fn is_unreadable(entry: StoredEntry) -> bool {
    !entry.opens || (is_retained(entry) && entry.payload is None)
}

/// What the scanner yields for an entry that it keeps and can read.
pub open spec fn yielded(entry: StoredEntry) -> EntryView {
    EntryView { name: entry.name->0, payload: entry.payload->0 }
}

/// The index of the first entry at or behind `from` that does not open or is kept:
/// where a scan that starts at `from` stops. It is `from` itself where no entry is left,
/// and the number of entries where none of those left stops the scan.
pub open spec fn next_stop(entries: Seq<StoredEntry>, from: nat) -> nat
    decreases entries.len() - from,
{
    if from >= entries.len() {
        from
    } else if !entries[from as int].opens || is_retained(entries[from as int]) {
        from
    } else {
        next_stop(entries, from + 1)
    }
}

/// The entries that a scan of the whole archive yields: those that are kept, in
/// container order.
pub open spec fn heic_entries(entries: Seq<StoredEntry>) -> Seq<EntryView> {
    entries.filter(|e: StoredEntry| is_retained(e)).map_values(|e: StoredEntry| yielded(e))
}

/// Between `from` and the next stop every entry opens and none is kept.
pub proof fn lemma_next_stop(entries: Seq<StoredEntry>, from: nat)
    ensures
        from <= next_stop(entries, from),
        from <= entries.len() ==> next_stop(entries, from) <= entries.len(),
        forall|j: int|
            from <= j < next_stop(entries, from) ==> (#[trigger] entries[j]).opens && !is_retained(
                entries[j],
            ),
        next_stop(entries, from) < entries.len() ==> !entries[next_stop(entries, from) as int].opens
            || is_retained(entries[next_stop(entries, from) as int]),
    decreases entries.len() - from,
{
    if from < entries.len() && entries[from as int].opens && !is_retained(entries[from as int]) {
        lemma_next_stop(entries, from + 1);
    }
}

/// Taking one more entry into account adds what it yields where it is kept, and
/// nothing where it is not.
pub proof fn lemma_heic_entries_step(entries: Seq<StoredEntry>, upto: int)
    requires
        0 <= upto < entries.len(),
    ensures
        heic_entries(entries.take(upto + 1)) == if is_retained(entries[upto]) {
            heic_entries(entries.take(upto)).push(yielded(entries[upto]))
        } else {
            heic_entries(entries.take(upto))
        },
{
    reveal(Seq::filter);
    let longer = entries.take(upto + 1);
    let keep = |e: StoredEntry| is_retained(e);
    assert(longer.drop_last() =~= entries.take(upto));
    assert(longer.last() == entries[upto]);
    if is_retained(entries[upto]) {
        assert(longer.filter(keep) == entries.take(upto).filter(keep).push(entries[upto]));
        assert(heic_entries(longer) =~= heic_entries(entries.take(upto)).push(
            yielded(entries[upto]),
        ));
    } else {
        assert(longer.filter(keep) == entries.take(upto).filter(keep));
    }
}

/// Entries that are not kept add nothing to what a scan yields.
pub proof fn lemma_heic_entries_skip(entries: Seq<StoredEntry>, from: int, upto: int)
    requires
        0 <= from <= upto <= entries.len(),
        forall|j: int| from <= j < upto ==> !is_retained(#[trigger] entries[j]),
    ensures
        heic_entries(entries.take(upto)) == heic_entries(entries.take(from)),
    decreases upto - from,
{
    if from < upto {
        lemma_heic_entries_skip(entries, from, upto - 1);
        lemma_heic_entries_step(entries, upto - 1);
    }
}

/// A lazy scan of one zip archive: it hands out the HEIC entries one by one, in
/// container order.
pub struct ArchiveScanner {
    archive: zip::ZipArchive<std::io::Cursor<Vec<u8>>>,
    cursor: usize,
}

impl ArchiveScanner {
    /// The entries that the archive holds, in container order.
    pub closed spec fn entries(&self) -> Seq<StoredEntry> {
        archive_entries(self.archive)
    }

    /// The index of the entry that the scanner looks at next.
    pub closed spec fn position(&self) -> nat {
        self.cursor as nat
    }

    /// Opens `bytes` as a zip archive. Fails with `InvalidArchive` exactly where the
    /// bytes are no valid zip container; otherwise the scanner stands before the first
    /// entry.
    pub fn open(bytes: Vec<u8>) -> (r: Result<ArchiveScanner, ArchiveError>)
        ensures
            match r {
                Ok(scanner) => {
                    &&& zip_directory(bytes@) == Some(scanner.entries())
                    &&& scanner.position() == 0
                },
                Err(e) => e == ArchiveError::InvalidArchive && zip_directory(bytes@) is None,
            },
    {
        match open_archive(bytes) {
            Ok(archive) => Ok(ArchiveScanner { archive, cursor: 0 }),
            Err(_) => Err(ArchiveError::InvalidArchive),
        }
    }

    /// Looks for the next HEIC entry. Entries without an enclosed name and entries whose
    /// extension is not `heic` are passed over. The scan stops at the first entry that
    /// does not open or that is kept:
    ///
    /// * where no such entry is left, the result is `Ok(None)`;
    /// * where that entry opens and its payload can be read, the result is the entry,
    ///   and the scanner moves behind it;
    /// * otherwise the result is `UnreadableEntry` with the entry's index, and the
    ///   scanner stays at that entry, so that every later call fails alike.
    pub fn next_entry(&mut self) -> (r: Result<Option<ArchiveEntry>, ArchiveError>)
        ensures
            final(self).entries() == old(self).entries(),
            ({
                let entries = old(self).entries();
                let stop = next_stop(entries, old(self).position());
                match r {
                    Ok(None) => stop >= entries.len() && final(self).position() == stop,
                    Ok(Some(entry)) => {
                        &&& stop < entries.len()
                        &&& !is_unreadable(entries[stop as int])
                        &&& entry@ == yielded(entries[stop as int])
                        &&& final(self).position() == stop + 1
                    },
                    Err(e) => {
                        &&& stop < entries.len()
                        &&& is_unreadable(entries[stop as int])
                        &&& e matches ArchiveError::UnreadableEntry { index }
                        &&& index == stop
                        &&& final(self).position() == stop
                    },
                }
            }),
    {
        let count = entry_count(&self.archive);
        let ghost entries = archive_entries(self.archive);
        let ghost start = self.cursor as nat;
        while self.cursor < count
            invariant
                entries == old(self).entries(),
                start == old(self).position(),
                archive_entries(self.archive) == entries,
                count == entries.len(),
                start <= self.cursor,
                next_stop(entries, self.cursor as nat) == next_stop(entries, start),
            decreases count - self.cursor,
        {
            let index = self.cursor;
            let name = match entry_name(&mut self.archive, index) {
                Ok(name) => name,
                Err(_) => {
                    return Err(ArchiveError::UnreadableEntry { index });
                },
            };
            let kept = match &name {
                Some(parts) => {
                    let n = parts.len();
                    assert(n > 0 ==> texts(parts@).last() == parts@[n - 1]@);
                    n > 0 && name_is_heic(parts[n - 1].as_str().as_bytes())
                },
                None => false,
            };
            if kept {
                match entry_payload(&mut self.archive, index) {
                    Ok(payload) => {
                        self.cursor = index + 1;
                        let found = ArchiveEntry { name: name.unwrap(), payload };
                        return Ok(Some(found));
                    },
                    Err(_) => {
                        return Err(ArchiveError::UnreadableEntry { index });
                    },
                }
            }
            self.cursor = index + 1;
        }
        Ok(None)
    }
}

/// Scans a whole archive and returns its HEIC entries, in container order: the entries
/// that have an enclosed name whose extension is `heic` in any mix of case, each with
/// its whole payload.
///
/// The scan yields all of them or none. It fails with `InvalidArchive` exactly where
/// `bytes` are no valid zip container, and with `UnreadableEntry` at the first entry
/// that does not open, or that is kept and whose payload cannot be read.
pub fn scan(bytes: Vec<u8>) -> (r: Result<Vec<ArchiveEntry>, ArchiveError>)
    ensures
        match r {
            Ok(found) => {
                &&& zip_directory(bytes@) matches Some(entries)
                &&& forall|j: int| 0 <= j < entries.len() ==> !is_unreadable(#[trigger] entries[j])
                &&& found@.map_values(|e: ArchiveEntry| e@) == heic_entries(entries)
            },
            Err(ArchiveError::InvalidArchive) => zip_directory(bytes@) is None,
            Err(ArchiveError::UnreadableEntry { index }) => {
                &&& zip_directory(bytes@) matches Some(entries)
                &&& index < entries.len()
                &&& is_unreadable(entries[index as int])
                &&& forall|j: int| 0 <= j < index ==> !is_unreadable(#[trigger] entries[j])
            },
        },
{
    let mut scanner = match ArchiveScanner::open(bytes) {
        Ok(scanner) => scanner,
        Err(e) => {
            return Err(e);
        },
    };
    let ghost entries = scanner.entries();
    let mut found: Vec<ArchiveEntry> = Vec::new();
    proof {
        reveal(Seq::filter);
        assert(entries.take(0).filter(|e: StoredEntry| is_retained(e)) =~= Seq::empty());
        assert(found@.map_values(|e: ArchiveEntry| e@) =~= heic_entries(entries.take(0)));
    }
    loop
        invariant
            zip_directory(bytes@) == Some(entries),
            scanner.entries() == entries,
            scanner.position() <= entries.len(),
            forall|j: int| 0 <= j < scanner.position() ==> !is_unreadable(#[trigger] entries[j]),
            found@.map_values(|e: ArchiveEntry| e@) == heic_entries(
                entries.take(scanner.position() as int),
            ),
        decreases entries.len() - scanner.position(),
    {
        let ghost from = scanner.position();
        proof {
            lemma_next_stop(entries, from);
        }
        let ghost stop = next_stop(entries, from);
        match scanner.next_entry() {
            Ok(None) => {
                proof {
                    lemma_heic_entries_skip(entries, from as int, entries.len() as int);
                    assert(entries.take(entries.len() as int) =~= entries);
                }
                return Ok(found);
            },
            Ok(Some(entry)) => {
                proof {
                    lemma_heic_entries_skip(entries, from as int, stop as int);
                    lemma_heic_entries_step(entries, stop as int);
                }
                let ghost before = found@;
                found.push(entry);
                assert(found@.map_values(|e: ArchiveEntry| e@) =~= before.map_values(
                    |e: ArchiveEntry| e@,
                ).push(entry@));
            },
            Err(e) => {
                return Err(e);
            },
        }
    }
}

} // verus!
