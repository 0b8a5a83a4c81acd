use vstd::prelude::*;
use vstd::utf8::encode_utf8;

verus! {

/// `name` ends with the bytes `suffix`: a plain, case-sensitive suffix test,
/// so `bitmapjpg` ends with `jpg` and `PHOTO.JPG` does not.
pub open spec fn has_suffix(name: Seq<u8>, suffix: Seq<u8>) -> bool {
    suffix.len() <= name.len() && name.subrange(name.len() - suffix.len(), name.len() as int)
        == suffix
}

/// A file name is kept when it ends with (the UTF-8 bytes of) one of the
/// configured extensions.
pub open spec fn name_matches(name: Seq<u8>, extensions: Seq<String>) -> bool {
    exists|i: int| 0 <= i < extensions.len() && has_suffix(name, encode_utf8(#[trigger] extensions[i]@))
}

/// Whether `name` ends with the bytes `suffix`.
pub fn ends_with_bytes(name: &[u8], suffix: &[u8]) -> (r: bool)
    ensures
        r == has_suffix(name@, suffix@),
{
    if suffix.len() > name.len() {
        return false;
    }
    let offset = name.len() - suffix.len();
    let mut i: usize = 0;
    while i < suffix.len()
        invariant
            offset + suffix@.len() == name@.len(),
            name@.len() <= usize::MAX,
            i <= suffix@.len(),
            forall|j: int| 0 <= j < i ==> name@[offset + j] == suffix@[j],
        decreases suffix@.len() - i,
    {
        if name[offset + i] != suffix[i] {
            assert(name@.subrange(offset as int, name@.len() as int)[i as int] != suffix@[i as int]);
            return false;
        }
        i = i + 1;
    }
    assert(name@.subrange(offset as int, name@.len() as int) =~= suffix@);
    true
}

/// Whether the file name `name` (its bytes) ends with one of `extensions`.
pub fn matches_extension(name: &[u8], extensions: &Vec<String>) -> (r: bool)
    ensures
        r == name_matches(name@, extensions@),
{
    let mut k: usize = 0;
    while k < extensions.len()
        invariant
            k <= extensions@.len(),
            forall|j: int| 0 <= j < k ==> !has_suffix(name@, encode_utf8(#[trigger] extensions@[j]@)),
        decreases extensions@.len() - k,
    {
        if ends_with_bytes(name, extensions[k].as_str().as_bytes()) {
            return true;
        }
        k = k + 1;
    }
    false
}

/// One entry of a listed directory.
#[derive(Debug, Clone, PartialEq, Eq)]
pub struct DirEntryInfo {
    /// The entry's full path.
    pub path: String,
    /// The entry's file name, as the file system's bytes.
    pub name: Vec<u8>,
    /// Whether the entry is a directory.
    pub is_dir: bool,
}

/// The paths of the directories among `entries`, in listing order.
pub open spec fn subdirectories(entries: Seq<DirEntryInfo>) -> Seq<String>
    decreases entries.len(),
{
    if entries.len() == 0 {
        Seq::empty()
    } else {
        let rest = subdirectories(entries.drop_last());
        if entries.last().is_dir {
            rest.push(entries.last().path)
        } else {
            rest
        }
    }
}

/// The paths of the non-directories among `entries` whose names match one
/// of `extensions`, in listing order.
pub open spec fn matching_files(entries: Seq<DirEntryInfo>, extensions: Seq<String>) -> Seq<String>
    decreases entries.len(),
{
    if entries.len() == 0 {
        Seq::empty()
    } else {
        let rest = matching_files(entries.drop_last(), extensions);
        let e = entries.last();
        if !e.is_dir && name_matches(e.name@, extensions) {
            rest.push(e.path)
        } else {
            rest
        }
    }
}

/// An iterative walk of a directory tree: a work list of directories still
/// to be listed, seeded with the root, and the matching files found so far.
/// Listing a directory is left to the caller, which hands the entries to
/// `add_entries`. Directories are taken last in, first out.
pub struct DirectoryScanner {
    pub extensions: Vec<String>,
    pub unvisited: Vec<String>,
    pub found: Vec<String>,
}

impl DirectoryScanner {
    /// A walk of the tree below `root_dir` that keeps files whose names end
    /// with one of `extensions`.
    pub fn new(root_dir: String, extensions: Vec<String>) -> (r: DirectoryScanner)
        ensures
            r.extensions@ == extensions@,
            r.unvisited@ == seq![root_dir],
            r.found@ == Seq::<String>::empty(),
    {
        let mut unvisited: Vec<String> = Vec::new();
        unvisited.push(root_dir);
        DirectoryScanner { extensions, unvisited, found: Vec::new() }
    }

    /// Takes the next directory to list off the work list, or `None` when the
    /// walk is complete.
    pub fn next_directory(&mut self) -> (r: Option<String>)
        ensures
            old(self).unvisited@.len() == 0 ==> r is None && final(self).unvisited@ == old(self).unvisited@,
            old(self).unvisited@.len() > 0 ==> r == Some(old(self).unvisited@.last())
                && final(self).unvisited@ == old(self).unvisited@.drop_last(),
            final(self).found@ == old(self).found@,
            final(self).extensions@ == old(self).extensions@,
    {
        self.unvisited.pop()
    }

    /// Takes in the entries of one listed directory: each subdirectory joins
    /// the work list, and each other entry whose name matches is found.
    pub fn add_entries(&mut self, entries: &Vec<DirEntryInfo>)
        ensures
            final(self).unvisited@ == old(self).unvisited@ + subdirectories(entries@),
            final(self).found@ == old(self).found@ + matching_files(entries@, old(self).extensions@),
            final(self).extensions@ == old(self).extensions@,
    {
        let ghost start_unvisited = self.unvisited@;
        let ghost start_found = self.found@;
        let mut i: usize = 0;
        while i < entries.len()
            invariant
                i <= entries@.len(),
                self.extensions@ == old(self).extensions@,
                start_unvisited == old(self).unvisited@,
                start_found == old(self).found@,
                self.unvisited@ == start_unvisited + subdirectories(entries@.subrange(0, i as int)),
                self.found@ == start_found + matching_files(entries@.subrange(0, i as int), self.extensions@),
            decreases entries@.len() - i,
        {
            let entry = &entries[i];
            proof {
                let k = i as int;
                assert(entries@.subrange(0, k + 1).drop_last() =~= entries@.subrange(0, k));
                assert(entries@.subrange(0, k + 1).last() == entries@[k]);
            }
            if entry.is_dir {
                self.unvisited.push(entry.path.clone());
            } else if matches_extension(entry.name.as_slice(), &self.extensions) {
                self.found.push(entry.path.clone());
            }
            i = i + 1;
        }
        assert(entries@.subrange(0, entries@.len() as int) =~= entries@);
    }

    /// Whether no directory is left to list.
    pub fn is_done(&self) -> (r: bool)
        ensures
            r == (self.unvisited@.len() == 0),
    {
        self.unvisited.len() == 0
    }
}

/// The scanner never reports a directory: every path that a listing adds to
/// the found files is that of a non-directory entry whose name matches.
pub proof fn lemma_found_entries_are_matching_files(
    entries: Seq<DirEntryInfo>,
    extensions: Seq<String>,
    k: int,
)
    requires
        0 <= k < matching_files(entries, extensions).len(),
    ensures
        exists|j: int|
            0 <= j < entries.len() && (#[trigger] entries[j]).path == matching_files(entries, extensions)[k]
                && !entries[j].is_dir && name_matches(entries[j].name@, extensions),
    decreases entries.len(),
{
    let rest = entries.drop_last();
    if k < matching_files(rest, extensions).len() {
        lemma_found_entries_are_matching_files(rest, extensions, k);
        let j = choose|j: int|
            0 <= j < rest.len() && (#[trigger] rest[j]).path == matching_files(rest, extensions)[k]
                && !rest[j].is_dir && name_matches(rest[j].name@, extensions);
        assert(entries[j] == rest[j]);
    } else {
        assert(entries[entries.len() - 1] == entries.last());
    }
}

/// Nothing below a listed directory is lost: every subdirectory among its
/// entries joins the work list, whatever its depth in the tree.
pub proof fn lemma_subdirectories_are_queued(entries: Seq<DirEntryInfo>, j: int)
    requires
        0 <= j < entries.len(),
        entries[j].is_dir,
    ensures
        subdirectories(entries).contains(entries[j].path),
    decreases entries.len(),
{
    let rest = entries.drop_last();
    if j < rest.len() {
        lemma_subdirectories_are_queued(rest, j);
        assert(rest[j] == entries[j]);
        let s = subdirectories(rest);
        let i = choose|i: int| 0 <= i < s.len() && s[i] == entries[j].path;
        if entries.last().is_dir {
            assert(s.push(entries.last().path)[i] == entries[j].path);
        }
    } else {
        assert(entries.last() == entries[j]);
        let s = subdirectories(rest);
        assert(s.push(entries[j].path)[s.len() as int] == entries[j].path);
    }
}

} // verus!
