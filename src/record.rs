use vstd::prelude::*;

verus! {

/// A point in time: whole seconds since the Unix epoch and the nanoseconds past them.
#[derive(Debug, Clone, Copy, PartialEq, Eq, Structural)]
pub struct Timestamp {
    pub secs: i64,
    pub nanos: u32,
}

/// One catalogued file of a root, as written to the store under the root's identifier.
#[derive(Debug)]
pub struct FileInfo {
    pub path: String,
    pub filename: String,
    pub mime_type: Option<String>,
    pub created: Option<Timestamp>,
    pub modified: Timestamp,
    pub size: u64,
}

/// What the filesystem reported of an entry's type.
#[derive(Debug, Clone, Copy, PartialEq, Eq, Structural)]
pub enum EntryKind {
    /// A regular file.
    File,
    /// Anything that is not a regular file; a walk reports directories this way.
    Directory,
    /// The type could not be read.
    Unknown,
}

/// A filesystem entry met by a walk, with what a stat of it reported.
#[derive(Debug)]
pub struct FsEntry {
    pub path: String,
    pub kind: EntryKind,
    pub size: u64,
    pub created: Option<Timestamp>,
    pub modified: Timestamp,
}

/// An object of a bucket listing, with the fields that the listing may leave out.
#[derive(Debug)]
pub struct ObjectEntry {
    pub key: Option<String>,
    pub last_modified: Option<Timestamp>,
    pub size: Option<i64>,
}

/// Why an object of a listing cannot be catalogued.
#[derive(Debug, Clone, Copy, PartialEq, Eq, Structural)]
pub enum ExtractError {
    MissingKey,
    MissingModified,
    MissingSize,
}

/// The view of an optional string.
pub open spec fn opt_view(o: Option<String>) -> Option<Seq<char>> {
    match o {
        Some(s) => Some(s@),
        None => None,
    }
}

/// The MIME type that `mime_guess` gives first for a file name, by its extension.
pub uninterp spec fn guessed_mime(name: Seq<char>) -> Option<Seq<char>>;

/// The classification recorded for entries that are not regular files.
pub open spec fn directory_mime() -> Seq<char> {
    seq!['i', 'n', 'o', 'd', 'e', '/', 'd', 'i', 'r', 'e', 'c', 't', 'o', 'r', 'y']
}

/// Relies on `mime_guess::from_path(..).first()` and `Mime::essence_str`: the guess
/// depends on the name's extension alone, and a name without a `.` has none.
#[verifier::external_body]
fn guess_mime(name: &str) -> (r: Option<String>)
    ensures
        opt_view(r) == guessed_mime(name@),
        !name@.contains('.') ==> r is None,
{
    mime_guess::from_path(name).first().map(|m| m.essence_str().to_string())
}

/// `s` is `parent`, a `/`, and a `leaf` that holds no `/`.
pub open spec fn split_at_last_sep(s: Seq<char>, parent: Seq<char>, leaf: Seq<char>) -> bool {
    s == parent + seq!['/'] + leaf && !leaf.contains('/')
}

/// Splits `key` at its last `/` into the part before it and the part after it.
pub fn split_key(key: &str) -> (r: Option<(String, String)>)
    ensures
        r is Some <==> key@.contains('/'),
        r matches Some((parent, leaf)) ==> split_at_last_sep(key@, parent@, leaf@),
{
    let n = key.unicode_len();
    let mut i: usize = n;
    while i > 0 && key.get_char(i - 1) != '/'
        invariant
            i <= n,
            n == key@.len(),
            forall|j: int| i <= j < n ==> key@[j] != '/',
        decreases i,
    {
        i = i - 1;
    }
    if i == 0 {
        assert(!key@.contains('/'));
        return None;
    }
    let parent = key.substring_char(0, i - 1).to_owned();
    let leaf = key.substring_char(i, n).to_owned();
    proof {
        assert(key@ =~= parent@ + seq!['/'] + leaf@);
        assert(!leaf@.contains('/')) by {
            if leaf@.contains('/') {
                let j = choose|j: int| 0 <= j < leaf@.len() && leaf@[j] == '/';
                assert(key@[i + j] == '/');
            }
        }
    }
    Some((parent, leaf))
}

/// The value stored for an observed size: itself where it fits a signed 64-bit column,
/// absent otherwise.
pub open spec fn stored_size_of(size: u64) -> Option<i64> {
    if size <= i64::MAX as u64 {
        Some(size as i64)
    } else {
        None
    }
}

/// Converts an observed size to its stored value.
pub fn stored_size(size: u64) -> (r: Option<i64>)
    ensures
        r == stored_size_of(size),
{
    if size <= i64::MAX as u64 {
        Some(size as i64)
    } else {
        None
    }
}

/// The classification of a filesystem entry named `leaf` of the given kind.
pub open spec fn entry_mime(kind: EntryKind, leaf: Seq<char>) -> Option<Seq<char>> {
    match kind {
        EntryKind::File => guessed_mime(leaf),
        EntryKind::Directory => Some(directory_mime()),
        EntryKind::Unknown => None,
    }
}

/// The parent and leaf of a filesystem path: split at the last `/`, with `/` as the parent
/// where that separator is the path's first character, or an empty parent where there is
/// no separator.
pub open spec fn fs_parts(s: Seq<char>, parent: Seq<char>, leaf: Seq<char>) -> bool {
    if s.contains('/') {
        let before = s.take(s.len() - leaf.len() - 1);
        &&& split_at_last_sep(s, before, leaf)
        &&& parent == if before.len() == 0 {
            seq!['/']
        } else {
            before
        }
    } else {
        parent.len() == 0 && leaf == s
    }
}

/// Builds the record of a filesystem entry: its path split into parent and leaf, the
/// classification of its kind, and the times and size of its stat.
pub fn fileinfo_from_entry(entry: FsEntry) -> (r: FileInfo)
    ensures
        fs_parts(entry.path@, r.path@, r.filename@),
        opt_view(r.mime_type) == entry_mime(entry.kind, r.filename@),
        r.created == entry.created,
        r.modified == entry.modified,
        r.size == entry.size,
{
    let (path, filename) = match split_key(entry.path.as_str()) {
        Some((before, leaf)) => {
            let ghost s = entry.path@;
            assert(s.take(s.len() - leaf@.len() - 1) =~= before@);
            if before.as_str().is_empty() {
                let root = String::from_str("/");
                proof {
                    reveal_strlit("/");
                    assert(root@ =~= seq!['/']);
                }
                (root, leaf)
            } else {
                (before, leaf)
            }
        },
        None => (String::new(), entry.path.clone()),
    };
    let mime_type = match entry.kind {
        EntryKind::File => guess_mime(filename.as_str()),
        EntryKind::Directory => {
            let d = String::from_str("inode/directory");
            proof {
                reveal_strlit("inode/directory");
                assert(d@ =~= directory_mime());
            }
            Some(d)
        },
        EntryKind::Unknown => None,
    };
    FileInfo {
        path,
        filename,
        mime_type,
        created: entry.created,
        modified: entry.modified,
        size: entry.size,
    }
}

/// The error, if any, that an object of a listing gives: the first field missing, in the
/// order key, modification time, size.
pub open spec fn object_error(o: ObjectEntry) -> Option<ExtractError> {
    match o.key {
        None => Some(ExtractError::MissingKey),
        Some(_) => if o.last_modified is None {
            Some(ExtractError::MissingModified)
        } else if o.size is None {
            Some(ExtractError::MissingSize)
        } else {
            None
        },
    }
}

/// The parent and leaf of an object key: split at the last `/`, or an empty parent for a key
/// at the bucket's root.
pub open spec fn key_parts(s: Seq<char>, parent: Seq<char>, leaf: Seq<char>) -> bool {
    if s.contains('/') {
        split_at_last_sep(s, parent, leaf)
    } else {
        parent.len() == 0 && leaf == s
    }
}

/// Builds the record of a listed object: its key split into parent and leaf, the guess for
/// its leaf, no creation time, and the listed modification time and size.
pub fn fileinfo_from_object(obj: ObjectEntry) -> (r: Result<FileInfo, ExtractError>)
    ensures
        object_error(obj) matches Some(e) ==> r == Err::<FileInfo, ExtractError>(e),
        object_error(obj) is None <==> r is Ok,
        r matches Ok(f) ==> {
            &&& key_parts(obj.key->0@, f.path@, f.filename@)
            &&& opt_view(f.mime_type) == guessed_mime(f.filename@)
            &&& f.created is None
            &&& f.modified == obj.last_modified->0
            &&& f.size == obj.size->0 as u64
        },
{
    let key = match obj.key {
        Some(k) => k,
        None => return Err(ExtractError::MissingKey),
    };
    let (path, filename) = match split_key(key.as_str()) {
        Some(parts) => parts,
        None => (String::new(), key),
    };
    let modified = match obj.last_modified {
        Some(t) => t,
        None => return Err(ExtractError::MissingModified),
    };
    let size = match obj.size {
        Some(s) => s as u64,
        None => return Err(ExtractError::MissingSize),
    };
    let mime_type = guess_mime(filename.as_str());
    Ok(FileInfo { path, filename, mime_type, created: None, modified, size })
}

} // verus!
