use vstd::prelude::*;
use vstd::utf8::*;

use crate::error::FsError;
use crate::path::{file_name, file_name_of};
use crate::text::utf8_string;
use crate::tree::DirNode;

verus! {

/// One child of a listed directory.
#[derive(Debug, PartialEq, Eq)]
pub struct DirectoryEntry {
    pub name: String,
    pub is_directory: bool,
}

/// A snapshot of what the filesystem says of one path.
#[derive(Debug, PartialEq, Eq)]
pub struct FileStats {
    pub name: String,
    pub is_directory: bool,
    pub size: u64,
    /// Milliseconds since the Unix epoch of the last modification.
    pub modified: i64,
}

/// The whole milliseconds in `secs` seconds and `nanos` nanoseconds.
pub open spec fn millis_of(secs: u64, nanos: u32) -> int {
    secs * 1000 + nanos / 1_000_000
}

/// The listing of a directory's entries: each name, and whether it is a directory.
pub fn read_dir(entries: &Vec<DirNode>) -> (r: Vec<DirectoryEntry>)
    ensures
        r@.len() == entries@.len(),
        forall|i: int|
            0 <= i < entries@.len() ==> match #[trigger] entries@[i] {
                DirNode::File { name } => r@[i].name@ == name@ && !r@[i].is_directory,
                DirNode::Dir { name, .. } => r@[i].name@ == name@ && r@[i].is_directory,
                DirNode::Other { name } => r@[i].name@ == name@ && !r@[i].is_directory,
            },
{
    let mut r: Vec<DirectoryEntry> = Vec::new();
    let mut i: usize = 0;
    while i < entries.len()
        invariant
            i <= entries@.len(),
            r@.len() == i,
            forall|k: int|
                0 <= k < i ==> match #[trigger] entries@[k] {
                    DirNode::File { name } => r@[k].name@ == name@ && !r@[k].is_directory,
                    DirNode::Dir { name, .. } => r@[k].name@ == name@ && r@[k].is_directory,
                    DirNode::Other { name } => r@[k].name@ == name@ && !r@[k].is_directory,
                },
        decreases entries@.len() - i,
    {
        let e = match &entries[i] {
            DirNode::File { name } => DirectoryEntry { name: name.clone(), is_directory: false },
            DirNode::Dir { name, .. } => DirectoryEntry { name: name.clone(), is_directory: true },
            DirNode::Other { name } => DirectoryEntry { name: name.clone(), is_directory: false },
        };
        r.push(e);
        i = i + 1;
    }
    r
}

/// The names of the files among `entries`, in their order.
pub open spec fn file_names(entries: Seq<DirNode>) -> Seq<Seq<char>>
    decreases entries.len(),
{
    if entries.len() == 0 {
        Seq::<Seq<char>>::empty()
    } else {
        match entries.last() {
            DirNode::File { name } => file_names(entries.drop_last()).push(name@),
            _ => file_names(entries.drop_last()),
        }
    }
}

/// The names of the files in a directory whose entries as read are `listing`;
/// empty where it could not be read.
pub fn read_folder(listing: &Option<Vec<DirNode>>) -> (r: Vec<String>)
    ensures
        crate::tree::str_views(r@) == match listing {
            Some(es) => file_names(es@),
            None => Seq::<Seq<char>>::empty(),
        },
{
    let mut r: Vec<String> = Vec::new();
    match listing {
        None => {
            assert(crate::tree::str_views(r@) =~= Seq::<Seq<char>>::empty());
        },
        Some(es) => {
            let mut i: usize = 0;
            assert(es@.subrange(0, 0) =~= Seq::<DirNode>::empty());
            assert(crate::tree::str_views(r@) =~= Seq::<Seq<char>>::empty());
            while i < es.len()
                invariant
                    i <= es@.len(),
                    crate::tree::str_views(r@) == file_names(es@.subrange(0, i as int)),
                decreases es@.len() - i,
            {
                let ghost cur = es@.subrange(0, i + 1);
                assert(cur.drop_last() =~= es@.subrange(0, i as int));
                let ghost before = r@;
                match &es[i] {
                    DirNode::File { name } => {
                        r.push(name.clone());
                        assert(crate::tree::str_views(r@) =~= crate::tree::str_views(before).push(
                            name@,
                        ));
                    },
                    _ => {},
                }
                i = i + 1;
            }
            assert(es@.subrange(0, es@.len() as int) =~= es@);
        },
    }
    r
}

/// The stats of `path` from what its metadata says: whether it is a directory,
/// its size, and its modification time as seconds and nanoseconds after the
/// Unix epoch (`None` where it lies before the epoch).
/// A path with no final component gives `InvalidPath`; a time before the
/// epoch, or past what `i64` milliseconds hold, gives `IoError`.
pub fn stat(path: &str, is_directory: bool, size: u64, since_epoch: Option<(u64, u32)>) -> (r:
    Result<FileStats, FsError>)
    ensures
        match file_name_of(path@) {
            None => r == Err::<FileStats, FsError>(FsError::InvalidPath),
            Some(n) => match since_epoch {
                None => r == Err::<FileStats, FsError>(FsError::IoError),
                Some((secs, nanos)) => if millis_of(secs, nanos) > i64::MAX {
                    r == Err::<FileStats, FsError>(FsError::IoError)
                } else {
                    r matches Ok(st) && st.name@ == n && st.is_directory == is_directory
                        && st.size == size && st.modified == millis_of(secs, nanos)
                },
            },
        },
{
    let name = match file_name(path) {
        Some(n) => n,
        None => {
            return Err(FsError::InvalidPath);
        },
    };
    let (secs, nanos) = match since_epoch {
        Some(t) => t,
        None => {
            return Err(FsError::IoError);
        },
    };
    let whole: u64 = (nanos / 1_000_000) as u64;
    if secs > (i64::MAX as u64) / 1000 {
        return Err(FsError::IoError);
    }
    let ms: u64 = secs * 1000 + whole;
    if ms > i64::MAX as u64 {
        return Err(FsError::IoError);
    }
    Ok(FileStats { name, is_directory, size, modified: ms as i64 })
}

/// File contents as text: `InvalidEncoding` where they are not UTF-8.
pub fn text_from_bytes(bytes: Vec<u8>) -> (r: Result<String, FsError>)
    ensures
        valid_utf8(bytes@) ==> (r matches Ok(s) && s@ == decode_utf8(bytes@)),
        !valid_utf8(bytes@) ==> r == Err::<String, FsError>(FsError::InvalidEncoding),
{
    match utf8_string(bytes) {
        Some(s) => Ok(s),
        None => Err(FsError::InvalidEncoding),
    }
}

} // verus!
