use vstd::prelude::*;

use crate::path::{file_name, file_name_of, is_sep};
use crate::text::{chars_end_with, chars_of, ends_with, starts_with, string_of};

verus! {

/// One entry of a directory as it was read from disk.
#[derive(Debug, PartialEq, Eq)]
pub enum DirNode {
    File { name: String },
    /// A directory with its entries, or `None` where they could not be read.
    Dir { name: String, entries: Option<Vec<DirNode>> },
    /// Neither a file nor a directory (a dangling link, a socket, ...).
    Other { name: String },
}

/// A directory tree for display: directories carry their children, files none.
#[derive(Debug, PartialEq, Eq)]
pub struct FolderEntry {
    pub name: String,
    pub is_file: bool,
    pub path: String,
    pub children: Option<Vec<FolderEntry>>,
}

/// The value that a `FolderEntry` stands for.
pub struct FolderView {
    pub name: Seq<char>,
    pub is_file: bool,
    pub path: Seq<char>,
    pub children: Option<Seq<FolderView>>,
}

pub open spec fn folder_view(e: FolderEntry) -> FolderView
    decreases e,
{
    FolderView {
        name: e.name@,
        is_file: e.is_file,
        path: e.path@,
        children: match e.children {
            Some(c) => Some(folder_views(c@)),
            None => None,
        },
    }
}

pub open spec fn folder_views(cs: Seq<FolderEntry>) -> Seq<FolderView>
    decreases cs,
{
    if cs.len() == 0 {
        Seq::<FolderView>::empty()
    } else {
        folder_views(cs.drop_last()).push(folder_view(cs.last()))
    }
}

/// `name` placed under the directory `dir`, as `PathBuf::push` does it: a
/// separator `sep` goes between them unless `dir` is empty or ends with one.
pub open spec fn joined(dir: Seq<char>, name: Seq<char>, sep: char) -> Seq<char> {
    if dir.len() == 0 {
        name
    } else if is_sep(dir.last()) {
        dir + name
    } else {
        dir.push(sep) + name
    }
}

pub open spec fn str_views(v: Seq<String>) -> Seq<Seq<char>> {
    v.map_values(|s: String| s@)
}

/// Whether `name` ends with one of the suffixes `exts`.
pub open spec fn matches_ext(name: Seq<char>, exts: Seq<Seq<char>>) -> bool {
    exists|i: int| 0 <= i < exts.len() && ends_with(name, #[trigger] exts[i])
}

/// The paths of the files under `dir`, depth first, whose names end with one
/// of `exts`; a directory whose entries could not be read adds nothing.
pub open spec fn files_in(
    dir: Seq<char>,
    entries: Seq<DirNode>,
    exts: Seq<Seq<char>>,
    sep: char,
) -> Seq<Seq<char>>
    decreases entries,
{
    if entries.len() == 0 {
        Seq::<Seq<char>>::empty()
    } else {
        let before = files_in(dir, entries.drop_last(), exts, sep);
        match entries.last() {
            DirNode::File { name } => if matches_ext(name@, exts) {
                before.push(joined(dir, name@, sep))
            } else {
                before
            },
            DirNode::Dir { name, entries: Some(sub) } => before + files_in(
                joined(dir, name@, sep),
                sub@,
                exts,
                sep,
            ),
            _ => before,
        }
    }
}

/// The tree entries for the entries of the directory `dir`, in their order.
pub open spec fn nodes_view(dir: Seq<char>, entries: Seq<DirNode>, sep: char) -> Seq<FolderView>
    decreases entries,
{
    if entries.len() == 0 {
        Seq::<FolderView>::empty()
    } else {
        let before = nodes_view(dir, entries.drop_last(), sep);
        match entries.last() {
            DirNode::File { name } => before.push(
                FolderView {
                    name: name@,
                    is_file: true,
                    path: joined(dir, name@, sep),
                    children: None,
                },
            ),
            DirNode::Dir { name, entries: sub } => before.push(
                FolderView {
                    name: name@,
                    is_file: false,
                    path: joined(dir, name@, sep),
                    children: Some(
                        match sub {
                            Some(v) => nodes_view(joined(dir, name@, sep), v@, sep),
                            None => Seq::<FolderView>::empty(),
                        },
                    ),
                },
            ),
            DirNode::Other { .. } => before,
        }
    }
}

/// The tree rooted at the directory `path` whose entries are `entries`
/// (`None`: they could not be read, and the root has no children).
pub open spec fn tree_spec(path: Seq<char>, entries: Option<Seq<DirNode>>, sep: char) -> FolderView {
    FolderView {
        name: match file_name_of(path) {
            Some(n) => n,
            None => Seq::<char>::empty(),
        },
        is_file: false,
        path: path,
        children: Some(
            match entries {
                Some(es) => nodes_view(path, es, sep),
                None => Seq::<FolderView>::empty(),
            },
        ),
    }
}

pub open spec fn listing_view(l: Option<Vec<DirNode>>) -> Option<Seq<DirNode>> {
    match l {
        Some(v) => Some(v@),
        None => None,
    }
}

/// `name` placed under the directory `dir`.
pub fn join_path(dir: &str, name: &str, sep: char) -> (r: String)
    ensures
        r@ == joined(dir@, name@, sep),
{
    let d = chars_of(dir);
    let n = chars_of(name);
    let mut out: Vec<char> = d.clone();
    if d.len() > 0 && !(d[d.len() - 1] == '/' || d[d.len() - 1] == '\\') {
        out.push(sep);
    }
    let ghost base = out@;
    let mut i: usize = 0;
    while i < n.len()
        invariant
            i <= n@.len(),
            out@ == base + n@.subrange(0, i as int),
        decreases n@.len() - i,
    {
        out.push(n[i]);
        i = i + 1;
        assert(out@ =~= base + n@.subrange(0, i as int));
    }
    assert(n@.subrange(0, n@.len() as int) =~= n@);
    if d.len() == 0 {
        assert(out@ =~= n@);
    }
    string_of(out.as_slice())
}

/// Whether `name` ends with one of the suffixes `exts`.
pub fn has_extension(name: &str, exts: &Vec<String>) -> (r: bool)
    ensures
        r == matches_ext(name@, str_views(exts@)),
{
    let n = chars_of(name);
    let mut i: usize = 0;
    while i < exts.len()
        invariant
            n@ == name@,
            i <= exts@.len(),
            forall|k: int| 0 <= k < i ==> !ends_with(name@, #[trigger] str_views(exts@)[k]),
        decreases exts@.len() - i,
    {
        let e = chars_of(exts[i].as_str());
        if chars_end_with(n.as_slice(), e.as_slice()) {
            assert(str_views(exts@)[i as int] == e@);
            return true;
        }
        i = i + 1;
    }
    false
}

fn collect_files(
    dir: &String,
    entries: &Vec<DirNode>,
    exts: &Vec<String>,
    sep: char,
    out: &mut Vec<String>,
)
    ensures
        str_views(final(out)@) == str_views(old(out)@) + files_in(
            dir@,
            entries@,
            str_views(exts@),
            sep,
        ),
    decreases entries,
{
    let ghost start = str_views(out@);
    let ghost xs = str_views(exts@);
    let mut i: usize = 0;
    assert(entries@.subrange(0, 0) =~= Seq::<DirNode>::empty());
    assert(start + Seq::<Seq<char>>::empty() =~= start);
    while i < entries.len()
        invariant
            i <= entries@.len(),
            start == str_views(old(out)@),
            xs == str_views(exts@),
            str_views(out@) == start + files_in(
                dir@,
                entries@.subrange(0, i as int),
                xs,
                sep,
            ),
        decreases entries@.len() - i,
    {
        let ghost pre = entries@.subrange(0, i as int);
        let ghost cur = entries@.subrange(0, i + 1);
        assert(cur.drop_last() =~= pre);
        assert(cur.last() == entries@[i as int]);
        let ghost before = str_views(out@);
        match &entries[i] {
            DirNode::File { name } => {
                if has_extension(name.as_str(), exts) {
                    let p = join_path(dir.as_str(), name.as_str(), sep);
                    out.push(p);
                    assert(str_views(out@) =~= before.push(p@));
                }
            },
            DirNode::Dir { name, entries: Some(sub) } => {
                let p = join_path(dir.as_str(), name.as_str(), sep);
                assert(decreases_to!(entries => entries@[i as int]));
                collect_files(&p, sub, exts, sep, out);
            },
            _ => {},
        }
        i = i + 1;
    }
    assert(entries@.subrange(0, entries@.len() as int) =~= entries@);
}

fn build_children(dir: &String, entries: &Vec<DirNode>, sep: char) -> (r: Vec<FolderEntry>)
    ensures
        folder_views(r@) == nodes_view(dir@, entries@, sep),
    decreases entries,
{
    let mut r: Vec<FolderEntry> = Vec::new();
    let mut i: usize = 0;
    assert(entries@.subrange(0, 0) =~= Seq::<DirNode>::empty());
    while i < entries.len()
        invariant
            i <= entries@.len(),
            folder_views(r@) == nodes_view(dir@, entries@.subrange(0, i as int), sep),
        decreases entries@.len() - i,
    {
        let ghost pre = entries@.subrange(0, i as int);
        let ghost cur = entries@.subrange(0, i + 1);
        assert(cur.drop_last() =~= pre);
        assert(cur.last() == entries@[i as int]);
        let ghost old_r = r@;
        match &entries[i] {
            DirNode::File { name } => {
                let p = join_path(dir.as_str(), name.as_str(), sep);
                r.push(FolderEntry { name: name.clone(), is_file: true, path: p, children: None });
                assert(r@.drop_last() =~= old_r);
                assert(folder_views(r@) == folder_views(old_r).push(folder_view(r@.last())));
            },
            DirNode::Dir { name, entries: sub } => {
                let p = join_path(dir.as_str(), name.as_str(), sep);
                let children = match sub {
                    Some(v) => {
                        assert(decreases_to!(entries => entries@[i as int]));
                        build_children(&p, v, sep)
                    },
                    None => Vec::new(),
                };
                r.push(
                    FolderEntry { name: name.clone(), is_file: false, path: p, children: Some(children) },
                );
                assert(r@.drop_last() =~= old_r);
                assert(folder_views(children@) == match sub {
                    Some(v) => nodes_view(joined(dir@, name@, sep), v@, sep),
                    None => Seq::<FolderView>::empty(),
                });
                assert(folder_views(r@) == folder_views(old_r).push(folder_view(r@.last())));
            },
            DirNode::Other { .. } => {},
        }
        assert(folder_views(r@) == nodes_view(dir@, cur, sep));
        i = i + 1;
    }
    assert(entries@.subrange(0, entries@.len() as int) =~= entries@);
    r
}

/// The paths of the files under the directory `path`, depth first, whose
/// names end with one of `file_exts`, each joined with the separator `sep`.
/// `listing` holds the directory's entries as read; where it is `None` (no
/// such directory, or not readable) the list is empty.
pub fn read_folder_recursive(
    path: &str,
    listing: &Option<Vec<DirNode>>,
    file_exts: &Vec<String>,
    sep: char,
) -> (r: Vec<String>)
    ensures
        str_views(r@) == match listing {
            Some(es) => files_in(path@, es@, str_views(file_exts@), sep),
            None => Seq::<Seq<char>>::empty(),
        },
{
    let mut out: Vec<String> = Vec::new();
    assert(str_views(out@) =~= Seq::<Seq<char>>::empty());
    match listing {
        Some(es) => {
            let dir = string_of(chars_of(path).as_slice());
            collect_files(&dir, es, file_exts, sep, &mut out);
            assert(str_views(out@) =~= files_in(path@, es@, str_views(file_exts@), sep));
        },
        None => {},
    }
    out
}

/// The tree rooted at the directory `path`, whose entries as read are
/// `listing`; children are joined to their parent with the separator `sep`.
pub fn read_folder_structure(path: &str, listing: &Option<Vec<DirNode>>, sep: char) -> (r:
    FolderEntry)
    ensures
        folder_view(r) == tree_spec(path@, listing_view(*listing), sep),
{
    let dir = string_of(chars_of(path).as_slice());
    let name = match file_name(path) {
        Some(n) => n,
        None => string_of(Vec::<char>::new().as_slice()),
    };
    let children = match listing {
        Some(es) => build_children(&dir, es, sep),
        None => Vec::new(),
    };
    let r = FolderEntry { name, is_file: false, path: dir, children: Some(children) };
    assert(folder_view(r).children == tree_spec(path@, listing_view(*listing), sep).children);
    r
}

/// With no suffixes to match, the recursive listing finds no file.
pub proof fn lemma_no_extensions_no_files(dir: Seq<char>, entries: Seq<DirNode>, sep: char)
    ensures
        files_in(dir, entries, Seq::<Seq<char>>::empty(), sep) == Seq::<Seq<char>>::empty(),
    decreases entries,
{
    if entries.len() > 0 {
        lemma_no_extensions_no_files(dir, entries.drop_last(), sep);
        match entries.last() {
            DirNode::Dir { name, entries: Some(sub) } => {
                lemma_no_extensions_no_files(joined(dir, name@, sep), sub@, sep);
                assert(Seq::<Seq<char>>::empty() + Seq::<Seq<char>>::empty() =~= Seq::<
                    Seq<char>,
                >::empty());
            },
            _ => {},
        }
    }
}

proof fn lemma_joined_keeps_suffix(dir: Seq<char>, name: Seq<char>, sep: char, e: Seq<char>)
    requires
        ends_with(name, e),
    ensures
        ends_with(joined(dir, name, sep), e),
{
    let j = joined(dir, name, sep);
    let front = j.subrange(0, j.len() - name.len());
    assert(j =~= front + name);
    assert(j.subrange(j.len() - e.len(), j.len() as int) =~= name.subrange(
        name.len() - e.len(),
        name.len() as int,
    ));
}

/// Every path that the recursive listing gives ends with one of the suffixes.
pub proof fn lemma_listed_files_match(
    dir: Seq<char>,
    entries: Seq<DirNode>,
    exts: Seq<Seq<char>>,
    sep: char,
)
    ensures
        forall|k: int|
            0 <= k < files_in(dir, entries, exts, sep).len() ==> matches_ext(
                #[trigger] files_in(dir, entries, exts, sep)[k],
                exts,
            ),
    decreases entries,
{
    if entries.len() > 0 {
        let before = files_in(dir, entries.drop_last(), exts, sep);
        lemma_listed_files_match(dir, entries.drop_last(), exts, sep);
        assert(forall|k: int| 0 <= k < before.len() ==> matches_ext(#[trigger] before[k], exts));
        match entries.last() {
            DirNode::File { name } => {
                if matches_ext(name@, exts) {
                    let i = choose|i: int| 0 <= i < exts.len() && ends_with(name@, #[trigger] exts[i]);
                    lemma_joined_keeps_suffix(dir, name@, sep, exts[i]);
                    let all = before.push(joined(dir, name@, sep));
                    assert forall|k: int| 0 <= k < all.len() implies matches_ext(
                        #[trigger] all[k],
                        exts,
                    ) by {
                        if k < before.len() {
                            assert(all[k] == before[k]);
                        }
                    }
                }
            },
            DirNode::Dir { name, entries: Some(sub) } => {
                let inner = files_in(joined(dir, name@, sep), sub@, exts, sep);
                lemma_listed_files_match(joined(dir, name@, sep), sub@, exts, sep);
                assert(forall|k: int| 0 <= k < inner.len() ==> matches_ext(#[trigger] inner[k], exts));
                let all = before + inner;
                assert forall|k: int| 0 <= k < all.len() implies matches_ext(
                    #[trigger] all[k],
                    exts,
                ) by {
                    if k < before.len() {
                        assert(all[k] == before[k]);
                    } else {
                        assert(all[k] == inner[k - before.len()]);
                    }
                }
            },
            _ => {},
        }
    }
}

proof fn lemma_joined_extends_dir(dir: Seq<char>, name: Seq<char>, sep: char)
    ensures
        starts_with(joined(dir, name, sep), dir),
{
    let j = joined(dir, name, sep);
    if dir.len() == 0 {
        assert(j.subrange(0, 0) =~= dir);
    } else {
        assert(j.subrange(0, dir.len() as int) =~= dir);
    }
}

proof fn lemma_starts_with_trans(a: Seq<char>, b: Seq<char>, c: Seq<char>)
    requires
        starts_with(a, b),
        starts_with(b, c),
    ensures
        starts_with(a, c),
{
    assert(a.subrange(0, c.len() as int) =~= b.subrange(0, c.len() as int));
}

/// Every path that the recursive listing gives begins with the root it was given.
pub proof fn lemma_listed_files_under_root(
    dir: Seq<char>,
    entries: Seq<DirNode>,
    exts: Seq<Seq<char>>,
    sep: char,
)
    ensures
        forall|k: int|
            0 <= k < files_in(dir, entries, exts, sep).len() ==> starts_with(
                #[trigger] files_in(dir, entries, exts, sep)[k],
                dir,
            ),
    decreases entries,
{
    if entries.len() > 0 {
        let before = files_in(dir, entries.drop_last(), exts, sep);
        lemma_listed_files_under_root(dir, entries.drop_last(), exts, sep);
        assert(forall|k: int| 0 <= k < before.len() ==> starts_with(#[trigger] before[k], dir));
        match entries.last() {
            DirNode::File { name } => {
                lemma_joined_extends_dir(dir, name@, sep);
                if matches_ext(name@, exts) {
                    let all = before.push(joined(dir, name@, sep));
                    assert forall|k: int| 0 <= k < all.len() implies starts_with(
                        #[trigger] all[k],
                        dir,
                    ) by {
                        if k < before.len() {
                            assert(all[k] == before[k]);
                        }
                    }
                }
            },
            DirNode::Dir { name, entries: Some(sub) } => {
                let child = joined(dir, name@, sep);
                let inner = files_in(child, sub@, exts, sep);
                lemma_joined_extends_dir(dir, name@, sep);
                lemma_listed_files_under_root(child, sub@, exts, sep);
                assert(forall|k: int| 0 <= k < inner.len() ==> starts_with(#[trigger] inner[k], child));
                let all = before + inner;
                assert forall|k: int| 0 <= k < all.len() implies starts_with(
                    #[trigger] all[k],
                    dir,
                ) by {
                    if k < before.len() {
                        assert(all[k] == before[k]);
                    } else {
                        assert(all[k] == inner[k - before.len()]);
                        lemma_starts_with_trans(all[k], child, dir);
                    }
                }
            },
            _ => {},
        }
    }
}

} // verus!
