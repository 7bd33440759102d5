use fsbridge::error::FsError;
use fsbridge::fsops::{read_dir, read_folder, stat, text_from_bytes, DirectoryEntry};
use fsbridge::text::trim;
use fsbridge::tree::{
    has_extension, join_path, read_folder_recursive, read_folder_structure, DirNode, FolderEntry,
};

fn file(name: &str) -> DirNode {
    DirNode::File { name: name.to_string() }
}

fn dir(name: &str, entries: Vec<DirNode>) -> DirNode {
    DirNode::Dir { name: name.to_string(), entries: Some(entries) }
}

#[test]
fn recursive_listing_filters_by_suffix() {
    let listing = Some(vec![file("a.txt"), file("b.md"), dir("sub", vec![file("c.txt")])]);
    let exts = vec![".txt".to_string()];
    let mut found = read_folder_recursive("/root", &listing, &exts, '/');
    found.sort();
    assert_eq!(found, vec!["/root/a.txt".to_string(), "/root/sub/c.txt".to_string()]);
}

#[test]
fn recursive_listing_is_depth_first() {
    let listing = Some(vec![
        dir("d", vec![file("x.md"), dir("e", vec![file("y.md")])]),
        file("z.md"),
    ]);
    let exts = vec![".md".to_string(), ".txt".to_string()];
    let found = read_folder_recursive("r", &listing, &exts, '\\');
    assert_eq!(found, vec!["r\\d\\x.md", "r\\d\\e\\y.md", "r\\z.md"]);
}

#[test]
fn recursive_listing_without_suffixes_is_empty() {
    let listing = Some(vec![file("a.txt"), dir("sub", vec![file("c.txt")])]);
    assert!(read_folder_recursive("/root", &listing, &Vec::new(), '/').is_empty());
}

#[test]
fn recursive_listing_of_missing_root_is_empty() {
    let exts = vec![".txt".to_string()];
    assert!(read_folder_recursive("/nowhere", &None, &exts, '/').is_empty());
}

#[test]
fn recursive_listing_skips_unreadable_directory() {
    let listing = Some(vec![
        DirNode::Dir { name: "locked".to_string(), entries: None },
        file("a.txt"),
    ]);
    let exts = vec![".txt".to_string()];
    assert_eq!(read_folder_recursive("/r/", &listing, &exts, '/'), vec!["/r/a.txt"]);
}

#[test]
fn tree_of_one_file_and_one_empty_directory() {
    let listing = Some(vec![file("f"), dir("d", vec![])]);
    let tree = read_folder_structure("/root", &listing, '/');
    let expected = FolderEntry {
        name: "root".to_string(),
        is_file: false,
        path: "/root".to_string(),
        children: Some(vec![
            FolderEntry {
                name: "f".to_string(),
                is_file: true,
                path: "/root/f".to_string(),
                children: None,
            },
            FolderEntry {
                name: "d".to_string(),
                is_file: false,
                path: "/root/d".to_string(),
                children: Some(vec![]),
            },
        ]),
    };
    assert_eq!(tree, expected);
}

#[test]
fn tree_of_unreadable_root() {
    let tree = read_folder_structure("/", &None, '/');
    assert_eq!(tree.name, "");
    assert!(!tree.is_file);
    assert_eq!(tree.children, Some(vec![]));
}

#[test]
fn tree_skips_other_entries() {
    let listing = Some(vec![DirNode::Other { name: "sock".to_string() }, file("g")]);
    let tree = read_folder_structure("base", &listing, '/');
    let children = tree.children.unwrap();
    assert_eq!(children.len(), 1);
    assert_eq!(children[0].path, "base/g");
}

#[test]
fn join_cases() {
    assert_eq!(join_path("a", "b", '/'), "a/b");
    assert_eq!(join_path("a/", "b", '\\'), "a/b");
    assert_eq!(join_path("", "b", '/'), "b");
    assert_eq!(join_path("c:\\x", "b", '\\'), "c:\\x\\b");
}

#[test]
fn extension_matching() {
    let exts = vec![".txt".to_string(), ".md".to_string()];
    assert!(has_extension("notes.md", &exts));
    assert!(!has_extension("notes.mdx", &exts));
    assert!(!has_extension("x", &Vec::new()));
}

#[test]
fn folder_file_names() {
    let listing = Some(vec![file("a"), dir("b", vec![file("c")]), file("d")]);
    assert_eq!(read_folder(&listing), vec!["a", "d"]);
    assert!(read_folder(&None).is_empty());
}

#[test]
fn directory_entries() {
    let entries = vec![file("a"), dir("b", vec![]), DirNode::Other { name: "l".to_string() }];
    assert_eq!(
        read_dir(&entries),
        vec![
            DirectoryEntry { name: "a".to_string(), is_directory: false },
            DirectoryEntry { name: "b".to_string(), is_directory: true },
            DirectoryEntry { name: "l".to_string(), is_directory: false },
        ]
    );
}

#[test]
fn stat_of_file() {
    let st = stat("/tmp/x/data.bin", false, 42, Some((1_700_000_000, 123_456_789))).unwrap();
    assert_eq!(st.name, "data.bin");
    assert!(!st.is_directory);
    assert_eq!(st.size, 42);
    assert_eq!(st.modified, 1_700_000_000_123);
}

#[test]
fn stat_without_file_name() {
    assert_eq!(stat("/", true, 0, Some((1, 0))), Err(FsError::InvalidPath));
    assert_eq!(stat("", true, 0, Some((1, 0))), Err(FsError::InvalidPath));
}

#[test]
fn stat_before_epoch() {
    assert_eq!(stat("/a", false, 0, None), Err(FsError::IoError));
}

#[test]
fn stat_time_too_large() {
    assert_eq!(stat("/a", false, 0, Some((u64::MAX, 0))), Err(FsError::IoError));
    let max_secs = (i64::MAX as u64) / 1000;
    let st = stat("/a", false, 0, Some((max_secs, 0))).unwrap();
    assert_eq!(st.modified, (max_secs * 1000) as i64);
}

#[test]
fn text_decoding() {
    assert_eq!(text_from_bytes(b"abc".to_vec()), Ok("abc".to_string()));
    assert_eq!(text_from_bytes(vec![0xc3, 0x28]), Err(FsError::InvalidEncoding));
}

#[test]
fn trim_white_space() {
    assert_eq!(trim("\u{3000} a b \t\r\n"), "a b");
    assert_eq!(trim("   "), "");
}
