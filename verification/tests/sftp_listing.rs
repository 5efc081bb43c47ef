use std::path::Path;

use warp_ssh::process::CommandOutput;
use warp_ssh::sftp_listing::{
    directory_entries, directory_entries_in, directory_update, initial_entries,
    initial_listing, initial_listing_in, initial_root_path, initial_update, parse_remote_pwd, parse_sftp_ls, quote_sftp_path,
    remote_child_path, standardize_entries, update_for_directory,
    update_with_extensions, RepoMetadataUpdate, RepoNodeMetadata, SftpEntry,
    SftpError,
};

fn output(success: bool, stdout: &[u8], stderr: &[u8]) -> CommandOutput {
    CommandOutput { success, code: None, stdout: stdout.to_vec(), stderr: stderr.to_vec() }
}

fn entry(path: &str, is_dir: bool) -> SftpEntry {
    SftpEntry { path: path.to_string(), is_dir }
}

fn listed(output: &str, parent: &str) -> Vec<(String, bool)> {
    parse_sftp_ls(output, parent).into_iter().map(|e| (e.path, e.is_dir)).collect()
}

#[test]
fn parses_pwd() {
    assert_eq!(
        parse_remote_pwd("Remote working directory: /home/alice\n").as_deref(),
        Some("/home/alice")
    );
}

#[test]
fn parses_ls_entries() {
    let output = "\
drwxr-xr-x    2 alice users        4096 May 22 10:00 src
-rw-r--r--    1 alice users          12 May 22 10:00 README.md
lrwxrwxrwx    1 alice users           3 May 22 10:00 link -> src
";
    let entries = parse_sftp_ls(output, "/home/alice");
    assert_eq!(entries.len(), 3);
    assert_eq!(entries[0].path.as_str(), "/home/alice/src");
    assert!(entries[0].is_dir);
    assert_eq!(entries[1].path.as_str(), "/home/alice/README.md");
    assert!(!entries[1].is_dir);
    assert_eq!(entries[2].path.as_str(), "/home/alice/link");
}

#[test]
fn the_first_pwd_counts() {
    assert_eq!(parse_remote_pwd(""), None);
    assert_eq!(parse_remote_pwd("Remote working directory:/x\n"), None);
    assert_eq!(parse_remote_pwd(" Remote working directory: /x\n"), None);
    assert_eq!(
        parse_remote_pwd("sftp> pwd\r\nRemote working directory: \r\nRemote working directory:  /a b \r\nRemote working directory: /c")
            .as_deref(),
        Some("/a b")
    );
}

#[test]
fn lines_that_are_no_entries() {
    let output = "\
Connected to example.org.
sftp> pwd
Remote working directory: /home/alice
Changing to: /home
sftp> ls -la .
total 8
drwxr-xr-x    2 a b 1 May 22 10:00 .
drwxr-xr-x    2 a b 1 May 22 10:00 ..
-rw-r--r--    1 a b 1 May 22 10:00
crw-rw-rw-    1 a b 1 May 22 10:00 null

lrwxrwxrwx    1 a b 1 May 22 10:00 -> x
";
    assert_eq!(listed(output, "/"), [("/-> x".to_string(), false)]);
}

#[test]
fn names_of_entries() {
    let rows = "  -rw-r--r-- 1 a b 1 May 22 10:00 two  words.txt  \r\n\
d 1 2 3 4 5 6 7 x -> y -> z\n\
l 1 2 3 4 5 6 7 a->b\n\
-\u{a0}1\u{a0}2\u{a0}3\u{a0}4\u{a0}5\u{a0}6\u{a0}7\u{a0}\u{fc}ber";
    assert_eq!(
        listed(rows, "/p/"),
        [
            ("/p/two words.txt".to_string(), false),
            ("/p/x".to_string(), true),
            ("/p/a->b".to_string(), false),
            ("/p/\u{fc}ber".to_string(), false),
        ]
    );
}

#[test]
fn listings_go_line_by_line() {
    let first = "drwxr-xr-x 2 a b 1 May 22 10:00 one\n";
    let second = "-rw-r--r-- 2 a b 1 May 22 10:00 two\n";
    let mut expected = listed(first, "/p");
    expected.extend(listed(second, "/p"));
    assert_eq!(listed(&format!("{}{}", first, second), "/p"), expected);
    let pwd = "Remote working directory: /p\n";
    assert_eq!(listed(&format!("{}{}", pwd, first), "/p"), listed(first, "/p"));
}

#[test]
fn paths_of_children() {
    assert_eq!(remote_child_path("/", "x"), "/x");
    assert_eq!(remote_child_path("/a", "x"), "/a/x");
    assert_eq!(remote_child_path("/a//", "x"), "/a/x");
    assert_eq!(remote_child_path("//", "x"), "/x");
    assert_eq!(remote_child_path("", "x"), "/x");
}

#[test]
fn quoted_paths() {
    assert_eq!(quote_sftp_path(""), "\"\"");
    assert_eq!(quote_sftp_path("/a b"), "\"/a b\"");
    assert_eq!(quote_sftp_path("a\\\"b"), "\"a\\\\\\\"b\"");
    for path in ["", "/x", "\\", "\"", "\\\"", "a\\b\"c\\\\d", "\u{e9} \""] {
        let quoted = quote_sftp_path(path);
        let escaped = path.replace('\\', "\\\\").replace('"', "\\\"");
        assert_eq!(quoted, format!("\"{}\"", escaped));
        let mut read = String::new();
        let mut chars = quoted[1..quoted.len() - 1].chars();
        while let Some(c) = chars.next() {
            assert_ne!(c, '"');
            read.push(if c == '\\' { chars.next().unwrap() } else { c });
        }
        assert_eq!(read, path);
    }
}

#[test]
fn standardized_paths() {
    let entries = || vec![entry("/p//a", true), entry("/p/b", false), entry("/p/c", false)];
    let good = vec![Ok("/p/a".to_string()), Ok("/p/b".to_string()), Ok("/p/C".to_string())];
    let list = standardize_entries(entries(), good).unwrap();
    assert_eq!(list.len(), 3);
    assert_eq!((list[0].path.as_str(), list[0].is_dir), ("/p/a", true));
    assert_eq!((list[1].path.as_str(), list[1].is_dir), ("/p/b", false));
    assert_eq!((list[2].path.as_str(), list[2].is_dir), ("/p/C", false));

    let bad = vec![Ok("/p/a".to_string()), Err("odd".to_string()), Err("worse".to_string())];
    let error = standardize_entries(entries(), bad).unwrap_err();
    assert!(matches!(&error, SftpError::InvalidChildPath { path, cause }
        if path == "/p/b" && cause == "odd"));
    assert_eq!(error.message(), "invalid remote child path: /p/b: odd");
    assert!(standardize_entries(Vec::new(), Vec::new()).unwrap().is_empty());
}

#[test]
fn listings_that_fail() {
    let error = directory_entries(&output(false, b"", b"no\xff"), "/p").unwrap_err();
    assert!(matches!(&error, SftpError::ListFailed(text) if text == "no\u{fffd}"));
    assert_eq!(error.message(), "sftp ls failed: no\u{fffd}");
    let error = initial_listing(&output(false, b"", b"denied")).unwrap_err();
    assert!(matches!(&error, SftpError::InitialListFailed(text) if text == "denied"));
    assert_eq!(error.message(), "sftp initial list failed: denied");
    assert!(directory_entries_in(false, "", "x", "/p").is_err());
    assert!(initial_listing_in(false, "", "x").is_err());
    let error = initial_root_path("r", Err("not absolute".to_string())).unwrap_err();
    assert!(matches!(&error, SftpError::InvalidRootPath { path, cause }
        if path == "r" && cause == "not absolute"));
    assert_eq!(error.message(), "invalid remote root path: r: not absolute");
}

#[test]
fn listings_that_succeed() {
    let stdout = b"d 1 2 3 4 5 6 7 \xc3\xa9\xff\n";
    let entries = directory_entries(&output(true, stdout, b"noise"), "/p").unwrap();
    assert_eq!(entries.len(), 1);
    assert_eq!(entries[0].path, "/p/\u{e9}\u{fffd}");
    let entries = directory_entries_in(true, "- 1 2 3 4 5 6 7 f", "", "/p").unwrap();
    assert_eq!(entries[0].path, "/p/f");

    let listing = initial_listing(&output(true, b"Remote working directory: /h\n", b"")).unwrap();
    assert_eq!(listing.root, "/h");
    assert_eq!(listing.stdout, "Remote working directory: /h\n");
    let listing = initial_listing_in(true, "nothing", "").unwrap();
    assert_eq!(listing.root, "/");
    assert_eq!(initial_root_path("/h/", Ok("/h".to_string())).unwrap(), "/h");
}

fn only_extension(update: &RepoMetadataUpdate) -> Option<String> {
    match &update.update_entries[0].subtree_metadata[0] {
        RepoNodeMetadata::File(file) => file.extension.clone(),
        RepoNodeMetadata::Directory(_) => panic!("expected a file"),
    }
}

fn extension_in_tree(path: &str) -> Option<String> {
    let entries = vec![entry(path, false)];
    only_extension(&update_for_directory("/r".to_string(), "/r".to_string(), entries))
}

#[test]
fn extensions_are_those_of_the_machine() {
    for path in [
        "", "/", ".", "..", "a", "a.b", "/x/a.tar.gz", "/x/.bashrc", "/x/.a.b", "/x/a.", "/x/..a",
        "/x/a.b/", "/x/a.b/.", "/x/a.b/./", "/x/a.b/..", "/x.y/z", "./.", "/.", "//a.b//",
        "/x/...", "/x/a b.t t", "\u{e9}.\u{fc}", "/r/a.b\\c", "c:a.b", "\\\\s\\a.b", "/a.b\\",
    ] {
        let expected = Path::new(path).extension().and_then(|e| e.to_str()).map(str::to_owned);
        assert_eq!(extension_in_tree(path), expected, "{:?}", path);
    }
}

#[test]
fn extensions_that_every_machine_sees() {
    for (path, expected) in [
        ("/x/a.tar.gz", Some("gz")),
        ("/:x.gz", Some("gz")),
        ("/x/a.", Some("")),
        ("/x/..a", Some("a")),
        ("/x/a.b/./", Some("b")),
        ("/x/.bashrc", None),
        ("/x.y/z", None),
        ("/x/a.b/..", None),
        ("", None),
    ] {
        assert_eq!(extension_in_tree(path).as_deref(), expected, "{:?}", path);
    }
}

#[test]
fn given_extensions_are_kept() {
    let update = update_with_extensions(
        "/r".to_string(),
        "/r/d".to_string(),
        vec![entry("/r/d/a.b\\c", false), entry("/r/d/s.x", true), entry("/r/d/f.rs", false)],
        vec![Some("b\\c".to_string()), Some("x".to_string()), None],
    );
    assert_eq!(only_extension(&update).as_deref(), Some("b\\c"));
    let nodes = &update.update_entries[0].subtree_metadata;
    assert!(matches!(&nodes[1], RepoNodeMetadata::Directory(d)
        if d.path == "/r/d/s.x" && !d.ignored && !d.loaded));
    assert!(matches!(&nodes[2], RepoNodeMetadata::File(f)
        if f.path == "/r/d/f.rs" && f.extension.is_none() && !f.ignored));
}

#[test]
fn the_first_listing_is_its_own_root() {
    let stdout = "Remote working directory: /h/\nd 1 2 3 4 5 6 7 sub\n- 1 2 3 4 5 6 7 f.rs\n";
    let listing = initial_listing_in(true, stdout, "").unwrap();
    assert_eq!(listing.root, "/h/");
    let root = initial_root_path(&listing.root, Ok("/h".to_string())).unwrap();
    let entries = initial_entries(&listing, &root);
    assert_eq!(entries[0].path, "/h/sub");
    assert_eq!(entries[1].path, "/h/f.rs");
    let results = entries.iter().map(|e| Ok(e.path.clone())).collect();
    let update = initial_update(root.clone(), entries, results).unwrap();
    assert_eq!(update.repo_path, "/h");
    assert_eq!(update.update_entries[0].parent_path_to_replace, "/h");
    assert!(update.remove_entries.is_empty());
    assert_eq!(update.update_entries[0].subtree_metadata.len(), 2);
    let entries = initial_entries(&listing, &root);
    let results = vec![Ok("/h/sub".to_string()), Err("odd".to_string())];
    let error = initial_update(root, entries, results).unwrap_err();
    assert_eq!(error.message(), "invalid remote child path: /h/f.rs: odd");
}

#[test]
fn updates_of_the_tree() {
    let entries = vec![entry("/r/d/sub.d", true), entry("/r/d/f.rs", false), entry("/r/d/g", false)];
    let update = update_for_directory("/r".to_string(), "/r/d".to_string(), entries);
    assert_eq!(update.repo_path, "/r");
    assert!(update.remove_entries.is_empty());
    assert_eq!(update.update_entries.len(), 1);
    assert_eq!(update.update_entries[0].parent_path_to_replace, "/r/d");
    let nodes = &update.update_entries[0].subtree_metadata;
    assert_eq!(nodes.len(), 3);
    assert!(matches!(&nodes[0], RepoNodeMetadata::Directory(d)
        if d.path == "/r/d/sub.d" && !d.ignored && !d.loaded));
    assert!(matches!(&nodes[1], RepoNodeMetadata::File(f)
        if f.path == "/r/d/f.rs" && f.extension.as_deref() == Some("rs") && !f.ignored));
    assert!(matches!(&nodes[2], RepoNodeMetadata::File(f)
        if f.path == "/r/d/g" && f.extension.is_none() && !f.ignored));
}

#[test]
fn updates_need_usable_paths() {
    let update = directory_update(
        "/r".to_string(),
        "/r/d".to_string(),
        vec![entry("/r/d//x", false)],
        vec![Ok("/r/d/x.y".to_string())],
    )
    .unwrap();
    assert!(matches!(&update.update_entries[0].subtree_metadata[0], RepoNodeMetadata::File(f)
        if f.path == "/r/d/x.y" && f.extension.as_deref() == Some("y")));
    let error = directory_update(
        "/r".to_string(),
        "/r/d".to_string(),
        vec![entry("/r/d//x", false)],
        vec![Err("odd".to_string())],
    )
    .unwrap_err();
    assert_eq!(error.message(), "invalid remote child path: /r/d//x: odd");
}
