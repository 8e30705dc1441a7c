use fs_tree::entry::{Directory, Entry, EntryTree};
use fs_tree::fs::{FsError, FsModel};

fn file(contents: &str) -> EntryTree {
    EntryTree::File { contents: String::from(contents) }
}

fn dir(children: Vec<(String, EntryTree)>) -> EntryTree {
    EntryTree::Directory(Directory { children })
}

fn path(segs: &[&str]) -> Vec<String> {
    segs.iter().map(|s| String::from(*s)).collect()
}

#[test]
fn file_create() {
    let mut fs = FsModel::new();
    let p = path(&["test_file"]);
    assert!(!fs.contains_path(&p), "'test_file' exist before test ran");

    let entry = String::from("Hello World!");
    entry.create(&mut fs, &p).expect("should have created 'test_file'");
    assert!(fs.contains_path(&p), "'test_file' does not exists");

    let read_file_contents = fs.read_file(&p).expect("should have been able to read the file");
    assert_eq!(
        read_file_contents, "Hello World!",
        "'test_file' does not contain the correct contents"
    );
}

#[test]
fn directory_create() {
    let mut fs = FsModel::new();
    let p = path(&["test_directory"]);
    assert!(!fs.contains_path(&p), "test is invalid, 'test_directory' already exists");

    let entry = Directory { children: vec![] };
    entry.create(&mut fs, &p).expect("couldn't create 'test_directory'");
    assert!(fs.is_dir(&p), "didn't create 'test_directory'");
}

#[test]
fn sub_directories_create() {
    let mut fs = FsModel::new();
    let p = path(&["test_directory"]);
    assert!(!fs.contains_path(&p), "test is invalid, 'test_directory' already exists");

    let names = ["a", "b", "c"];
    let children: Vec<(String, EntryTree)> =
        names.iter().map(|n| (String::from(*n), dir(vec![]))).collect();
    let entry = dir(children);
    entry.create(&mut fs, &p).expect("couldn't create 'test_directory'");
    assert!(fs.is_dir(&p), "didn't create 'test_directory'");

    for name in names {
        assert!(fs.is_dir(&path(&["test_directory", name])), "didn't create 'test_directory/{name}'");
    }
}

#[test]
fn sub_files_create() {
    let mut fs = FsModel::new();
    let p = path(&["test_directory"]);
    assert!(!fs.contains_path(&p), "test is invalid, 'test_directory' already exists");

    let names = ["a", "b", "c"];
    let children: Vec<(String, EntryTree)> =
        names.iter().map(|n| (String::from(*n), file(n))).collect();
    let entry = dir(children);
    entry.create(&mut fs, &p).expect("couldn't create 'test_directory'");
    assert!(fs.is_dir(&p), "didn't create 'test_directory'");

    for name in names {
        let local_path = path(&["test_directory", name]);
        assert!(fs.contains_path(&local_path), "didn't create 'test_directory/{name}'");
        let read_file_contents =
            fs.read_file(&local_path).expect("should have been able to read the file");
        assert_eq!(
            read_file_contents, name,
            "'test_directory/{name}' does not contain the correct contents"
        );
    }
}

#[test]
fn create_at_existing_path_fails_without_mutation() {
    let mut fs = FsModel::new();
    let p = path(&["taken"]);
    file("original").create(&mut fs, &p).expect("first create should succeed");

    let second = dir(vec![(String::from("child"), file("x"))]);
    assert_eq!(second.create(&mut fs, &p), Err(FsError::AlreadyExists));
    assert_eq!(fs.read_file(&p).expect("file should still be there"), "original");
    assert!(!fs.contains_path(&path(&["taken", "child"])));

    assert_eq!(file("again").create(&mut fs, &p), Err(FsError::AlreadyExists));
    assert_eq!(fs.read_file(&p).expect("file should still be there"), "original");
}

#[test]
fn create_at_root_fails() {
    let mut fs = FsModel::new();
    let empty: Vec<String> = vec![];
    assert_eq!(dir(vec![]).create(&mut fs, &empty), Err(FsError::AlreadyExists));
    assert_eq!(file("x").create(&mut fs, &empty), Err(FsError::AlreadyExists));
}

#[test]
fn create_under_missing_parent_fails() {
    let mut fs = FsModel::new();
    let p = path(&["missing", "x"]);
    assert_eq!(file("x").create(&mut fs, &p), Err(FsError::NotFound));
    assert!(!fs.contains_path(&p));
    assert_eq!(dir(vec![]).create(&mut fs, &p), Err(FsError::NotFound));
    assert!(!fs.contains_path(&p));
}

#[test]
fn nested_tree_creates_whole_subtree() {
    let mut fs = FsModel::new();
    let entry = dir(vec![
        (
            String::from("sub"),
            dir(vec![
                (String::from("leaf"), file("deep contents")),
                (String::from("inner"), dir(vec![])),
            ]),
        ),
        (String::from("top"), file("top contents")),
    ]);
    entry.create(&mut fs, &path(&["root"])).expect("nested create should succeed");

    assert!(fs.is_dir(&path(&["root"])));
    assert!(fs.is_dir(&path(&["root", "sub"])));
    assert!(fs.is_dir(&path(&["root", "sub", "inner"])));
    assert_eq!(fs.read_file(&path(&["root", "sub", "leaf"])).unwrap(), "deep contents");
    assert_eq!(fs.read_file(&path(&["root", "top"])).unwrap(), "top contents");
}

#[test]
fn sibling_files_keep_their_own_contents_in_any_order() {
    let orders: [[&str; 3]; 2] = [["a", "b", "c"], ["c", "a", "b"]];
    for order in orders {
        let mut fs = FsModel::new();
        let children: Vec<(String, EntryTree)> =
            order.iter().map(|n| (String::from(*n), file(n))).collect();
        dir(children).create(&mut fs, &path(&["d"])).expect("create should succeed");
        for name in ["a", "b", "c"] {
            assert_eq!(fs.read_file(&path(&["d", name])).unwrap(), name);
        }
    }
}

#[test]
fn duplicate_child_names_fail_after_first() {
    let mut fs = FsModel::new();
    let entry = dir(vec![
        (String::from("dup"), file("first")),
        (String::from("dup"), file("second")),
    ]);
    assert_eq!(entry.create(&mut fs, &path(&["d"])), Err(FsError::AlreadyExists));
    assert_eq!(fs.read_file(&path(&["d", "dup"])).unwrap(), "first");
}

#[test]
fn empty_directory_in_fresh_temp_root() {
    let mut fs = FsModel::new();
    dir(vec![]).create(&mut fs, &path(&["tmp"])).expect("temp root");
    dir(vec![]).create(&mut fs, &path(&["tmp", "x"])).expect("temp subdir");

    let target = path(&["tmp", "x", "test_directory"]);
    assert!(!fs.contains_path(&target));
    dir(vec![]).create(&mut fs, &target).expect("couldn't create 'test_directory'");
    assert!(fs.is_dir(&target));
    assert!(!fs.contains_path(&path(&["tmp", "x", "test_directory", "anything"])));
}

#[test]
fn hello_world_file_in_fresh_temp_root() {
    let mut fs = FsModel::new();
    dir(vec![]).create(&mut fs, &path(&["tmp"])).expect("temp root");
    dir(vec![]).create(&mut fs, &path(&["tmp", "x"])).expect("temp subdir");

    let target = path(&["tmp", "x", "test_file"]);
    file("Hello World!").create(&mut fs, &target).expect("couldn't create 'test_file'");
    assert_eq!(fs.read_file(&target).unwrap(), "Hello World!");
}
