use fs_tree::entry::{Directory, Entry, EntryTree};
use fs_tree::fs::{Action, FsError, FsModel};

fn file(contents: &str) -> EntryTree {
    EntryTree::File { contents: String::from(contents) }
}

fn dir(children: Vec<(String, EntryTree)>) -> EntryTree {
    EntryTree::Directory(Directory { children })
}

fn path(segs: &[&str]) -> Vec<String> {
    segs.iter().map(|s| String::from(*s)).collect()
}

#[test]
fn plan_of_file_is_one_write() {
    let actions = file("hi").plan(&path(&["f"]));
    assert_eq!(
        actions,
        vec![Action::WriteFile { path: path(&["f"]), contents: String::from("hi") }]
    );
}

#[test]
fn plan_of_directory_puts_parent_before_children() {
    let entry = dir(vec![
        (String::from("a"), file("x")),
        (String::from("b"), dir(vec![(String::from("c"), file("y"))])),
    ]);
    let actions = entry.plan(&path(&["root"]));
    assert_eq!(
        actions,
        vec![
            Action::MakeDir { path: path(&["root"]) },
            Action::WriteFile { path: path(&["root", "a"]), contents: String::from("x") },
            Action::MakeDir { path: path(&["root", "b"]) },
            Action::WriteFile {
                path: path(&["root", "b", "c"]),
                contents: String::from("y"),
            },
        ]
    );
}

#[test]
fn running_the_plan_matches_create() {
    let entry = dir(vec![
        (String::from("sub"), dir(vec![(String::from("leaf"), file("deep"))])),
        (String::from("top"), file("t")),
    ]);
    let target = path(&["root"]);

    let mut by_create = FsModel::new();
    let r1 = entry.create(&mut by_create, &target);

    let mut by_plan = FsModel::new();
    let actions = entry.plan(&target);
    let r2 = by_plan.run(&actions);

    assert_eq!(r1, r2);
    for p in [
        path(&["root"]),
        path(&["root", "sub"]),
        path(&["root", "sub", "leaf"]),
        path(&["root", "top"]),
    ] {
        assert_eq!(by_create.contains_path(&p), by_plan.contains_path(&p));
        assert_eq!(by_create.is_dir(&p), by_plan.is_dir(&p));
        assert_eq!(by_create.read_file(&p), by_plan.read_file(&p));
    }
    assert_eq!(by_plan.read_file(&path(&["root", "sub", "leaf"])).unwrap(), "deep");
}

#[test]
fn run_stops_at_first_failure() {
    let mut fs = FsModel::new();
    let actions = vec![
        Action::MakeDir { path: path(&["d"]) },
        Action::WriteFile { path: path(&["missing", "f"]), contents: String::from("x") },
        Action::MakeDir { path: path(&["e"]) },
    ];
    assert_eq!(fs.run(&actions), Err(FsError::NotFound));
    assert!(fs.is_dir(&path(&["d"])));
    assert!(!fs.contains_path(&path(&["missing", "f"])));
    assert!(!fs.contains_path(&path(&["e"])));
}

#[test]
fn apply_reports_existing_target() {
    let mut fs = FsModel::new();
    let make = Action::MakeDir { path: path(&["d"]) };
    assert_eq!(fs.apply(&make), Ok(()));
    assert_eq!(fs.apply(&make), Err(FsError::AlreadyExists));
    assert_eq!(
        fs.apply(&Action::WriteFile { path: path(&["d"]), contents: String::from("x") }),
        Err(FsError::AlreadyExists)
    );
    assert!(fs.is_dir(&path(&["d"])));
}
