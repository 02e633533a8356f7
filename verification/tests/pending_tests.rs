use brdb::errors::BrFsError;
use brdb::insert::insert_path;
use brdb::pending::BrPendingFs;

fn file(b: &[u8]) -> BrPendingFs {
    BrPendingFs::File(Some(b.to_vec()))
}

fn sample() -> BrPendingFs {
    BrPendingFs::Root(vec![
        (
            "Meta".to_string(),
            BrPendingFs::Folder(Some(vec![("World.json".to_string(), file(b"{}"))])),
        ),
        (
            "World".to_string(),
            BrPendingFs::Folder(Some(vec![(
                "0".to_string(),
                BrPendingFs::Folder(Some(vec![("Owners.mps".to_string(), file(b"abc"))])),
            )])),
        ),
        ("Keep".to_string(), BrPendingFs::Folder(None)),
    ])
}

#[test]
fn cd_follows_paths_and_skips_empty_pieces() {
    let fs = sample();
    let f = fs.cd("/World//0/Owners.mps").unwrap();
    assert!(matches!(f, BrPendingFs::File(Some(v)) if v == b"abc"));
    assert!(fs.cd("").unwrap().is_root());
    assert_eq!(fs.cd("World/1").unwrap_err(), BrFsError::NotFound("1".to_string()));
    assert_eq!(fs.cd("Meta/World.json/x").unwrap_err(), BrFsError::NotFound("x".to_string()));
    assert_eq!(
        fs.cd("Meta/World.json/x/y").unwrap_err(),
        BrFsError::ExpectedDirectory("x".to_string())
    );
    assert_eq!(fs.cd("Keep/x").unwrap_err(), BrFsError::NotFound("x".to_string()));
}

#[test]
fn cd_owned_and_cd_mut_agree_with_cd() {
    let mut fs = sample();
    {
        let f = fs.cd_mut("World/0/Owners.mps").unwrap();
        *f = file(b"xyz");
    }
    assert!(matches!(fs.cd("World/0/Owners.mps").unwrap(), BrPendingFs::File(Some(v)) if v == b"xyz"));
    assert_eq!(fs.cd_mut("nope").unwrap_err(), BrFsError::NotFound("nope".to_string()));
    let owned = fs.cd_owned("Meta").unwrap();
    assert_eq!(owned.to_folder().unwrap().len(), 1);
}

#[test]
fn conversions_pick_the_matching_variant() {
    assert_eq!(sample().to_root().unwrap().len(), 3);
    assert!(sample().to_folder().is_none());
    assert!(sample().to_file().is_none());
    assert_eq!(file(b"q").to_file().unwrap(), b"q".to_vec());
    assert!(BrPendingFs::Folder(None).to_folder().is_none());
    assert!(!file(b"").is_root());
}

#[test]
fn patch_replaces_files_merges_folders_and_appends_new_entries() {
    let patch = BrPendingFs::Root(vec![
        (
            "World".to_string(),
            BrPendingFs::Folder(Some(vec![(
                "0".to_string(),
                BrPendingFs::Folder(Some(vec![
                    ("Owners.mps".to_string(), file(b"new")),
                    ("Extra".to_string(), file(b"e")),
                ])),
            )])),
        ),
        ("Keep".to_string(), BrPendingFs::Folder(Some(vec![("k".to_string(), file(b"k"))]))),
        ("Meta".to_string(), BrPendingFs::Folder(None)),
        ("Added".to_string(), file(b"1")),
        ("Added".to_string(), file(b"2")),
    ]);
    let fs = sample().with_patch(patch).unwrap();
    assert!(matches!(fs.cd("World/0/Owners.mps").unwrap(), BrPendingFs::File(Some(v)) if v == b"new"));
    assert!(matches!(fs.cd("World/0/Extra").unwrap(), BrPendingFs::File(Some(v)) if v == b"e"));
    assert!(matches!(fs.cd("Keep/k").unwrap(), BrPendingFs::File(Some(v)) if v == b"k"));
    assert!(matches!(fs.cd("Meta/World.json").unwrap(), BrPendingFs::File(Some(v)) if v == b"{}"));
    // Of two patch entries with one name, the last is applied, once.
    let root = fs.to_root().unwrap();
    let names: Vec<&str> = root.iter().map(|(n, _)| n.as_str()).collect();
    assert_eq!(names, vec!["Meta", "World", "Keep", "Added"]);
    assert!(matches!(&root[3].1, BrPendingFs::File(Some(v)) if v == b"2"));
}

#[test]
fn patch_none_leaves_files_alone() {
    let mut fs = file(b"old");
    fs.patch(BrPendingFs::File(None)).unwrap();
    assert_eq!(fs.to_file().unwrap(), b"old".to_vec());
}

#[test]
fn patch_conflict_reports_both_sides() {
    let mut fs = sample();
    let err = fs
        .patch(BrPendingFs::Root(vec![("Meta".to_string(), file(b"abcd"))]))
        .unwrap_err();
    assert_eq!(
        err,
        BrFsError::InvalidStructure("[World.json (2)]".to_string(), "(4)".to_string())
    );
    let err = file(b"x").with_patch(BrPendingFs::Folder(None)).unwrap_err();
    assert_eq!(err, BrFsError::InvalidStructure("(1)".to_string(), "[empty]".to_string()));
}

#[test]
fn text_form_lists_entries() {
    assert_eq!(sample().to_string(), "[Meta [World.json (2)], World [0 [Owners.mps (3)]], Keep [empty]]");
    assert_eq!(BrPendingFs::File(None).to_string(), "()");
    assert_eq!(BrPendingFs::Root(vec![]).to_string(), "[]");
    assert_eq!(file(&[0u8; 1234]).to_string(), "(1234)");
}

#[test]
fn insert_path_creates_and_reuses_folders() {
    let mut tree = vec![("Prefabs".to_string(), BrPendingFs::Folder(Some(vec![])))];
    insert_path(&mut tree, &["Prefabs", "Uploads", "a.brz"], vec![1]);
    insert_path(&mut tree, &["Prefabs", "Uploads", "b.brz"], vec![2]);
    insert_path(&mut tree, &["top.bin"], vec![3]);
    let root = BrPendingFs::Root(tree);
    assert!(matches!(root.cd("Prefabs/Uploads/a.brz").unwrap(), BrPendingFs::File(Some(v)) if v == &vec![1]));
    assert!(matches!(root.cd("Prefabs/Uploads/b.brz").unwrap(), BrPendingFs::File(Some(v)) if v == &vec![2]));
    assert!(matches!(root.cd("top.bin").unwrap(), BrPendingFs::File(Some(v)) if v == &vec![3]));
    let items = root.to_root().unwrap();
    assert_eq!(items.len(), 2);
    let prefabs = items.into_iter().next().unwrap().1.to_folder().unwrap();
    assert_eq!(prefabs.len(), 1);
}

#[test]
fn a_cloned_tree_holds_the_same_files() {
    let fs = sample();
    let copy = fs.clone();
    let f = copy.cd("World/0/Owners.mps").unwrap();
    assert!(matches!(f, BrPendingFs::File(Some(v)) if v == b"abc"));
    assert!(matches!(copy.cd("Keep").unwrap(), BrPendingFs::Folder(None)));
    let g = fs.cd("Meta/World.json").unwrap();
    assert!(matches!(g, BrPendingFs::File(Some(v)) if v == b"{}"));
}
