use brdb::pending::BrPendingFs;
use brdb::unsaved::{split_on_slash, GridFiles, MetaFiles, UnsavedFiles, WorldFiles};

fn names(fs: &BrPendingFs) -> Vec<String> {
    match fs {
        BrPendingFs::Root(items) => items.iter().map(|(n, _)| n.clone()).collect(),
        BrPendingFs::Folder(Some(items)) => items.iter().map(|(n, _)| n.clone()).collect(),
        _ => panic!("not a listed folder"),
    }
}

fn bytes(fs: &BrPendingFs, path: &str) -> Option<Vec<u8>> {
    match fs.cd(path).unwrap() {
        BrPendingFs::File(c) => c.clone(),
        _ => panic!("not a file"),
    }
}

fn world(entity_chunks: Vec<(String, Vec<u8>)>) -> WorldFiles {
    WorldFiles {
        global_data_schema: vec![1],
        global_data: vec![2],
        owners_schema: vec![3],
        owners: vec![4],
        chunk_index_shared_schema: vec![5],
        chunks_shared_schema: vec![6],
        wires_shared_schema: vec![7],
        components_shared_schema: vec![8],
        grids: vec![(
            "1".to_string(),
            GridFiles {
                chunk_index: vec![9],
                chunks: vec![("0_0_0".to_string(), vec![10])],
                components: vec![],
                wires: vec![("0_0_0".to_string(), vec![11])],
            },
        )],
        entity_chunk_index_schema: vec![12],
        entity_chunk_index: vec![13],
        entity_chunks_schema: vec![14],
        entity_chunks,
    }
}

fn world_meta() -> MetaFiles {
    MetaFiles {
        bundle: b"{\"b\":1}".to_vec(),
        prefab: None,
        world: b"{\"w\":1}".to_vec(),
        screenshot: None,
        thumbnail: Some(vec![0x89]),
    }
}

#[test]
fn world_layout_puts_each_file_in_its_folder() {
    let fs = BrPendingFs::from_unsaved(UnsavedFiles {
        meta: world_meta(),
        worlds: vec![("0".to_string(), world(vec![]))],
        prefabs: vec![],
    });
    assert!(fs.is_root());
    assert_eq!(names(&fs), vec!["Meta", "World"]);
    assert_eq!(
        names(fs.cd("Meta").unwrap()),
        vec!["Bundle.json", "Screenshot.jpg", "Thumbnail.png", "World.json"]
    );
    assert_eq!(bytes(&fs, "Meta/Screenshot.jpg"), None);
    assert_eq!(bytes(&fs, "Meta/Thumbnail.png"), Some(vec![0x89]));
    assert_eq!(bytes(&fs, "Meta/World.json"), Some(b"{\"w\":1}".to_vec()));
    assert_eq!(
        names(fs.cd("World/0").unwrap()),
        vec!["GlobalData.schema", "GlobalData.mps", "Owners.schema", "Owners.mps", "Bricks", "Entities"]
    );
    assert_eq!(bytes(&fs, "World/0/Owners.mps"), Some(vec![4]));
    assert_eq!(
        names(fs.cd("World/0/Bricks").unwrap()),
        vec![
            "ChunkIndexShared.schema",
            "ChunksShared.schema",
            "WiresShared.schema",
            "ComponentsShared.schema",
            "Grids"
        ]
    );
    // a grid lists only its chunk folders that are not empty
    assert_eq!(names(fs.cd("World/0/Bricks/Grids/1").unwrap()), vec!["ChunkIndex.mps", "Chunks", "Wires"]);
    assert_eq!(bytes(&fs, "World/0/Bricks/Grids/1/Chunks/0_0_0.mps"), Some(vec![10]));
    assert_eq!(bytes(&fs, "World/0/Bricks/Grids/1/Wires/0_0_0.mps"), Some(vec![11]));
    // no entity chunks, no Chunks folder
    assert_eq!(
        names(fs.cd("World/0/Entities").unwrap()),
        vec!["ChunkIndex.schema", "ChunkIndex.mps", "ChunksShared.schema"]
    );
}

#[test]
fn entity_chunks_get_their_folder() {
    let fs = BrPendingFs::from_unsaved(UnsavedFiles {
        meta: world_meta(),
        worlds: vec![("0".to_string(), world(vec![("1_2_3".to_string(), vec![42])]))],
        prefabs: vec![],
    });
    assert_eq!(
        names(fs.cd("World/0/Entities").unwrap()),
        vec!["ChunkIndex.schema", "ChunkIndex.mps", "ChunksShared.schema", "Chunks"]
    );
    assert_eq!(bytes(&fs, "World/0/Entities/Chunks/1_2_3.mps"), Some(vec![42]));
}

#[test]
fn prefab_meta_has_no_world_file() {
    let mut meta = world_meta();
    meta.prefab = Some(b"{\"p\":1}".to_vec());
    let fs = BrPendingFs::from_unsaved(UnsavedFiles { meta, worlds: vec![], prefabs: vec![] });
    assert_eq!(names(fs.cd("Meta").unwrap()), vec!["Bundle.json", "Prefab.json", "Thumbnail.png"]);
    assert_eq!(bytes(&fs, "Meta/Prefab.json"), Some(b"{\"p\":1}".to_vec()));
    assert!(names(fs.cd("World").unwrap()).is_empty());
}

#[test]
fn embedded_prefabs_nest_and_share_folders() {
    let fs = BrPendingFs::from_unsaved(UnsavedFiles {
        meta: world_meta(),
        worlds: vec![],
        prefabs: vec![
            ("Prefabs/Uploads/a.brz".to_string(), vec![1]),
            ("Prefabs/Uploads/b.brz".to_string(), vec![2]),
            ("Prefabs/x.brz".to_string(), vec![3]),
        ],
    });
    assert_eq!(names(&fs), vec!["Meta", "World", "Prefabs"]);
    assert_eq!(names(fs.cd("Prefabs").unwrap()), vec!["Uploads", "x.brz"]);
    assert_eq!(names(fs.cd("Prefabs/Uploads").unwrap()), vec!["a.brz", "b.brz"]);
    assert_eq!(bytes(&fs, "Prefabs/Uploads/b.brz"), Some(vec![2]));
}

#[test]
fn split_on_slash_keeps_empty_pieces() {
    assert_eq!(split_on_slash("a//b/"), vec!["a", "", "b", ""]);
    assert_eq!(split_on_slash(""), vec![""]);
    assert_eq!(split_on_slash("one"), vec!["one"]);
}
