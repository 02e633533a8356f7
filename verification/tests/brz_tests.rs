use brdb::brz::{Brz, BrzArchiveHeader, CompressionMethod, FormatVersion};
use brdb::errors::{BrError, BrFsError, BrzError};
use brdb::index::BrzIndexData;
use brdb::pending::BrPendingFs;

fn empty_index() -> BrzIndexData {
    BrzIndexData {
        num_folders: 0,
        num_files: 0,
        num_blobs: 0,
        folder_parent_ids: vec![],
        folder_names: vec![],
        file_parent_ids: vec![],
        file_content_ids: vec![],
        file_names: vec![],
        compression_methods: vec![],
        sizes_uncompressed: vec![],
        sizes_compressed: vec![],
        blob_hashes: vec![],
        blob_ranges: vec![],
        blob_total_size: 0,
    }
}

#[test]
fn test_read_write() {
    let empty = Brz {
        index_data: BrzIndexData::default(),
        blob_data: Vec::new(),
    };

    let buf_uncompressed = empty.to_vec(None).unwrap();
    let out_uncompressed = Brz::read_slice(&buf_uncompressed).unwrap();
    assert_eq!(out_uncompressed.blob_data.len(), 0);
    assert_eq!(out_uncompressed.index_data.num_folders, 0);
    assert_eq!(out_uncompressed.index_data.num_files, 0);
    assert_eq!(out_uncompressed.index_data.num_blobs, 0);
    assert_eq!(out_uncompressed.index_data.folder_parent_ids.len(), 0);
    assert_eq!(out_uncompressed.index_data.folder_names.len(), 0);
    assert_eq!(out_uncompressed.index_data.file_parent_ids.len(), 0);
    assert_eq!(out_uncompressed.index_data.file_content_ids.len(), 0);
    assert_eq!(out_uncompressed.index_data.file_names.len(), 0);
    assert_eq!(out_uncompressed.index_data.compression_methods.len(), 0);
    assert_eq!(out_uncompressed.index_data.sizes_uncompressed.len(), 0);
    assert_eq!(out_uncompressed.index_data.sizes_compressed.len(), 0);
    assert_eq!(out_uncompressed.index_data.blob_hashes.len(), 0);
    assert_eq!(out_uncompressed.index_data.blob_ranges.len(), 0);
    assert_eq!(out_uncompressed.index_data.blob_total_size, 0);

    let buf_compressed = empty.to_vec(Some(14)).unwrap();
    let out_compressed = Brz::read_slice(&buf_compressed).unwrap();
    assert_eq!(out_compressed.blob_data.len(), 0);
    assert_eq!(out_compressed.index_data.num_folders, 0);
    assert_eq!(out_compressed.index_data.num_files, 0);
    assert_eq!(out_compressed.index_data.num_blobs, 0);
    assert_eq!(out_compressed.index_data.folder_parent_ids.len(), 0);
    assert_eq!(out_compressed.index_data.folder_names.len(), 0);
    assert_eq!(out_compressed.index_data.file_parent_ids.len(), 0);
    assert_eq!(out_compressed.index_data.file_content_ids.len(), 0);
    assert_eq!(out_compressed.index_data.file_names.len(), 0);
    assert_eq!(out_compressed.index_data.compression_methods.len(), 0);
    assert_eq!(out_compressed.index_data.sizes_uncompressed.len(), 0);
    assert_eq!(out_compressed.index_data.sizes_compressed.len(), 0);
    assert_eq!(out_compressed.index_data.blob_hashes.len(), 0);
    assert_eq!(out_compressed.index_data.blob_ranges.len(), 0);
    assert_eq!(out_compressed.index_data.blob_total_size, 0);

    assert_eq!(57, buf_compressed.len());
    assert_eq!(57, buf_uncompressed.len());
}

#[test]
fn test_archive_header() {
    let test = |data: BrzArchiveHeader| -> Result<(), BrzError> {
        let mut vec = Vec::new();
        data.write(&mut vec)?;
        let read = BrzArchiveHeader::read(&mut vec.as_slice())?;
        assert_eq!(data.version, read.version);
        assert_eq!(data.index_method, read.index_method);
        assert_eq!(data.index_size_uncompressed, read.index_size_uncompressed);
        assert_eq!(data.index_size_compressed, read.index_size_compressed);
        assert_eq!(data.index_hash, read.index_hash);
        let mut read_vec = Vec::new();
        read.write(&mut read_vec)?;
        assert_eq!(vec, read_vec);
        Ok(())
    };

    test(BrzArchiveHeader {
        version: FormatVersion::Initial,
        index_method: CompressionMethod::NoCompression,
        index_size_uncompressed: 0,
        index_size_compressed: 0,
        index_hash: [0; 32],
    })
    .unwrap();
    test(BrzArchiveHeader {
        version: FormatVersion::Initial,
        index_method: CompressionMethod::GenericZstd,
        index_size_uncompressed: 12345,
        index_size_compressed: 12345,
        index_hash: [64; 32],
    })
    .unwrap();
}

#[test]
fn test_index_data() {
    let test = |data: BrzIndexData| -> Result<(), BrzError> {
        let vec = data.to_vec()?;
        let read = BrzIndexData::read(&mut vec.as_slice())?;
        assert_eq!(data.num_folders, read.num_folders);
        assert_eq!(data.num_files, read.num_files);
        assert_eq!(data.num_blobs, read.num_blobs);
        assert_eq!(data.folder_parent_ids, read.folder_parent_ids);
        assert_eq!(data.folder_names, read.folder_names);
        assert_eq!(data.file_parent_ids, read.file_parent_ids);
        assert_eq!(data.file_content_ids, read.file_content_ids);
        assert_eq!(data.file_names, read.file_names);
        assert_eq!(data.compression_methods, read.compression_methods);
        assert_eq!(data.sizes_uncompressed, read.sizes_uncompressed);
        assert_eq!(data.sizes_compressed, read.sizes_compressed);
        assert_eq!(data.blob_hashes, read.blob_hashes);
        assert_eq!(data.blob_ranges, read.blob_ranges);
        assert_eq!(data.blob_total_size, read.blob_total_size);
        let read_vec = read.to_vec()?;
        assert_eq!(vec, read_vec);
        Ok(())
    };

    test(empty_index()).unwrap();
    test(BrzIndexData {
        num_folders: 1,
        folder_parent_ids: vec![-1],
        folder_names: vec!["Foo".to_string()],
        ..empty_index()
    })
    .unwrap();
    test(BrzIndexData {
        num_files: 1,
        file_parent_ids: vec![-1],
        file_content_ids: vec![-1],
        file_names: vec!["Foo.txt".to_string()],
        ..empty_index()
    })
    .unwrap();
    test(BrzIndexData {
        num_blobs: 1,
        compression_methods: vec![CompressionMethod::GenericZstd],
        sizes_uncompressed: vec![0],
        sizes_compressed: vec![0],
        blob_hashes: vec![[0; 32]],
        blob_ranges: vec![(0, 0)],
        blob_total_size: 0,
        ..empty_index()
    })
    .unwrap();
    test(BrzIndexData {
        num_blobs: 1,
        compression_methods: vec![CompressionMethod::GenericZstd],
        sizes_uncompressed: vec![64],
        sizes_compressed: vec![32],
        blob_hashes: vec![[0; 32]],
        blob_ranges: vec![(0, 32)],
        blob_total_size: 32,
        ..empty_index()
    })
    .unwrap();
    test(BrzIndexData {
        num_folders: 1,
        num_files: 1,
        num_blobs: 1,
        folder_parent_ids: vec![-1],
        folder_names: vec!["Foo".to_string()],
        file_parent_ids: vec![0],
        file_content_ids: vec![0],
        file_names: vec!["Bar.txt".to_string()],
        compression_methods: vec![CompressionMethod::NoCompression],
        sizes_uncompressed: vec![32],
        sizes_compressed: vec![0],
        blob_hashes: vec![[0; 32]],
        blob_ranges: vec![(0, 32)],
        blob_total_size: 32,
    })
    .unwrap();
}

#[test]
fn test_pending_fs() {
    let fs = || {
        BrPendingFs::Root(vec![
            (
                "Foo".to_string(),
                BrPendingFs::Folder(Some(vec![
                    ("Bar".to_string(), BrPendingFs::File(Some(b"hello".to_vec()))),
                    ("Baz".to_string(), BrPendingFs::File(Some(b"new".to_vec()))),
                    ("Repeat".to_string(), BrPendingFs::File(Some(b"new".to_vec()))),
                ])),
            ),
            ("Data".to_string(), BrPendingFs::File(Some(b"a".repeat(64)))),
        ])
    };

    let rawdata = fs().to_brz_data(None).unwrap();
    let compdata = fs().to_brz_data(Some(14)).unwrap();
    {
        assert_eq!(rawdata.index_data.num_folders, 1);
        assert_eq!(rawdata.index_data.num_files, 4);
        assert_eq!(rawdata.index_data.num_blobs, 3);
        assert_eq!(rawdata.index_data.folder_names.len(), 1);
        assert_eq!(rawdata.index_data.file_names.len(), 4);
        assert_eq!(rawdata.index_data.folder_parent_ids.len(), 1);
        assert_eq!(rawdata.index_data.file_parent_ids.len(), 4);
        assert_eq!(rawdata.index_data.file_content_ids.len(), 4);
        assert_eq!(rawdata.index_data.compression_methods.len(), 3);
        assert_eq!(rawdata.index_data.sizes_uncompressed.len(), 3);
        assert_eq!(rawdata.index_data.sizes_compressed.len(), 3);
        assert_eq!(rawdata.index_data.blob_hashes.len(), 3);
        assert_eq!(rawdata.index_data.blob_ranges.len(), 3);
        assert_eq!(
            rawdata.index_data.blob_total_size,
            64 + b"hello".len() + b"new".len()
        );
    }

    let raw = rawdata.to_vec(None).unwrap();
    let comp = compdata.to_vec(Some(14)).unwrap();

    assert_eq!(raw.len(), 317);
    assert_eq!(comp.len(), 253);

    let raw = Brz::read_slice(&raw).unwrap();
    let comp = Brz::read_slice(&comp).unwrap();

    assert_eq!(raw.blob_data.len(), 72);
    assert_eq!(comp.blob_data.len(), 25);

    {
        assert_eq!(raw.index_data.num_folders, 1);
        assert_eq!(raw.index_data.num_folders, comp.index_data.num_folders);
        assert_eq!(raw.index_data.num_files, 4);
        assert_eq!(raw.index_data.num_files, comp.index_data.num_files);
        assert_eq!(raw.index_data.num_blobs, 3);
        assert_eq!(raw.index_data.num_blobs, comp.index_data.num_blobs);

        assert_eq!(raw.index_data.folder_names.len(), 1);
        assert_eq!(raw.index_data.folder_names, comp.index_data.folder_names);
        assert_eq!(raw.index_data.file_names.len(), 4);
        assert_eq!(raw.index_data.file_names, comp.index_data.file_names);
        assert_eq!(raw.index_data.folder_parent_ids.len(), 1);
        assert_eq!(
            raw.index_data.folder_parent_ids,
            comp.index_data.folder_parent_ids
        );
        assert_eq!(raw.index_data.file_parent_ids.len(), 4);
        assert_eq!(
            raw.index_data.file_parent_ids,
            comp.index_data.file_parent_ids
        );
        assert_eq!(raw.index_data.file_content_ids.len(), 4);
        assert_eq!(
            raw.index_data.file_content_ids,
            comp.index_data.file_content_ids
        );
        assert_eq!(raw.index_data.file_content_ids[0], 0);
        assert_eq!(raw.index_data.file_content_ids[1], 1);
        assert_eq!(raw.index_data.file_content_ids[2], 2);
        assert_eq!(raw.index_data.file_content_ids[3], 2);
        assert_eq!(comp.index_data.file_content_ids[0], 0);
        assert_eq!(comp.index_data.file_content_ids[1], 1);
        assert_eq!(comp.index_data.file_content_ids[2], 2);
        assert_eq!(comp.index_data.file_content_ids[3], 2);

        assert_eq!(raw.index_data.compression_methods.len(), 3);
        assert_eq!(raw.index_data.sizes_uncompressed.len(), 3);
        assert_eq!(
            raw.index_data.sizes_uncompressed,
            comp.index_data.sizes_uncompressed
        );
        assert_eq!(raw.index_data.sizes_compressed.len(), 3);
        assert_eq!(raw.index_data.blob_hashes.len(), 3);
        assert_eq!(raw.index_data.blob_hashes, comp.index_data.blob_hashes);
        assert_eq!(raw.index_data.blob_ranges.len(), 3);

        assert_eq!(raw.index_data.blob_ranges[0], (0, 64));
        assert_eq!(raw.index_data.blob_ranges[1], (64, 69));
        assert_eq!(raw.index_data.blob_ranges[2], (69, 72));
        assert_eq!(comp.index_data.blob_ranges[0], (0, 17));
        assert_eq!(comp.index_data.blob_ranges[1], (17, 22));
        assert_eq!(comp.index_data.blob_ranges[2], (22, 25));
    }

    let rawfs = raw.to_pending().unwrap();
    let comfs = comp.to_pending().unwrap();
    assert_eq!(rawfs.to_string(), comfs.to_string());

    let tests = [
        ("Foo/Bar", b"hello".to_vec()),
        ("Foo/Baz", b"new".to_vec()),
        ("Foo/Repeat", b"new".to_vec()),
        ("Data", b"a".repeat(64)),
    ];
    for (path, content) in tests {
        match rawfs.cd(path).unwrap() {
            BrPendingFs::File(Some(v)) => assert_eq!(v, &content),
            other => panic!("unexpected {other:?}"),
        }
        match comfs.cd(path).unwrap() {
            BrPendingFs::File(Some(v)) => assert_eq!(v, &content),
            other => panic!("unexpected {other:?}"),
        }
    }
}

#[test]
fn unpacking_places_folders_before_files() {
    let tree = BrPendingFs::Root(vec![
        ("z.txt".to_string(), BrPendingFs::File(Some(vec![]))),
        (
            "F".to_string(),
            BrPendingFs::Folder(Some(vec![("g.txt".to_string(), BrPendingFs::File(Some(vec![5, 6])))])),
        ),
    ]);
    let brz = tree.to_brz_data(Some(1)).unwrap();
    let back = brz.to_pending().unwrap();
    assert_eq!(back.to_string(), "[F [g.txt (2)], z.txt (0)]");
}

#[test]
fn unpacking_reports_unreadable_content() {
    let brz = Brz {
        index_data: BrzIndexData {
            num_files: 2,
            file_parent_ids: vec![-1, -1],
            file_content_ids: vec![-1, 3],
            file_names: vec!["a".to_string(), "b".to_string()],
            ..empty_index()
        },
        blob_data: vec![],
    };
    assert_eq!(brz.to_pending().unwrap_err(), BrError::Fs(BrFsError::ExpectedFileContent("b".to_string())));
}

#[test]
fn bfs_numbers_folders_and_files_in_breadth_first_order() {
    let tree = BrPendingFs::Root(vec![
        (
            "A".to_string(),
            BrPendingFs::Folder(Some(vec![(
                "Inner".to_string(),
                BrPendingFs::Folder(Some(vec![("deep.txt".to_string(), BrPendingFs::File(Some(vec![1])))])),
            )])),
        ),
        ("top.txt".to_string(), BrPendingFs::File(Some(vec![]))),
        ("skipped".to_string(), BrPendingFs::File(None)),
        ("B".to_string(), BrPendingFs::Folder(None)),
    ]);
    let brz = tree.to_brz_data(None).unwrap();
    let idx = &brz.index_data;
    assert_eq!(idx.num_folders, 2);
    assert_eq!(idx.folder_names, vec!["A".to_string(), "Inner".to_string()]);
    assert_eq!(idx.folder_parent_ids, vec![-1, 0]);
    assert_eq!(idx.file_names, vec!["top.txt".to_string(), "deep.txt".to_string()]);
    assert_eq!(idx.file_parent_ids, vec![-1, 1]);
    // An empty file gets no blob.
    assert_eq!(idx.file_content_ids, vec![-1, 0]);
    assert_eq!(idx.num_blobs, 1);
    assert_eq!(brz.blob_data, vec![1]);
    assert_eq!(idx.blob_ranges, vec![(0, 1)]);
    assert_eq!(idx.blob_total_size, 1);
    assert_eq!(idx.compression_methods, vec![CompressionMethod::NoCompression]);
    assert_eq!(idx.blob_hashes[0], *blake3::hash(&[1]).as_bytes());
}

#[test]
fn a_folder_as_the_top_node_is_named_root() {
    let tree = BrPendingFs::Folder(Some(vec![("x".to_string(), BrPendingFs::File(Some(vec![7, 7])))]));
    let brz = tree.to_brz_data(None).unwrap();
    assert_eq!(brz.index_data.folder_names, vec!["Root".to_string()]);
    assert_eq!(brz.index_data.file_parent_ids, vec![0]);
}

#[test]
fn compression_is_kept_only_when_shorter() {
    let tree = BrPendingFs::Root(vec![
        ("long".to_string(), BrPendingFs::File(Some(vec![0u8; 1000]))),
        ("short".to_string(), BrPendingFs::File(Some(vec![1, 2, 3]))),
    ]);
    let brz = tree.to_brz_data(Some(3)).unwrap();
    let idx = &brz.index_data;
    assert_eq!(idx.compression_methods, vec![CompressionMethod::GenericZstd, CompressionMethod::NoCompression]);
    assert_eq!(idx.sizes_uncompressed, vec![1000, 3]);
    assert!(idx.sizes_compressed[0] < 1000);
    assert_eq!(idx.sizes_compressed[1], 3);
    let bytes = brz.to_vec(Some(3)).unwrap();
    let back = Brz::read_slice(&bytes).unwrap();
    assert_eq!(back.blob_data, brz.blob_data);
    assert_eq!(back.index_data.blob_ranges, idx.blob_ranges);
}

#[test]
fn reading_rejects_bad_magic_and_truncation() {
    let bytes = Brz { index_data: empty_index(), blob_data: vec![] }.to_vec(None).unwrap();
    let mut bad = bytes.clone();
    bad[0] = b'X';
    assert_eq!(Brz::read_slice(&bad).unwrap_err(), BrzError::InvalidMagic([b'X', b'R', b'Z']));
    assert_eq!(Brz::read_slice(&bytes[..2]).unwrap_err(), BrzError::UnexpectedEof);
    assert_eq!(Brz::read_slice(&bytes[..20]).unwrap_err(), BrzError::UnexpectedEof);
    let mut bad_hash = bytes.clone();
    bad_hash[20] ^= 1;
    assert!(matches!(Brz::read_slice(&bad_hash).unwrap_err(), BrzError::InvalidIndexHash(_, _)));
}

#[test]
fn index_reading_rejects_negative_counts_and_bad_methods() {
    let mut bytes = Vec::new();
    bytes.extend_from_slice(&(-1i32).to_le_bytes());
    assert_eq!(BrzIndexData::read(&mut bytes.as_slice()).unwrap_err(), BrzError::InvalidNumFolders(-1));
    let mut bytes = Vec::new();
    bytes.extend_from_slice(&0i32.to_le_bytes());
    bytes.extend_from_slice(&(-2i32).to_le_bytes());
    assert_eq!(BrzIndexData::read(&mut bytes.as_slice()).unwrap_err(), BrzError::InvalidNumFiles(-2));
    let mut bytes = Vec::new();
    bytes.extend_from_slice(&0i32.to_le_bytes());
    bytes.extend_from_slice(&0i32.to_le_bytes());
    bytes.extend_from_slice(&(-3i32).to_le_bytes());
    assert_eq!(BrzIndexData::read(&mut bytes.as_slice()).unwrap_err(), BrzError::InvalidNumBlobs(-3));
    let mut bytes = Vec::new();
    bytes.extend_from_slice(&0i32.to_le_bytes());
    bytes.extend_from_slice(&0i32.to_le_bytes());
    bytes.extend_from_slice(&1i32.to_le_bytes());
    bytes.push(9);
    assert_eq!(BrzIndexData::read(&mut bytes.as_slice()).unwrap_err(), BrzError::InvalidCompressionMethod(9));
    let mut bytes = Vec::new();
    bytes.extend_from_slice(&0i32.to_le_bytes());
    bytes.extend_from_slice(&0i32.to_le_bytes());
    bytes.extend_from_slice(&1i32.to_le_bytes());
    bytes.push(0);
    bytes.extend_from_slice(&(-5i32).to_le_bytes());
    assert_eq!(BrzIndexData::read(&mut bytes.as_slice()).unwrap_err(), BrzError::InvalidBlobDecompressedLength(-5));
    let mut bytes = Vec::new();
    bytes.extend_from_slice(&1i32.to_le_bytes());
    bytes.extend_from_slice(&0i32.to_le_bytes());
    bytes.extend_from_slice(&0i32.to_le_bytes());
    bytes.extend_from_slice(&(-1i32).to_le_bytes());
    bytes.extend_from_slice(&2u16.to_le_bytes());
    bytes.extend_from_slice(&[0xff, 0xfe]);
    assert_eq!(BrzIndexData::read(&mut bytes.as_slice()).unwrap_err(), BrzError::InvalidUtf8);
}

#[test]
fn header_rejects_unknown_version_and_method() {
    let h = BrzArchiveHeader {
        version: FormatVersion::Initial,
        index_method: CompressionMethod::NoCompression,
        index_size_uncompressed: 1,
        index_size_compressed: 1,
        index_hash: [3; 32],
    };
    let mut v = Vec::new();
    h.write(&mut v).unwrap();
    let mut bad = v.clone();
    bad[0] = 7;
    assert_eq!(BrzArchiveHeader::read(&mut bad.as_slice()).unwrap_err(), BrzError::InvalidFormat(7));
    let mut bad = v.clone();
    bad[1] = 5;
    assert_eq!(BrzArchiveHeader::read(&mut bad.as_slice()).unwrap_err(), BrzError::InvalidCompressionMethod(5));
}

#[test]
fn header_rejects_negative_sizes() {
    let mut v = vec![0u8, 0u8];
    v.extend_from_slice(&(-1i32).to_le_bytes());
    v.extend_from_slice(&0i32.to_le_bytes());
    v.extend_from_slice(&[0u8; 32]);
    assert_eq!(BrzArchiveHeader::read(&mut v.as_slice()).unwrap_err(), BrzError::InvalidIndexDecompressedLength(-1));
    let mut v = vec![0u8, 0u8];
    v.extend_from_slice(&0i32.to_le_bytes());
    v.extend_from_slice(&(-4i32).to_le_bytes());
    v.extend_from_slice(&[0u8; 32]);
    assert_eq!(BrzArchiveHeader::read(&mut v.as_slice()).unwrap_err(), BrzError::InvalidIndexCompressedLength(-4));
}

#[test]
fn index_rejects_negative_stored_size() {
    let mut bytes = Vec::new();
    bytes.extend_from_slice(&0i32.to_le_bytes());
    bytes.extend_from_slice(&0i32.to_le_bytes());
    bytes.extend_from_slice(&1i32.to_le_bytes());
    bytes.push(1);
    bytes.extend_from_slice(&3i32.to_le_bytes());
    bytes.extend_from_slice(&(-7i32).to_le_bytes());
    assert_eq!(BrzIndexData::read(&mut bytes.as_slice()).unwrap_err(), BrzError::InvalidBlobCompressedLength(-7));
}

#[test]
fn reading_reports_a_broken_compressed_index() {
    let h = BrzArchiveHeader {
        version: FormatVersion::Initial,
        index_method: CompressionMethod::GenericZstd,
        index_size_uncompressed: 12,
        index_size_compressed: 4,
        index_hash: [0; 32],
    };
    let mut bytes = b"BRZ".to_vec();
    h.write(&mut bytes).unwrap();
    bytes.extend_from_slice(&[1, 2, 3, 4]);
    assert_eq!(Brz::read_slice(&bytes).unwrap_err(), BrzError::Decompress);
}

#[test]
fn errors_wrap_with_a_label() {
    let e = BrError::Fs(BrFsError::NotFound("x".to_string())).wrap("World");
    assert_eq!(
        e,
        BrError::Wrapped("World".to_string(), Box::new(BrError::Fs(BrFsError::NotFound("x".to_string()))))
    );
    let f = BrFsError::NotFound("y".to_string()).wrap("Grids");
    assert_eq!(f, BrFsError::Wrapped("Grids".to_string(), Box::new(BrFsError::NotFound("y".to_string()))));
}

#[test]
fn every_packed_file_reads_back_with_its_content() {
    let big = b"abcabcabc".repeat(50);
    let tree = || BrPendingFs::Root(vec![
        ("one.bin".to_string(), BrPendingFs::File(Some(big.clone()))),
        (
            "Sub".to_string(),
            BrPendingFs::Folder(Some(vec![
                ("same.bin".to_string(), BrPendingFs::File(Some(big.clone()))),
                ("empty".to_string(), BrPendingFs::File(Some(vec![]))),
            ])),
        ),
        ("two.bin".to_string(), BrPendingFs::File(Some(vec![9, 8, 7]))),
    ]);
    for level in [None, Some(5)] {
        let brz = tree().to_brz_data(level).unwrap();
        // Files are numbered in the order of the walk: the top first, then the folder.
        assert_eq!(
            brz.index_data.file_names,
            vec!["one.bin".to_string(), "two.bin".to_string(), "same.bin".to_string(), "empty".to_string()]
        );
        // The repeated content is stored once.
        assert_eq!(brz.index_data.num_blobs, 2);
        let back = Brz::read_slice(&brz.to_vec(level).unwrap()).unwrap().to_pending().unwrap();
        let expect: [(&str, Vec<u8>); 4] = [
            ("one.bin", big.clone()),
            ("two.bin", vec![9, 8, 7]),
            ("Sub/same.bin", big.clone()),
            ("Sub/empty", vec![]),
        ];
        for (path, content) in expect {
            match back.cd(path).unwrap() {
                BrPendingFs::File(Some(v)) => assert_eq!(v, &content),
                other => panic!("unexpected {other:?}"),
            }
        }
    }
}

#[test]
fn unpacking_gives_back_the_packed_tree() {
    let tree = BrPendingFs::Root(vec![
        ("a.txt".to_string(), BrPendingFs::File(Some(vec![1]))),
        (
            "X".to_string(),
            BrPendingFs::Folder(Some(vec![
                ("b.txt".to_string(), BrPendingFs::File(Some(vec![2, 2]))),
                (
                    "Y".to_string(),
                    BrPendingFs::Folder(Some(vec![("c.txt".to_string(), BrPendingFs::File(Some(vec![3])))])),
                ),
                ("gone".to_string(), BrPendingFs::Folder(None)),
            ])),
        ),
        ("z.txt".to_string(), BrPendingFs::File(None)),
        ("W".to_string(), BrPendingFs::Folder(Some(vec![]))),
    ]);
    let brz = tree.to_brz_data(Some(2)).unwrap();
    let back = brz.to_pending().unwrap();
    // Folders first, then files, each in the order of the tree; entries
    // without content are not packed.
    assert_eq!(back.to_string(), "[X [Y [c.txt (1)], b.txt (2)], W [], a.txt (1)]");
    match back.cd("X/Y/c.txt").unwrap() {
        BrPendingFs::File(Some(v)) => assert_eq!(v, &vec![3]),
        other => panic!("unexpected {other:?}"),
    }
}
