//! Packing a pending filesystem tree into a `.brz` archive: the tree is walked
//! breadth first, folders and files are numbered in the order they are met,
//! and each distinct file content is stored once.
use vstd::prelude::*;

use std::collections::VecDeque;

use crate::brz::{digests_equal, Brz, BrzView, CompressionMethod};
use crate::codec::{blake3_digest, blake3_hash, zstd_compress, zstd_compressed};
use crate::errors::{BrError, BrFsError};
use crate::index::{hashes_view, strings_view, BrzIndexData, IndexView};
use crate::le::extend_bytes;
use crate::pending::BrPendingFs;
use crate::pending_size::{items_size, node_size};

verus! {

/// An entry waiting to be visited: the id of the folder that holds it (-1 at
/// the top), its name and its tree.
pub type QueueEntry = (i32, Seq<char>, BrPendingFs);

/// The number of tree nodes that wait in `q`.
pub open spec fn queue_size(q: Seq<QueueEntry>) -> nat
    decreases q.len(),
{
    if q.len() == 0 {
        0
    } else {
        node_size(q[0].2) + queue_size(q.drop_first())
    }
}

/// The children of a folder as queue entries under the folder id `parent`.
pub open spec fn child_entries(parent: i32, items: Seq<(String, BrPendingFs)>) -> Seq<QueueEntry> {
    items.map_values(|e: (String, BrPendingFs)| (parent, e.0@, e.1))
}

pub proof fn lemma_queue_size_append(a: Seq<QueueEntry>, b: Seq<QueueEntry>)
    ensures
        queue_size(a + b) == queue_size(a) + queue_size(b),
    decreases a.len(),
{
    if a.len() > 0 {
        assert((a + b).drop_first() =~= a.drop_first() + b);
        lemma_queue_size_append(a.drop_first(), b);
    } else {
        assert(a + b =~= b);
    }
}

pub proof fn lemma_queue_size_children(parent: i32, items: Seq<(String, BrPendingFs)>)
    ensures
        queue_size(child_entries(parent, items)) == items_size(items),
    decreases items.len(),
{
    if items.len() > 0 {
        assert(child_entries(parent, items).drop_first() =~= child_entries(
            parent,
            items.drop_first(),
        ));
        lemma_queue_size_children(parent, items.drop_first());
    }
}

/// The archive with nothing in it.
pub open spec fn empty_archive() -> BrzView {
    BrzView {
        index_data: IndexView {
            num_folders: 0,
            num_files: 0,
            num_blobs: 0,
            folder_parent_ids: seq![],
            folder_names: seq![],
            file_parent_ids: seq![],
            file_content_ids: seq![],
            file_names: seq![],
            compression_methods: seq![],
            sizes_uncompressed: seq![],
            sizes_compressed: seq![],
            blob_hashes: seq![],
            blob_ranges: seq![],
            blob_total_size: 0,
        },
        blob_data: seq![],
    }
}

/// The position of the first digest in `hs` equal to `h`.
pub open spec fn first_digest(hs: Seq<Seq<u8>>, h: Seq<u8>) -> Option<int>
    decreases hs.len(),
{
    if hs.len() == 0 {
        None
    } else if hs[0] == h {
        Some(0)
    } else {
        match first_digest(hs.drop_first(), h) {
            Some(k) => Some(k + 1),
            None => None,
        }
    }
}

pub proof fn lemma_first_digest(hs: Seq<Seq<u8>>, h: Seq<u8>)
    ensures
        first_digest(hs, h) matches Some(k) ==> 0 <= k < hs.len() && hs[k] == h && forall|j: int|
            0 <= j < k ==> hs[j] != h,
        first_digest(hs, h) is None ==> forall|j: int| 0 <= j < hs.len() ==> hs[j] != h,
    decreases hs.len(),
{
    if hs.len() > 0 {
        lemma_first_digest(hs.drop_first(), h);
        if hs[0] != h {
            assert forall|j: int| 0 < j < hs.len() implies hs[j] == hs.drop_first()[j - 1] by {}
        }
    }
}

/// How a new blob is stored: compressed with zstd at `level` where a level is
/// given and the compressed bytes are shorter, as it is otherwise. `Err` where
/// zstd fails.
pub open spec fn stored_blob(content: Seq<u8>, level: Option<i32>) -> Result<
    (CompressionMethod, Seq<u8>),
    (),
> {
    match level {
        None => Ok((CompressionMethod::NoCompression, content)),
        Some(l) => match zstd_compressed(content, l) {
            None => Err(()),
            Some(c) => if c.len() < content.len() {
                Ok((CompressionMethod::GenericZstd, c))
            } else {
                Ok((CompressionMethod::NoCompression, content))
            },
        },
    }
}

/// `acc` with one more folder, named `name`, inside the folder `parent`.
pub open spec fn add_folder(acc: BrzView, parent: i32, name: Seq<char>) -> BrzView {
    let d = acc.index_data;
    BrzView {
        index_data: IndexView {
            num_folders: (d.num_folders + 1) as i32,
            folder_parent_ids: d.folder_parent_ids.push(parent),
            folder_names: d.folder_names.push(name),
            ..d
        },
        ..acc
    }
}

/// `acc` with one more file, named `name`, inside the folder `parent`. An empty
/// content gets no blob (content id -1); a content whose digest is already
/// among the blobs shares the first such blob; any other content becomes a
/// new blob at the end of the blob data.
pub open spec fn add_file(
    acc: BrzView,
    parent: i32,
    name: Seq<char>,
    content: Seq<u8>,
    level: Option<i32>,
) -> Result<BrzView, ()> {
    let d = acc.index_data;
    let h = blake3_digest(content);
    let d1 = IndexView {
        num_files: (d.num_files + 1) as i32,
        file_parent_ids: d.file_parent_ids.push(parent),
        file_names: d.file_names.push(name),
        ..d
    };
    if content.len() == 0 {
        Ok(BrzView { index_data: IndexView { file_content_ids: d.file_content_ids.push(-1i32), ..d1 }, ..acc })
    } else {
        match first_digest(d.blob_hashes, h) {
            Some(k) => Ok(
                BrzView {
                    index_data: IndexView { file_content_ids: d.file_content_ids.push(k as i32), ..d1 },
                    ..acc
                },
            ),
            None => match stored_blob(content, level) {
                Err(e) => Err(e),
                Ok((m, stored)) => {
                    let blobs = acc.blob_data + stored;
                    Ok(
                        BrzView {
                            index_data: IndexView {
                                num_blobs: (d.num_blobs + 1) as i32,
                                file_content_ids: d.file_content_ids.push(d.num_blobs),
                                compression_methods: d.compression_methods.push(m),
                                sizes_uncompressed: d.sizes_uncompressed.push(content.len() as i32),
                                sizes_compressed: d.sizes_compressed.push(stored.len() as i32),
                                blob_hashes: d.blob_hashes.push(h),
                                blob_ranges: d.blob_ranges.push(
                                    (acc.blob_data.len() as usize, blobs.len() as usize),
                                ),
                                ..d1
                            },
                            blob_data: blobs,
                        },
                    )
                },
            },
        }
    }
}

/// Visits the entries of the queue `q` one after the other, appending the
/// children of each folder to the back of the queue (the children of a root
/// get no parent folder), until the queue is empty. `Err` where zstd fails on
/// some content.
pub open spec fn bfs_run(level: Option<i32>, q: Seq<QueueEntry>, acc: BrzView) -> Result<
    BrzView,
    (),
>
    decreases queue_size(q),
{
    if q.len() == 0 {
        Ok(acc)
    } else {
        let (parent, name, node) = q[0];
        let rest = q.drop_first();
        proof {
            lemma_queue_size_append(seq![q[0]], rest);
            assert(seq![q[0]] + rest =~= q);
        }
        match node {
            BrPendingFs::Root(items) => {
                proof {
                    lemma_queue_size_append(rest, child_entries(-1i32, items@));
                    lemma_queue_size_children(-1i32, items@);
                }
                bfs_run(level, rest + child_entries(-1i32, items@), acc)
            },
            BrPendingFs::Folder(Some(items)) => {
                proof {
                    lemma_queue_size_append(rest, child_entries(acc.index_data.num_folders, items@));
                    lemma_queue_size_children(acc.index_data.num_folders, items@);
                }
                bfs_run(
                    level,
                    rest + child_entries(acc.index_data.num_folders, items@),
                    add_folder(acc, parent, name),
                )
            },
            BrPendingFs::File(Some(content)) => match add_file(acc, parent, name, content@, level) {
                Ok(next) => bfs_run(level, rest, next),
                Err(e) => Err(e),
            },
            _ => bfs_run(level, rest, acc),
        }
    }
}

/// The archive of the tree `fs`: the walk starts from the tree itself, named
/// "Root", and the total size is the length of the blob data.
pub open spec fn archive_of(fs: BrPendingFs, level: Option<i32>) -> Result<BrzView, ()> {
    match bfs_run(level, seq![(-1i32, "Root"@, fs)], empty_archive()) {
        Ok(v) => Ok(
            BrzView {
                index_data: IndexView { blob_total_size: v.blob_data.len() as usize, ..v.index_data },
                ..v
            },
        ),
        Err(e) => Err(e),
    }
}

/// The queue of the walk as plain values.
pub open spec fn queue_view(q: Seq<(i32, String, BrPendingFs)>) -> Seq<QueueEntry> {
    q.map_values(|e: (i32, String, BrPendingFs)| (e.0, e.1@, e.2))
}

/// The position of the first digest in `hs` equal to `h`.
fn find_digest(hs: &Vec<[u8; 32]>, h: &[u8; 32]) -> (res: Option<usize>)
    ensures
        res matches Some(k) ==> k < hs@.len() && first_digest(hashes_view(hs@), h@) == Some(k as int),
        res is None ==> first_digest(hashes_view(hs@), h@) is None,
{
    proof {
        lemma_first_digest(hashes_view(hs@), h@);
    }
    let ghost hv = hashes_view(hs@);
    let mut k: usize = 0;
    while k < hs.len()
        invariant
            0 <= k <= hs@.len(),
            hv == hashes_view(hs@),
            forall|j: int| 0 <= j < k ==> hv[j] != h@,
            first_digest(hv, h@) matches Some(f) ==> k <= f && f < hv.len() && hv[f] == h@
                && forall|j: int| 0 <= j < f ==> hv[j] != h@,
            first_digest(hv, h@) is None ==> forall|j: int| 0 <= j < hv.len() ==> hv[j] != h@,
        decreases hs@.len() - k,
    {
        if digests_equal(&hs[k], h) {
            assert(hv[k as int] == hs@[k as int]@);
            return Some(k);
        }
        assert(hv[k as int] == hs@[k as int]@);
        k = k + 1;
    }
    None
}

/// Adds a file to the archive under construction (see [`add_file`]).
fn push_file(
    index: &mut BrzIndexData,
    blob_data: &mut Vec<u8>,
    parent: i32,
    name: String,
    content: Vec<u8>,
    level: Option<i32>,
) -> (res: Result<(), BrError>)
    requires
        old(index).num_files < i32::MAX,
        0 <= old(index).num_blobs <= old(index).num_files,
        old(index).blob_hashes@.len() == old(index).num_blobs,
    ensures
        match add_file(
            BrzView { index_data: old(index)@, blob_data: old(blob_data)@ },
            parent,
            name@,
            content@,
            level,
        ) {
            Ok(v) => res is Ok && final(index)@ == v.index_data && final(blob_data)@ == v.blob_data,
            Err(_) => res == Err::<(), BrError>(BrError::Fs(BrFsError::Compress)),
        },
{
    let ghost acc = BrzView { index_data: index@, blob_data: blob_data@ };
    let ghost d = index@;
    let content_len = content.len();
    index.num_files = index.num_files + 1;
    index.file_parent_ids.push(parent);
    index.file_names.push(name);
    assert(strings_view(index.file_names@) =~= d.file_names.push(name@));
    if content_len == 0 {
        index.file_content_ids.push(-1);
        assert(index@ =~= add_file(acc, parent, name@, content@, level).unwrap().index_data);
        return Ok(());
    }
    let hash = blake3_hash(content.as_slice());
    if let Some(k) = find_digest(&index.blob_hashes, &hash) {
        index.file_content_ids.push(k as i32);
        assert(index@ =~= add_file(acc, parent, name@, content@, level).unwrap().index_data);
        return Ok(());
    }
    let blob_id = index.num_blobs;
    let start = blob_data.len();
    let (method, stored) = match level {
        Some(l) => match zstd_compress(content.as_slice(), l) {
            Ok(c) => {
                if c.len() < content_len {
                    (CompressionMethod::GenericZstd, c)
                } else {
                    (CompressionMethod::NoCompression, content)
                }
            },
            Err(_) => {
                return Err(BrError::Fs(BrFsError::Compress));
            },
        },
        None => (CompressionMethod::NoCompression, content),
    };
    assert(stored_blob(content@, level) == Ok::<(CompressionMethod, Seq<u8>), ()>((method, stored@)));
    index.num_blobs = blob_id + 1;
    index.blob_hashes.push(hash);
    #[verifier::truncate]
    let size_uncompressed = content_len as i32;
    index.sizes_uncompressed.push(size_uncompressed);
    #[verifier::truncate]
    let size_compressed = stored.len() as i32;
    index.sizes_compressed.push(size_compressed);
    index.compression_methods.push(method);
    extend_bytes(blob_data, stored.as_slice());
    index.blob_ranges.push((start, blob_data.len()));
    index.file_content_ids.push(blob_id);
    assert(hashes_view(index.blob_hashes@) =~= d.blob_hashes.push(blake3_digest(content@)));
    assert(index@ =~= add_file(acc, parent, name@, content@, level).unwrap().index_data);
    Ok(())
}

/// Appends the children `items` of a folder to the back of the queue.
fn enqueue_children(
    queue: &mut VecDeque<(i32, String, BrPendingFs)>,
    parent: i32,
    items: Vec<(String, BrPendingFs)>,
)
    ensures
        queue_view(final(queue)@) == queue_view(old(queue)@) + child_entries(parent, items@),
{
    let ghost base = queue_view(queue@);
    let ghost all = items@;
    for e in it: items.into_iter()
        invariant
            it.seq() == all,
            queue_view(queue@) == base + child_entries(parent, all.take(it.index())),
    {
        let ghost before = queue_view(queue@);
        let (n, c) = e;
        queue.push_back((parent, n, c));
        assert(queue_view(queue@) =~= before.push((parent, n@, c)));
        assert(child_entries(parent, all.take(it.index() + 1)) =~= child_entries(
            parent,
            all.take(it.index()),
        ).push((parent, n@, c)));
    }
    assert(all.take(all.len() as int) =~= all);
}

impl BrPendingFs {
    /// Packs this tree into an archive (see [`archive_of`]): blobs are
    /// compressed with zstd at `zstd_level` where a level is given and that
    /// makes them shorter. Fails only where zstd fails.
    pub fn to_brz_data(self, zstd_level: Option<i32>) -> (res: Result<Brz, BrError>)
        requires
            node_size(self) < i32::MAX,
        ensures
            match archive_of(self, zstd_level) {
                Ok(v) => res matches Ok(b) && b@ == v,
                Err(_) => res == Err::<Brz, BrError>(BrError::Fs(BrFsError::Compress)),
            },
    {
        let ghost orig = self;
        let ghost start_q = seq![(-1i32, "Root"@, orig)];
        let mut queue: VecDeque<(i32, String, BrPendingFs)> = VecDeque::new();
        queue.push_back((-1, "Root".to_owned(), self));
        let mut index = BrzIndexData {
            num_folders: 0,
            num_files: 0,
            num_blobs: 0,
            folder_parent_ids: Vec::new(),
            folder_names: Vec::new(),
            file_parent_ids: Vec::new(),
            file_content_ids: Vec::new(),
            file_names: Vec::new(),
            compression_methods: Vec::new(),
            sizes_uncompressed: Vec::new(),
            sizes_compressed: Vec::new(),
            blob_hashes: Vec::new(),
            blob_ranges: Vec::new(),
            blob_total_size: 0,
        };
        let mut blob_data: Vec<u8> = Vec::new();
        proof {
            assert(queue_view(queue@) =~= start_q);
            assert(index@ =~= empty_archive().index_data);
            assert(BrzView { index_data: index@, blob_data: blob_data@ } =~= empty_archive());
            assert(start_q.drop_first() =~= Seq::<QueueEntry>::empty());
            assert(queue_size(Seq::<QueueEntry>::empty()) == 0);
            assert(queue_size(start_q) == node_size(orig));
        }
        while queue.len() > 0
            invariant
                bfs_run(zstd_level, queue_view(queue@), BrzView { index_data: index@, blob_data: blob_data@ })
                    == bfs_run(zstd_level, start_q, empty_archive()),
                0 <= index.num_folders,
                0 <= index.num_blobs <= index.num_files,
                index.blob_hashes@.len() == index.num_blobs,
                index.num_folders + index.num_files + queue_size(queue_view(queue@)) <= node_size(orig),
                node_size(orig) < i32::MAX,
                start_q == seq![(-1i32, "Root"@, orig)],
                orig == self,
            decreases queue_size(queue_view(queue@)),
        {
            let ghost q = queue_view(queue@);
            let ghost acc = BrzView { index_data: index@, blob_data: blob_data@ };
            let (parent_id, name, fs) = queue.pop_front().unwrap();
            proof {
                assert(queue_view(queue@) =~= q.drop_first());
                lemma_queue_size_append(seq![q[0]], q.drop_first());
                assert(seq![q[0]] + q.drop_first() =~= q);
                assert(q[0] == (parent_id, name@, fs));
            }
            match fs {
                BrPendingFs::Root(items) => {
                    let ghost kids = child_entries(-1i32, items@);
                    enqueue_children(&mut queue, -1, items);
                    proof {
                        lemma_queue_size_append(q.drop_first(), kids);
                        lemma_queue_size_children(-1i32, items@);
                    }
                },
                BrPendingFs::Folder(Some(items)) => {
                    let ghost kids = child_entries(index.num_folders, items@);
                    let folder_id = index.num_folders;
                    index.num_folders = folder_id + 1;
                    index.folder_parent_ids.push(parent_id);
                    index.folder_names.push(name);
                    enqueue_children(&mut queue, folder_id, items);
                    proof {
                        lemma_queue_size_append(q.drop_first(), kids);
                        lemma_queue_size_children(folder_id, items@);
                        assert(strings_view(index.folder_names@) =~= acc.index_data.folder_names.push(
                            name@,
                        ));
                        assert(index@ =~= add_folder(acc, parent_id, name@).index_data);
                    }
                },
                BrPendingFs::File(Some(content)) => {
                    match push_file(&mut index, &mut blob_data, parent_id, name, content, zstd_level) {
                        Ok(()) => {},
                        Err(e) => {
                            assert(bfs_run(zstd_level, q, acc) is Err);
                            return Err(e);
                        },
                    }
                },
                _ => {},
            }
        }
        index.blob_total_size = blob_data.len();
        let res = Brz { index_data: index, blob_data };
        assert(res@.index_data =~= archive_of(orig, zstd_level).unwrap().index_data);
        Ok(res)
    }
}

} // verus!
