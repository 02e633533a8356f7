//! What holds of every archive that a tree is packed into: its index can be
//! written and read back, each content is stored once, and each file points
//! at a blob or at none.
use vstd::prelude::*;
use vstd::utf8::{encode_utf8, is_ascii_chars, is_ascii_chars_encode_utf8};

use crate::archive::{
    add_file, add_folder, archive_of, bfs_run, child_entries, empty_archive, first_digest,
    lemma_first_digest, lemma_queue_size_append, lemma_queue_size_children, queue_size, stored_blob,
    QueueEntry,
};
use crate::brz::{archive_bytes, lemma_brz_roundtrip, parse_brz, Brz, BrzReadFailure, BrzView, CompressionMethod};
use crate::codec::{blake3_digest, zstd_compressed, zstd_decoded, zstd_decompressed};
use crate::index::{blob_end, blob_len, blob_ranges, index_bytes, index_wf};
use crate::pending::BrPendingFs;
use crate::pending_size::node_size;

verus! {

/// Whether the UTF-8 bytes of a name fit the 16-bit length field of the index.
pub open spec fn name_fits(n: Seq<char>) -> bool {
    encode_utf8(n).len() < 65536
}

/// Whether every name in a tree fits the index and every file content is at
/// most `i32::MAX` bytes long.
pub open spec fn tree_fits(fs: BrPendingFs) -> bool
    decreases fs,
{
    match fs {
        BrPendingFs::Root(items) => items_fit(items@),
        BrPendingFs::Folder(Some(items)) => items_fit(items@),
        BrPendingFs::File(Some(content)) => content@.len() <= i32::MAX,
        _ => true,
    }
}

/// Whether every named tree in `items` fits (see [`tree_fits`]).
pub open spec fn items_fit(items: Seq<(String, BrPendingFs)>) -> bool
    decreases items,
{
    if items.len() == 0 {
        true
    } else {
        name_fits(items[0].0@) && tree_fits(items[0].1) && items_fit(items.drop_first())
    }
}

/// Whether every entry of the queue fits.
pub open spec fn queue_fits(q: Seq<QueueEntry>) -> bool
    decreases q.len(),
{
    if q.len() == 0 {
        true
    } else {
        name_fits(q[0].1) && tree_fits(q[0].2) && queue_fits(q.drop_first())
    }
}

pub(crate) proof fn lemma_queue_fits_append(a: Seq<QueueEntry>, b: Seq<QueueEntry>)
    ensures
        queue_fits(a + b) == (queue_fits(a) && queue_fits(b)),
    decreases a.len(),
{
    if a.len() > 0 {
        assert((a + b).drop_first() =~= a.drop_first() + b);
        lemma_queue_fits_append(a.drop_first(), b);
    } else {
        assert(a + b =~= b);
    }
}

pub(crate) proof fn lemma_queue_fits_children(parent: i32, items: Seq<(String, BrPendingFs)>)
    ensures
        queue_fits(child_entries(parent, items)) == items_fit(items),
    decreases items.len(),
{
    if items.len() > 0 {
        assert(child_entries(parent, items).drop_first() =~= child_entries(
            parent,
            items.drop_first(),
        ));
        lemma_queue_fits_children(parent, items.drop_first());
    }
}

/// What holds of the archive at every point of the walk.
pub open spec fn acc_ok(v: BrzView) -> bool {
    let d = v.index_data;
    &&& 0 <= d.num_folders
    &&& 0 <= d.num_blobs <= d.num_files
    &&& d.folder_parent_ids.len() == d.num_folders
    &&& d.folder_names.len() == d.num_folders
    &&& d.file_parent_ids.len() == d.num_files
    &&& d.file_content_ids.len() == d.num_files
    &&& d.file_names.len() == d.num_files
    &&& d.compression_methods.len() == d.num_blobs
    &&& d.sizes_uncompressed.len() == d.num_blobs
    &&& d.sizes_compressed.len() == d.num_blobs
    &&& d.blob_hashes.len() == d.num_blobs
    &&& forall|k: int| 0 <= k < d.folder_names.len() ==> name_fits(#[trigger] d.folder_names[k])
    &&& forall|k: int| 0 <= k < d.file_names.len() ==> name_fits(#[trigger] d.file_names[k])
    &&& forall|k: int| 0 <= k < d.sizes_uncompressed.len() ==> #[trigger] d.sizes_uncompressed[k] >= 0
    &&& forall|k: int| 0 <= k < d.sizes_compressed.len() ==> #[trigger] d.sizes_compressed[k] >= 0
    &&& d.blob_ranges == blob_ranges(d.compression_methods, d.sizes_uncompressed, d.sizes_compressed)
    &&& blob_end(d.compression_methods, d.sizes_uncompressed, d.sizes_compressed, d.num_blobs as int)
        == v.blob_data.len()
    &&& forall|i: int, j: int|
        0 <= i < j < d.blob_hashes.len() ==> #[trigger] d.blob_hashes[i] != #[trigger] d.blob_hashes[j]
    &&& forall|i: int|
        0 <= i < d.file_content_ids.len() ==> #[trigger] d.file_content_ids[i] == -1 || 0
            <= d.file_content_ids[i] < d.num_blobs
}

proof fn lemma_blob_end_push(
    ms: Seq<CompressionMethod>,
    us: Seq<i32>,
    cs: Seq<i32>,
    m: CompressionMethod,
    u: i32,
    c: i32,
    k: int,
)
    requires
        0 <= k <= ms.len(),
        us.len() == ms.len(),
        cs.len() == ms.len(),
    ensures
        blob_end(ms.push(m), us.push(u), cs.push(c), k) == blob_end(ms, us, cs, k),
    decreases k,
{
    if k > 0 {
        lemma_blob_end_push(ms, us, cs, m, u, c, k - 1);
    }
}

proof fn lemma_add_folder_ok(acc: BrzView, parent: i32, name: Seq<char>)
    requires
        acc_ok(acc),
        name_fits(name),
        acc.index_data.num_folders < i32::MAX,
    ensures
        acc_ok(add_folder(acc, parent, name)),
{
    let d = acc.index_data;
    let d2 = add_folder(acc, parent, name).index_data;
    assert forall|k: int| 0 <= k < d2.folder_names.len() implies name_fits(
        #[trigger] d2.folder_names[k],
    ) by {
        if k < d.folder_names.len() {
            assert(d2.folder_names[k] == d.folder_names[k]);
        }
    }
}

proof fn lemma_add_file_ok(
    acc: BrzView,
    parent: i32,
    name: Seq<char>,
    content: Seq<u8>,
    level: Option<i32>,
)
    requires
        acc_ok(acc),
        name_fits(name),
        content.len() <= i32::MAX,
        acc.index_data.num_files < i32::MAX,
        add_file(acc, parent, name, content, level) is Ok,
    ensures
        acc_ok(add_file(acc, parent, name, content, level).unwrap()),
{
    let d = acc.index_data;
    let v = add_file(acc, parent, name, content, level).unwrap();
    let d2 = v.index_data;
    let h = blake3_digest(content);
    lemma_first_digest(d.blob_hashes, h);
    assert forall|k: int| 0 <= k < d2.file_names.len() implies name_fits(#[trigger] d2.file_names[k]) by {
        if k < d.file_names.len() {
            assert(d2.file_names[k] == d.file_names[k]);
        }
    }
    assert forall|i: int| 0 <= i < d2.file_content_ids.len() implies #[trigger] d2.file_content_ids[i]
        == -1 || 0 <= d2.file_content_ids[i] < d2.num_blobs by {
        if i < d.file_content_ids.len() {
            assert(d2.file_content_ids[i] == d.file_content_ids[i]);
        }
    }
    if content.len() != 0 && first_digest(d.blob_hashes, h) is None {
        let (m, stored) = stored_blob(content, level).unwrap();
        let ms = d.compression_methods;
        let us = d.sizes_uncompressed;
        let cs = d.sizes_compressed;
        let n = d.num_blobs as int;
        assert(stored.len() <= content.len());
        assert(blob_len(m, content.len() as i32, stored.len() as i32) == stored.len());
        lemma_blob_end_push(ms, us, cs, m, content.len() as i32, stored.len() as i32, n);
        assert(blob_end(d2.compression_methods, d2.sizes_uncompressed, d2.sizes_compressed, n + 1)
            == v.blob_data.len());
        assert forall|k: int| 0 <= k <= n implies blob_end(
            d2.compression_methods,
            d2.sizes_uncompressed,
            d2.sizes_compressed,
            k,
        ) == blob_end(ms, us, cs, k) by {
            lemma_blob_end_push(ms, us, cs, m, content.len() as i32, stored.len() as i32, k);
        }
        assert(d2.blob_ranges =~= blob_ranges(
            d2.compression_methods,
            d2.sizes_uncompressed,
            d2.sizes_compressed,
        ));
        assert forall|k: int| 0 <= k < d2.sizes_uncompressed.len() implies #[trigger] d2.sizes_uncompressed[k]
            >= 0 by {
            if k < n {
                assert(d2.sizes_uncompressed[k] == us[k]);
            }
        }
        assert forall|k: int| 0 <= k < d2.sizes_compressed.len() implies #[trigger] d2.sizes_compressed[k]
            >= 0 by {
            if k < n {
                assert(d2.sizes_compressed[k] == cs[k]);
            }
        }
        assert forall|i: int, j: int| 0 <= i < j < d2.blob_hashes.len() implies #[trigger] d2.blob_hashes[i]
            != #[trigger] d2.blob_hashes[j] by {
            if j < n {
                assert(d2.blob_hashes[i] == d.blob_hashes[i]);
                assert(d2.blob_hashes[j] == d.blob_hashes[j]);
            } else {
                assert(d2.blob_hashes[i] == d.blob_hashes[i]);
            }
        }
    }
}

proof fn lemma_bfs_ok(level: Option<i32>, q: Seq<QueueEntry>, acc: BrzView, n: int)
    requires
        acc_ok(acc),
        queue_fits(q),
        acc.index_data.num_folders + acc.index_data.num_files + queue_size(q) <= n,
        n < i32::MAX,
        bfs_run(level, q, acc) is Ok,
    ensures
        acc_ok(bfs_run(level, q, acc).unwrap()),
    decreases queue_size(q),
{
    if q.len() > 0 {
        let (parent, name, node) = q[0];
        let rest = q.drop_first();
        lemma_queue_size_append(seq![q[0]], rest);
        lemma_queue_fits_append(seq![q[0]], rest);
        assert(seq![q[0]] + rest =~= q);
        assert(seq![q[0]].drop_first() =~= Seq::<QueueEntry>::empty());
        assert(queue_size(seq![q[0]]) == node_size(node) + queue_size(Seq::<QueueEntry>::empty()));
        match node {
            BrPendingFs::Root(items) => {
                lemma_queue_size_append(rest, child_entries(-1i32, items@));
                lemma_queue_size_children(-1i32, items@);
                lemma_queue_fits_append(rest, child_entries(-1i32, items@));
                lemma_queue_fits_children(-1i32, items@);
                lemma_bfs_ok(level, rest + child_entries(-1i32, items@), acc, n);
            },
            BrPendingFs::Folder(Some(items)) => {
                let fid = acc.index_data.num_folders;
                lemma_queue_size_append(rest, child_entries(fid, items@));
                lemma_queue_size_children(fid, items@);
                lemma_queue_fits_append(rest, child_entries(fid, items@));
                lemma_queue_fits_children(fid, items@);
                lemma_add_folder_ok(acc, parent, name);
                lemma_bfs_ok(level, rest + child_entries(fid, items@), add_folder(acc, parent, name), n);
            },
            BrPendingFs::File(Some(content)) => {
                lemma_add_file_ok(acc, parent, name, content@, level);
                lemma_bfs_ok(level, rest, add_file(acc, parent, name, content@, level).unwrap(), n);
            },
            _ => {
                lemma_bfs_ok(level, rest, acc, n);
            },
        }
    }
}

/// The archive that a tree is packed into (see `BrPendingFs::to_brz_data`) is
/// well formed, so that writing it and reading it back gives it again (see
/// `lemma_brz_roundtrip`); no two of its blobs have the same digest; and the
/// content id of each file is -1 or the id of a blob. This holds where every
/// name in the tree takes fewer than 65536 bytes of UTF-8 and every content at
/// most `i32::MAX` bytes.
pub proof fn lemma_archive_wf(fs: BrPendingFs, level: Option<i32>, b: Brz)
    requires
        node_size(fs) < i32::MAX,
        tree_fits(fs),
        archive_of(fs, level) == Ok::<BrzView, ()>(b@),
    ensures
        index_wf(b@.index_data),
        b@.blob_data.len() == b@.index_data.blob_total_size,
        forall|i: int, j: int|
            0 <= i < j < b@.index_data.num_blobs ==> b@.index_data.blob_hashes[i]
                != b@.index_data.blob_hashes[j],
        forall|i: int|
            0 <= i < b@.index_data.num_files ==> b@.index_data.file_content_ids[i] == -1 || 0
                <= b@.index_data.file_content_ids[i] < b@.index_data.num_blobs,
{
    let q = seq![(-1i32, "Root"@, fs)];
    reveal_strlit("Root");
    assert(is_ascii_chars("Root"@));
    is_ascii_chars_encode_utf8("Root"@);
    assert(q.drop_first() =~= Seq::<QueueEntry>::empty());
    assert(name_fits("Root"@));
    assert(queue_fits(Seq::<QueueEntry>::empty()));
    assert(queue_fits(q));
    assert(queue_size(Seq::<QueueEntry>::empty()) == 0);
    assert(queue_size(q) == node_size(fs));
    let e = empty_archive().index_data;
    assert(blob_ranges(e.compression_methods, e.sizes_uncompressed, e.sizes_compressed) =~= e.blob_ranges);
    assert(acc_ok(empty_archive()));
    lemma_bfs_ok(level, q, empty_archive(), node_size(fs) as int);
    let v = bfs_run(level, q, empty_archive()).unwrap();
    assert(b.blob_data@.len() == b.blob_data.len());
    let d = b@.index_data;
    assert forall|k: int| 0 <= k < d.blob_hashes.len() implies (#[trigger] d.blob_hashes[k]).len() == 32 by {
        assert(d.blob_hashes[k] == b.index_data.blob_hashes@[k]@);
    }
}

/// Packing a tree, writing the archive and reading it back gives the archive
/// that was packed. Through compression of the index this rests on zstd
/// giving back what it compressed, which [`Brz::write`](crate::brz::Brz::write)
/// states of the index bytes it writes; it holds where [`lemma_archive_wf`] does and the index
/// takes at most `i32::MAX` bytes.
pub proof fn lemma_archive_write_read(fs: BrPendingFs, level: Option<i32>, b: Brz)
    requires
        node_size(fs) < i32::MAX,
        tree_fits(fs),
        archive_of(fs, level) == Ok::<BrzView, ()>(b@),
        index_bytes(b@.index_data).len() <= 0x7fff_ffff,
        blake3_digest(index_bytes(b@.index_data)).len() == 32,
        level matches Some(l) ==> (zstd_compressed(index_bytes(b@.index_data), l) matches Some(c)
            && c.len() <= 0x7fff_ffff && zstd_decoded(c) == Some(index_bytes(b@.index_data))),
    ensures
        archive_bytes(index_bytes(b@.index_data), b@.blob_data, level) matches Ok(bytes) && parse_brz(
            bytes,
        ) == Ok::<BrzView, BrzReadFailure>(b@),
{
    lemma_archive_wf(fs, level, b);
    lemma_brz_roundtrip(b@, level);
}

} // verus!
