//! What reading a packed archive gives back: every file of the tree, in the
//! order in which the walk met it, with its name and its content.
use vstd::prelude::*;

use crate::archive::{
    add_file, add_folder, archive_of, bfs_run, child_entries, empty_archive, first_digest,
    lemma_first_digest, lemma_queue_size_append, lemma_queue_size_children, queue_size, stored_blob,
    QueueEntry,
};
use crate::archive_wf::{lemma_queue_fits_append, lemma_queue_fits_children, name_fits, queue_fits, tree_fits};
use crate::brz::{Brz, BrzView};
use crate::codec::{blake3_digest, zstd_compressed, zstd_decompressed};
use crate::pending::BrPendingFs;
use crate::pending_size::node_size;
use crate::unpack::{blob_content, contents_ok, file_content, index_shape_ok};

verus! {

/// The files that the walk of [`bfs_run`] meets, in the order in which it
/// meets them, each as its name and its content. Folders add their entries
/// to the back of the queue; a file without content is passed over.
pub open spec fn queue_files(q: Seq<QueueEntry>) -> Seq<(Seq<char>, Seq<u8>)>
    decreases queue_size(q),
{
    if q.len() == 0 {
        seq![]
    } else {
        let (parent, name, node) = q[0];
        let rest = q.drop_first();
        proof {
            lemma_queue_size_append(seq![q[0]], rest);
            assert(seq![q[0]] + rest =~= q);
        }
        match node {
            BrPendingFs::Root(items) => {
                proof {
                    lemma_queue_size_append(rest, child_entries(-1i32, items@));
                    lemma_queue_size_children(-1i32, items@);
                }
                queue_files(rest + child_entries(-1i32, items@))
            },
            BrPendingFs::Folder(Some(items)) => {
                proof {
                    lemma_queue_size_append(rest, child_entries(-1i32, items@));
                    lemma_queue_size_children(-1i32, items@);
                }
                queue_files(rest + child_entries(-1i32, items@))
            },
            BrPendingFs::File(Some(content)) => seq![(name, content@)] + queue_files(rest),
            _ => queue_files(rest),
        }
    }
}

/// The files of a tree in the order in which packing it numbers them.
pub open spec fn tree_files(fs: BrPendingFs) -> Seq<(Seq<char>, Seq<u8>)> {
    queue_files(seq![(-1i32, "Root"@, fs)])
}

/// Which folder an entry waits under does not change the files met.
pub(crate) proof fn lemma_queue_files_parents(q1: Seq<QueueEntry>, q2: Seq<QueueEntry>)
    requires
        q1.len() == q2.len(),
        forall|i: int| 0 <= i < q1.len() ==> (#[trigger] q1[i]).1 == q2[i].1 && q1[i].2 == q2[i].2,
    ensures
        queue_files(q1) == queue_files(q2),
    decreases queue_size(q1),
{
    if q1.len() > 0 {
        let r1 = q1.drop_first();
        let r2 = q2.drop_first();
        lemma_queue_size_append(seq![q1[0]], r1);
        assert(seq![q1[0]] + r1 =~= q1);
        assert(q1[0].1 == q2[0].1 && q1[0].2 == q2[0].2);
        match q1[0].2 {
            BrPendingFs::Root(items) => {
                let c = child_entries(-1i32, items@);
                lemma_queue_size_append(r1, c);
                lemma_queue_size_children(-1i32, items@);
                assert forall|i: int| 0 <= i < (r1 + c).len() implies (#[trigger] (r1 + c)[i]).1 == (r2
                    + c)[i].1 && (r1 + c)[i].2 == (r2 + c)[i].2 by {
                    if i < r1.len() {
                        assert(r1[i] == q1[i + 1]);
                    }
                }
                lemma_queue_files_parents(r1 + c, r2 + c);
            },
            BrPendingFs::Folder(Some(items)) => {
                let c = child_entries(-1i32, items@);
                lemma_queue_size_append(r1, c);
                lemma_queue_size_children(-1i32, items@);
                assert forall|i: int| 0 <= i < (r1 + c).len() implies (#[trigger] (r1 + c)[i]).1 == (r2
                    + c)[i].1 && (r1 + c)[i].2 == (r2 + c)[i].2 by {
                    if i < r1.len() {
                        assert(r1[i] == q1[i + 1]);
                    }
                }
                lemma_queue_files_parents(r1 + c, r2 + c);
            },
            _ => {
                assert forall|i: int| 0 <= i < r1.len() implies (#[trigger] r1[i]).1 == r2[i].1
                    && r1[i].2 == r2[i].2 by {
                    assert(r1[i] == q1[i + 1]);
                }
                lemma_queue_files_parents(r1, r2);
            },
        }
    }
}

/// The walk only appends to the blob data.
proof fn lemma_bfs_grows(level: Option<i32>, q: Seq<QueueEntry>, acc: BrzView)
    requires
        bfs_run(level, q, acc) is Ok,
    ensures
        acc.blob_data.len() <= bfs_run(level, q, acc).unwrap().blob_data.len(),
    decreases queue_size(q),
{
    if q.len() > 0 {
        let (parent, name, node) = q[0];
        let rest = q.drop_first();
        lemma_queue_size_append(seq![q[0]], rest);
        assert(seq![q[0]] + rest =~= q);
        match node {
            BrPendingFs::Root(items) => {
                lemma_queue_size_append(rest, child_entries(-1i32, items@));
                lemma_queue_size_children(-1i32, items@);
                lemma_bfs_grows(level, rest + child_entries(-1i32, items@), acc);
            },
            BrPendingFs::Folder(Some(items)) => {
                let fid = acc.index_data.num_folders;
                lemma_queue_size_append(rest, child_entries(fid, items@));
                lemma_queue_size_children(fid, items@);
                lemma_bfs_grows(level, rest + child_entries(fid, items@), add_folder(acc, parent, name));
            },
            BrPendingFs::File(Some(content)) => {
                let next = add_file(acc, parent, name, content@, level).unwrap();
                lemma_bfs_grows(level, rest, next);
            },
            _ => {
                lemma_bfs_grows(level, rest, acc);
            },
        }
    }
}

/// What holds of the blobs and files of the archive at every point of the
/// walk: the lists have matching lengths, each file points at a blob or at
/// none, and each blob reads back as a content of `u` whose digest it records.
pub open spec fn blobs_read_back(v: BrzView, u: Set<Seq<u8>>) -> bool {
    let d = v.index_data;
    &&& 0 <= d.num_blobs
    &&& d.compression_methods.len() == d.num_blobs
    &&& d.sizes_uncompressed.len() == d.num_blobs
    &&& d.blob_ranges.len() == d.num_blobs
    &&& d.blob_hashes.len() == d.num_blobs
    &&& d.file_names.len() == d.file_content_ids.len()
    &&& forall|i: int|
        0 <= i < d.file_content_ids.len() ==> #[trigger] d.file_content_ids[i] == -1 || 0
            <= d.file_content_ids[i] < d.num_blobs
    &&& forall|k: int|
        0 <= k < d.num_blobs ==> (#[trigger] blob_content(v, k) matches Some(c) && u.contains(c)
            && blake3_digest(c) == d.blob_hashes[k])
}

/// Whether no two different contents of `u` have the same digest.
pub open spec fn digests_distinct(u: Set<Seq<u8>>) -> bool {
    forall|c1: Seq<u8>, c2: Seq<u8>|
        #[trigger] u.contains(c1) && #[trigger] u.contains(c2) && blake3_digest(c1) == blake3_digest(
            c2,
        ) ==> c1 == c2
}

/// Whether zstd at `level` gives back each content of `u` from the bytes it
/// compressed it to, where those are shorter.
pub open spec fn zstd_gives_back(u: Set<Seq<u8>>, level: Option<i32>) -> bool {
    forall|c: Seq<u8>|
        #[trigger] u.contains(c) ==> (level matches Some(l) ==> (zstd_compressed(c, l) matches Some(
            z,
        ) ==> (z.len() < c.len() ==> zstd_decompressed(z, c.len() as usize) == Some(c))))
}

proof fn lemma_add_folder_read(acc: BrzView, parent: i32, name: Seq<char>, u: Set<Seq<u8>>)
    requires
        blobs_read_back(acc, u),
    ensures
        blobs_read_back(add_folder(acc, parent, name), u),
        add_folder(acc, parent, name).index_data.file_names == acc.index_data.file_names,
        forall|i: int|
            0 <= i < acc.index_data.file_content_ids.len() ==> #[trigger] file_content(
                add_folder(acc, parent, name),
                i,
            ) == file_content(acc, i),
{
    let v = add_folder(acc, parent, name);
    assert forall|k: int| 0 <= k < v.index_data.num_blobs implies #[trigger] blob_content(v, k)
        == blob_content(acc, k) by {}
    assert forall|i: int| 0 <= i < acc.index_data.file_content_ids.len() implies #[trigger] file_content(
        v,
        i,
    ) == file_content(acc, i) by {
        let c = acc.index_data.file_content_ids[i];
        if c != -1 {
            assert(blob_content(v, c as int) == blob_content(acc, c as int));
        }
    }
}

proof fn lemma_add_file_read(
    acc: BrzView,
    parent: i32,
    name: Seq<char>,
    content: Seq<u8>,
    level: Option<i32>,
    u: Set<Seq<u8>>,
)
    requires
        blobs_read_back(acc, u),
        u.contains(content),
        digests_distinct(u),
        zstd_gives_back(u, level),
        content.len() <= i32::MAX,
        acc.index_data.num_blobs < i32::MAX,
        add_file(acc, parent, name, content, level) is Ok,
        add_file(acc, parent, name, content, level).unwrap().blob_data.len() <= usize::MAX,
    ensures
        ({
            let v = add_file(acc, parent, name, content, level).unwrap();
            let n = acc.index_data.file_content_ids.len() as int;
            &&& blobs_read_back(v, u)
            &&& v.index_data.file_content_ids.len() == n + 1
            &&& v.index_data.file_names == acc.index_data.file_names.push(name)
            &&& file_content(v, n) == Some(content)
            &&& forall|i: int| 0 <= i < n ==> #[trigger] file_content(v, i) == file_content(acc, i)
        }),
{
    let d = acc.index_data;
    let v = add_file(acc, parent, name, content, level).unwrap();
    let d2 = v.index_data;
    let n = d.file_content_ids.len() as int;
    let nb = d.num_blobs as int;
    let h = blake3_digest(content);
    lemma_first_digest(d.blob_hashes, h);
    assert(d2.file_names == d.file_names.push(name));
    assert forall|k: int| 0 <= k < nb implies #[trigger] blob_content(v, k) == blob_content(acc, k) by {
        if content.len() != 0 && first_digest(d.blob_hashes, h) is None {
            let (a, b) = d.blob_ranges[k];
            assert(d2.blob_ranges[k] == d.blob_ranges[k]);
            assert(d2.compression_methods[k] == d.compression_methods[k]);
            assert(d2.sizes_uncompressed[k] == d.sizes_uncompressed[k]);
            assert(blob_content(acc, k) is Some);
            assert(v.blob_data.subrange(a as int, b as int) =~= acc.blob_data.subrange(a as int, b as int));
        }
    }
    assert forall|i: int| 0 <= i < n implies #[trigger] file_content(v, i) == file_content(acc, i) by {
        assert(d2.file_content_ids[i] == d.file_content_ids[i]);
        let c = d.file_content_ids[i];
        if c != -1 {
            assert(blob_content(v, c as int) == blob_content(acc, c as int));
        }
    }
    if content.len() == 0 {
        assert(content =~= Seq::<u8>::empty());
        assert(d2.file_content_ids[n] == -1);
    } else {
        match first_digest(d.blob_hashes, h) {
            Some(k) => {
                assert(d2.file_content_ids[n] == k);
                let c2 = blob_content(acc, k).unwrap();
                assert(blob_content(acc, k) matches Some(c) && u.contains(c) && blake3_digest(c)
                    == d.blob_hashes[k]);
                assert(u.contains(c2) && blake3_digest(c2) == h);
                assert(c2 == content);
            },
            None => {
                let (m, stored) = stored_blob(content, level).unwrap();
                let old_len = acc.blob_data.len();
                assert(v.blob_data == acc.blob_data + stored);
                assert(d2.file_content_ids[n] == nb);
                assert(d2.blob_ranges[nb] == (old_len as usize, v.blob_data.len() as usize));
                assert(v.blob_data.subrange(old_len as int, v.blob_data.len() as int) =~= stored);
                assert(d2.compression_methods[nb] == m);
                assert(d2.sizes_uncompressed[nb] == content.len() as i32);
                assert(d2.blob_hashes[nb] == h);
                assert(blob_content(v, nb) == Some(content));
            },
        }
    }
    assert forall|k: int| 0 <= k < d2.num_blobs implies (#[trigger] blob_content(v, k) matches Some(c)
        && u.contains(c) && blake3_digest(c) == d2.blob_hashes[k]) by {
        if k < nb {
            assert(blob_content(v, k) == blob_content(acc, k));
            assert(d2.blob_hashes[k] == d.blob_hashes[k]);
        }
    }
    assert forall|i: int| 0 <= i < d2.file_content_ids.len() implies #[trigger] d2.file_content_ids[i]
        == -1 || 0 <= d2.file_content_ids[i] < d2.num_blobs by {
        if i < n {
            assert(d2.file_content_ids[i] == d.file_content_ids[i]);
        }
    }
}

proof fn lemma_bfs_read(level: Option<i32>, q: Seq<QueueEntry>, acc: BrzView, u: Set<Seq<u8>>)
    requires
        blobs_read_back(acc, u),
        queue_fits(q),
        forall|j: int| 0 <= j < queue_files(q).len() ==> u.contains(#[trigger] queue_files(q)[j].1),
        digests_distinct(u),
        zstd_gives_back(u, level),
        acc.index_data.num_blobs + queue_size(q) < i32::MAX,
        bfs_run(level, q, acc) is Ok,
        bfs_run(level, q, acc).unwrap().blob_data.len() <= usize::MAX,
    ensures
        ({
            let v = bfs_run(level, q, acc).unwrap();
            let n = acc.index_data.file_content_ids.len() as int;
            let fl = queue_files(q);
            &&& blobs_read_back(v, u)
            &&& v.index_data.file_content_ids.len() == n + fl.len()
            &&& v.index_data.file_names.take(n) == acc.index_data.file_names
            &&& forall|i: int| 0 <= i < n ==> #[trigger] file_content(v, i) == file_content(acc, i)
            &&& forall|j: int|
                0 <= j < fl.len() ==> v.index_data.file_names[n + j] == (#[trigger] fl[j]).0
                    && file_content(v, n + j) == Some(fl[j].1)
        }),
    decreases queue_size(q),
{
    let v = bfs_run(level, q, acc).unwrap();
    let n = acc.index_data.file_content_ids.len() as int;
    if q.len() == 0 {
        assert(v.index_data.file_names.take(n) =~= acc.index_data.file_names);
    } else {
        let (parent, name, node) = q[0];
        let rest = q.drop_first();
        lemma_queue_size_append(seq![q[0]], rest);
        lemma_queue_fits_append(seq![q[0]], rest);
        assert(seq![q[0]] + rest =~= q);
        assert(seq![q[0]].drop_first() =~= Seq::<QueueEntry>::empty());
        assert(queue_size(seq![q[0]]) == node_size(node) + queue_size(Seq::<QueueEntry>::empty()));
        match node {
            BrPendingFs::Root(items) => {
                let c = child_entries(-1i32, items@);
                lemma_queue_size_append(rest, c);
                lemma_queue_size_children(-1i32, items@);
                lemma_queue_fits_append(rest, c);
                lemma_queue_fits_children(-1i32, items@);
                assert(queue_files(q) == queue_files(rest + c));
                lemma_bfs_read(level, rest + c, acc, u);
            },
            BrPendingFs::Folder(Some(items)) => {
                let fid = acc.index_data.num_folders;
                let c = child_entries(fid, items@);
                let c0 = child_entries(-1i32, items@);
                lemma_queue_size_append(rest, c);
                lemma_queue_size_children(fid, items@);
                lemma_queue_fits_append(rest, c);
                lemma_queue_fits_children(fid, items@);
                assert forall|i: int| 0 <= i < (rest + c).len() implies (#[trigger] (rest + c)[i]).1 == (
                rest + c0)[i].1 && (rest + c)[i].2 == (rest + c0)[i].2 by {}
                lemma_queue_files_parents(rest + c, rest + c0);
                assert(queue_files(q) == queue_files(rest + c0));
                let acc2 = add_folder(acc, parent, name);
                lemma_add_folder_read(acc, parent, name, u);
                lemma_bfs_read(level, rest + c, acc2, u);
            },
            BrPendingFs::File(Some(content)) => {
                let acc2 = add_file(acc, parent, name, content@, level).unwrap();
                let fl = queue_files(q);
                assert(fl == seq![(name, content@)] + queue_files(rest));
                assert(fl[0] == (name, content@));
                assert(u.contains(fl[0].1));
                assert forall|j: int| 0 <= j < queue_files(rest).len() implies u.contains(
                    #[trigger] queue_files(rest)[j].1,
                ) by {
                    assert(queue_files(rest)[j] == fl[j + 1]);
                }
                lemma_bfs_grows(level, rest, acc2);
                lemma_add_file_read(acc, parent, name, content@, level, u);
                lemma_bfs_read(level, rest, acc2, u);
                let fr = queue_files(rest);
                assert(v.index_data.file_names.take(n + 1) == acc2.index_data.file_names);
                assert(v.index_data.file_names.take(n) =~= acc2.index_data.file_names.take(n));
                assert(acc2.index_data.file_names.take(n) =~= acc.index_data.file_names);
                assert(v.index_data.file_names[n] == acc2.index_data.file_names[n]);
                assert forall|j: int| 0 <= j < fl.len() implies v.index_data.file_names[n + j] == (
                #[trigger] fl[j]).0 && file_content(v, n + j) == Some(fl[j].1) by {
                    if j > 0 {
                        assert(fl[j] == fr[j - 1]);
                        assert(n + j == (n + 1) + (j - 1));
                    }
                }
            },
            _ => {
                assert(queue_files(q) == queue_files(rest));
                lemma_bfs_read(level, rest, acc, u);
            },
        }
    }
}

/// Packing a tree and reading the archive back gives every file of the tree:
/// the archive holds as many files as the tree, numbered in the order of the
/// walk (see [`tree_files`]), and file `j` has the name and the content of
/// the `j`-th file of the tree. So every file can be read and unpacking the
/// archive (see `Brz::to_pending`) succeeds.
///
/// Reading a content back rests on two outside facts, taken here of the
/// contents of the tree: no two different contents have the same BLAKE3
/// digest, and zstd gives back a content from the bytes it compressed it to.
/// The law holds where [`crate::archive_wf::lemma_archive_wf`] does.
#[verifier::spinoff_prover]
#[verifier::rlimit(40)]
pub proof fn lemma_archive_contents(fs: BrPendingFs, level: Option<i32>, b: Brz)
    requires
        node_size(fs) < i32::MAX,
        tree_fits(fs),
        archive_of(fs, level) == Ok::<BrzView, ()>(b@),
        forall|j1: int, j2: int|
            0 <= j1 < tree_files(fs).len() && 0 <= j2 < tree_files(fs).len() && blake3_digest(
                #[trigger] tree_files(fs)[j1].1,
            ) == blake3_digest(#[trigger] tree_files(fs)[j2].1) ==> tree_files(fs)[j1].1 == tree_files(
                fs,
            )[j2].1,
        forall|j: int|
            0 <= j < tree_files(fs).len() ==> (level matches Some(l) ==> (zstd_compressed(
                #[trigger] tree_files(fs)[j].1,
                l,
            ) matches Some(z) ==> (z.len() < tree_files(fs)[j].1.len() ==> zstd_decompressed(
                z,
                tree_files(fs)[j].1.len() as usize,
            ) == Some(tree_files(fs)[j].1)))),
    ensures
        b@.index_data.file_names.len() == tree_files(fs).len(),
        forall|j: int|
            0 <= j < tree_files(fs).len() ==> b@.index_data.file_names[j] == (
            #[trigger] tree_files(fs)[j]).0 && file_content(b@, j) == Some(tree_files(fs)[j].1),
        contents_ok(b@),
        index_shape_ok(b@.index_data),
{
    let tf = tree_files(fs);
    let u = Set::new(|c: Seq<u8>| exists|j: int| 0 <= j < tf.len() && tf[j].1 == c);
    let q = seq![(-1i32, "Root"@, fs)];
    assert forall|c1: Seq<u8>, c2: Seq<u8>|
        #[trigger] u.contains(c1) && #[trigger] u.contains(c2) && blake3_digest(c1) == blake3_digest(c2)
            implies c1 == c2 by {
        let j1 = choose|j: int| 0 <= j < tf.len() && tf[j].1 == c1;
        let j2 = choose|j: int| 0 <= j < tf.len() && tf[j].1 == c2;
        assert(blake3_digest(tf[j1].1) == blake3_digest(tf[j2].1));
    }
    assert forall|c: Seq<u8>| #[trigger] u.contains(c) implies (level matches Some(l) ==> (
    zstd_compressed(c, l) matches Some(z) ==> (z.len() < c.len() ==> zstd_decompressed(
        z,
        c.len() as usize,
    ) == Some(c)))) by {
        let j = choose|j: int| 0 <= j < tf.len() && tf[j].1 == c;
        assert(tf[j].1 == c);
    }
    assert forall|j: int| 0 <= j < queue_files(q).len() implies u.contains(
        #[trigger] queue_files(q)[j].1,
    ) by {
        assert(tf[j].1 == queue_files(q)[j].1);
    }
    assert(q.drop_first() =~= Seq::<QueueEntry>::empty());
    assert(queue_size(q) == node_size(fs) + queue_size(Seq::<QueueEntry>::empty()));
    assert(queue_fits(q) == (tree_fits(fs) && queue_fits(Seq::<QueueEntry>::empty())) && queue_fits(q))
        by {
        reveal_strlit("Root");
        assert(vstd::utf8::encode_utf8("Root"@).len() < 65536) by {
            vstd::utf8::is_ascii_chars_encode_utf8("Root"@);
        }
        assert(q[0] == (-1i32, "Root"@, fs));
        assert(name_fits(q[0].1));
        assert(queue_fits(q.drop_first()));
    }
    let acc = empty_archive();
    assert(blobs_read_back(acc, u));
    let v = bfs_run(level, q, acc).unwrap();
    assert(b@.blob_data == v.blob_data);
    assert(b.blob_data.len() == b.blob_data@.len());
    lemma_bfs_read(level, q, acc, u);
    crate::archive_wf::lemma_archive_wf(fs, level, b);
    assert(b@.index_data.file_content_ids == v.index_data.file_content_ids);
    assert forall|j: int| 0 <= j < tf.len() implies b@.index_data.file_names[j] == (
    #[trigger] tf[j]).0 && file_content(b@, j) == Some(tf[j].1) by {
        assert(file_content(b@, j) == file_content(v, 0 + j));
    }
    assert forall|i: int| 0 <= i < b@.index_data.file_content_ids.len() implies #[trigger] file_content(
        b@,
        i,
    ) is Some by {
        assert(file_content(b@, i) == file_content(v, 0 + i));
    }
}

} // verus!
