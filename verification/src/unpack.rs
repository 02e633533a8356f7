//! Turning an archive back into a filesystem tree: folders and files placed
//! by their parent ids, each file with the content of its blob.
use vstd::prelude::*;

use crate::brz::{Brz, BrzView, CompressionMethod};
use crate::codec::{zstd_decompress, zstd_decompressed};
use crate::errors::{BrError, BrFsError};
use crate::index::IndexView;
use crate::le::bytes_to_vec;
use crate::pending::BrPendingFs;

verus! {

/// Whether the parallel lists of an index have matching lengths.
pub open spec fn index_shape_ok(d: IndexView) -> bool {
    &&& d.folder_names.len() == d.folder_parent_ids.len()
    &&& d.file_names.len() == d.file_parent_ids.len()
    &&& d.file_content_ids.len() == d.file_parent_ids.len()
    &&& d.compression_methods.len() == d.blob_ranges.len()
    &&& d.sizes_uncompressed.len() == d.blob_ranges.len()
}

/// The content of blob `k`: its bytes in the blob data, decompressed where
/// it is stored compressed. `None` where `k` names no blob, its range lies
/// outside the blob data, a compressed blob has a negative size, or zstd
/// fails.
pub open spec fn blob_content(v: BrzView, k: int) -> Option<Seq<u8>> {
    let d = v.index_data;
    if !(0 <= k < d.blob_ranges.len()) {
        None
    } else {
        let (a, b) = d.blob_ranges[k];
        if !(a <= b && b <= v.blob_data.len()) {
            None
        } else {
            let stored = v.blob_data.subrange(a as int, b as int);
            match d.compression_methods[k] {
                CompressionMethod::NoCompression => Some(stored),
                CompressionMethod::GenericZstd => if d.sizes_uncompressed[k] < 0 {
                    None
                } else {
                    zstd_decompressed(stored, d.sizes_uncompressed[k] as usize)
                },
            }
        }
    }
}

/// The content of file `i`: empty for content id -1, else that of its blob.
pub open spec fn file_content(v: BrzView, i: int) -> Option<Seq<u8>> {
    let c = v.index_data.file_content_ids[i];
    if c == -1 {
        Some(seq![])
    } else {
        blob_content(v, c as int)
    }
}

/// The ids, from `i` on, of the folders that lie in folder `p` (-1: at the
/// top) and have a higher id than it.
pub open spec fn child_folder_ids(d: IndexView, p: int, i: int) -> Seq<int>
    decreases d.folder_parent_ids.len() - i,
{
    if i < 0 || i >= d.folder_parent_ids.len() {
        seq![]
    } else if d.folder_parent_ids[i] == p && i > p {
        seq![i] + child_folder_ids(d, p, i + 1)
    } else {
        child_folder_ids(d, p, i + 1)
    }
}

/// The ids, from `i` on, of the files that lie in folder `p`.
pub open spec fn child_file_ids(d: IndexView, p: int, i: int) -> Seq<int>
    decreases d.file_parent_ids.len() - i,
{
    if i < 0 || i >= d.file_parent_ids.len() {
        seq![]
    } else if d.file_parent_ids[i] == p {
        seq![i] + child_file_ids(d, p, i + 1)
    } else {
        child_file_ids(d, p, i + 1)
    }
}

proof fn lemma_child_folder_ids(d: IndexView, p: int, i: int)
    requires
        0 <= i,
    ensures
        forall|j: int|
            0 <= j < child_folder_ids(d, p, i).len() ==> i <= #[trigger] child_folder_ids(d, p, i)[j]
                < d.folder_parent_ids.len() && child_folder_ids(d, p, i)[j] > p,
    decreases d.folder_parent_ids.len() - i,
{
    if i < d.folder_parent_ids.len() {
        lemma_child_folder_ids(d, p, i + 1);
        let rest = child_folder_ids(d, p, i + 1);
        if d.folder_parent_ids[i] == p && i > p {
            assert forall|j: int| 0 < j < (seq![i] + rest).len() implies (seq![i] + rest)[j] == rest[j - 1] by {}
        }
    }
}

/// `items` are the entries of folder `f` (-1: the top) of the archive: first
/// the folders in it, in the order of their ids, each with its own entries;
/// then the files in it, in order, each with its content.
pub open spec fn folder_rel(v: BrzView, f: int, items: Seq<(String, BrPendingFs)>) -> bool
    decreases v.index_data.folder_parent_ids.len() - f,
{
    let d = v.index_data;
    let fs = child_folder_ids(d, f, 0);
    let gs = child_file_ids(d, f, 0);
    &&& items.len() == fs.len() + gs.len()
    &&& forall|j: int|
        #![trigger items[j]]
        0 <= j < fs.len() ==> (items[j].0@ == d.folder_names[fs[j]] && (items[j].1 matches BrPendingFs::Folder(Some(sub))
            && (f < fs[j] < d.folder_parent_ids.len() ==> folder_rel(v, fs[j], sub@))))
    &&& forall|j: int|
        #![trigger items[fs.len() + j]]
        0 <= j < gs.len() ==> (items[fs.len() + j].0@ == d.file_names[gs[j]] && (items[fs.len()
            + j].1 matches BrPendingFs::File(Some(c)) && file_content(v, gs[j]) == Some(c@)))
}

/// Whether every file of the archive has readable content.
pub open spec fn contents_ok(v: BrzView) -> bool {
    forall|i: int| 0 <= i < v.index_data.file_content_ids.len() ==> #[trigger] file_content(v, i) is Some
}

impl Brz {
    fn read_blob(&self, k: usize) -> (r: Option<Vec<u8>>)
        requires
            index_shape_ok(self@.index_data),
        ensures
            match blob_content(self@, k as int) {
                Some(c) => r matches Some(b) && b@ == c,
                None => r is None,
            },
    {
        if k >= self.index_data.blob_ranges.len() {
            return None;
        }
        let (a, b) = self.index_data.blob_ranges[k];
        if !(a <= b && b <= self.blob_data.len()) {
            return None;
        }
        let mut stored: Vec<u8> = Vec::new();
        let mut i = a;
        while i < b
            invariant
                a <= i <= b,
                b <= self.blob_data@.len(),
                stored@ == self.blob_data@.subrange(a as int, i as int),
            decreases b - i,
        {
            stored.push(self.blob_data[i]);
            i = i + 1;
            assert(stored@ =~= self.blob_data@.subrange(a as int, i as int));
        }
        match self.index_data.compression_methods[k] {
            CompressionMethod::NoCompression => Some(stored),
            CompressionMethod::GenericZstd => {
                let size = self.index_data.sizes_uncompressed[k];
                if size < 0 {
                    return None;
                }
                let capacity = size as usize;
                match zstd_decompress(stored.as_slice(), capacity) {
                    Ok(d) => Some(d),
                    Err(_) => None,
                }
            },
        }
    }

    fn read_contents(&self) -> (r: Result<Vec<Vec<u8>>, BrError>)
        requires
            index_shape_ok(self@.index_data),
        ensures
            r matches Ok(cs) ==> contents_ok(self@) && cs@.len() == self@.index_data.file_content_ids.len()
                && forall|i: int| 0 <= i < cs@.len() ==> file_content(self@, i) == Some(#[trigger] cs@[i]@),
            r matches Err(e) ==> exists|i: int|
                0 <= i < self@.index_data.file_content_ids.len() && file_content(self@, i) is None
                    && (forall|j: int| 0 <= j < i ==> #[trigger] file_content(self@, j) is Some)
                    && (e matches BrError::Fs(BrFsError::ExpectedFileContent(n)) && n@
                    == self@.index_data.file_names[i]),
            !contents_ok(self@) ==> r is Err,
    {
        let n = self.index_data.file_content_ids.len();
        let mut cs: Vec<Vec<u8>> = Vec::new();
        let mut i: usize = 0;
        while i < n
            invariant
                0 <= i <= n,
                n == self@.index_data.file_content_ids.len(),
                index_shape_ok(self@.index_data),
                cs@.len() == i,
                forall|j: int| 0 <= j < i ==> file_content(self@, j) == Some(#[trigger] cs@[j]@),
            decreases n - i,
        {
            let c = self.index_data.file_content_ids[i];
            let content = if c == -1 {
                Some(Vec::new())
            } else if c < 0 {
                None
            } else {
                self.read_blob(c as usize)
            };
            match content {
                Some(b) => {
                    assert(c == -1 ==> b@ =~= Seq::<u8>::empty());
                    assert(file_content(self@, i as int) == Some(b@));
                    let ghost prev = cs@;
                    cs.push(b);
                    assert forall|j: int| 0 <= j < i + 1 implies file_content(self@, j) == Some(
                        #[trigger] cs@[j]@,
                    ) by {
                        if j < i {
                            assert(cs@[j] == prev[j]);
                        }
                    }
                },
                None => {
                    let name = self.index_data.file_names[i].clone();
                    proof {
                        assert(file_content(self@, i as int) is None);
                        assert forall|j: int| 0 <= j < i implies #[trigger] file_content(self@, j) is Some by {
                            assert(file_content(self@, j) == Some(cs@[j]@));
                        }
                        assert(name@ == self@.index_data.file_names[i as int]);
                    }
                    return Err(BrError::Fs(BrFsError::ExpectedFileContent(name)));
                },
            }
            i = i + 1;
        }
        assert forall|j: int| 0 <= j < n implies #[trigger] file_content(self@, j) is Some by {
            assert(file_content(self@, j) == Some(cs@[j]@));
        }
        Ok(cs)
    }

    fn build_items(&self, contents: &Vec<Vec<u8>>, p: i64) -> (items: Vec<(String, BrPendingFs)>)
        requires
            index_shape_ok(self@.index_data),
            contents@.len() == self@.index_data.file_content_ids.len(),
            forall|i: int| 0 <= i < contents@.len() ==> file_content(self@, i) == Some(#[trigger] contents@[i]@),
            -1 <= p < self@.index_data.folder_parent_ids.len(),
            self@.index_data.folder_parent_ids.len() <= i64::MAX,
        ensures
            folder_rel(self@, p as int, items@),
        decreases self@.index_data.folder_parent_ids.len() - p,
    {
        let ghost d = self@.index_data;
        let nf = self.index_data.folder_parent_ids.len();
        let mut items: Vec<(String, BrPendingFs)> = Vec::new();
        let mut f: usize = 0;
        let ghost mut ids: Seq<int> = seq![];
        proof {
            lemma_child_folder_ids(d, p as int, 0);
        }
        while f < nf
            invariant
                0 <= f <= nf,
                nf == d.folder_parent_ids.len(),
                d == self@.index_data,
                index_shape_ok(d),
                -1 <= p < nf,
                nf <= i64::MAX,
                contents@.len() == d.file_content_ids.len(),
                forall|i: int| 0 <= i < contents@.len() ==> file_content(self@, i) == Some(#[trigger] contents@[i]@),
                child_folder_ids(d, p as int, 0) == ids + child_folder_ids(d, p as int, f as int),
                items@.len() == ids.len(),
                forall|j: int|
                    #![trigger items@[j]]
                    0 <= j < ids.len() ==> (items@[j].0@ == d.folder_names[ids[j]] && (items@[j].1 matches BrPendingFs::Folder(Some(sub))
                        && (p < ids[j] < nf ==> folder_rel(self@, ids[j], sub@)))),
            decreases nf - f,
        {
            let parent = self.index_data.folder_parent_ids[f];
            let ghost before = items@;
            if (parent as i64) == p && (f as i64) > p {
                let sub = self.build_items(contents, f as i64);
                let name = self.index_data.folder_names[f].clone();
                proof {
                    assert(child_folder_ids(d, p as int, f as int) == seq![f as int] + child_folder_ids(
                        d,
                        p as int,
                        f + 1,
                    ));
                    assert(ids + (seq![f as int] + child_folder_ids(d, p as int, f + 1)) =~= ids.push(
                        f as int,
                    ) + child_folder_ids(d, p as int, f + 1));
                    ids = ids.push(f as int);
                    assert(name@ == d.folder_names[f as int]);
                }
                items.push((name, BrPendingFs::Folder(Some(sub))));
                assert(ids[before.len() as int] == f as int);
                assert(items@[before.len() as int] == (name, BrPendingFs::Folder(Some(sub))));
                assert forall|j: int|
                    #![trigger items@[j]]
                    0 <= j < ids.len() implies (items@[j].0@ == d.folder_names[ids[j]] && (items@[j].1 matches BrPendingFs::Folder(Some(sub))
                        && (p < ids[j] < nf ==> folder_rel(self@, ids[j], sub@)))) by {
                    if j < before.len() {
                        assert(items@[j] == before[j]);
                    }
                }
            } else {
                assert(child_folder_ids(d, p as int, f as int) == child_folder_ids(d, p as int, f + 1));
            }
            f = f + 1;
        }
        assert(child_folder_ids(d, p as int, nf as int) =~= Seq::<int>::empty());
        assert(ids =~= child_folder_ids(d, p as int, 0));
        let nfo = items.len();
        let nfi = self.index_data.file_parent_ids.len();
        let mut i: usize = 0;
        let ghost mut gids: Seq<int> = seq![];
        while i < nfi
            invariant
                0 <= i <= nfi,
                nfi == d.file_parent_ids.len(),
                d == self@.index_data,
                index_shape_ok(d),
                contents@.len() == d.file_content_ids.len(),
                forall|k: int| 0 <= k < contents@.len() ==> file_content(self@, k) == Some(#[trigger] contents@[k]@),
                ids == child_folder_ids(d, p as int, 0),
                nfo == ids.len(),
                child_file_ids(d, p as int, 0) == gids + child_file_ids(d, p as int, i as int),
                items@.len() == nfo + gids.len(),
                forall|j: int|
                    #![trigger items@[j]]
                    0 <= j < ids.len() ==> (items@[j].0@ == d.folder_names[ids[j]] && (items@[j].1 matches BrPendingFs::Folder(Some(sub))
                        && (p < ids[j] < d.folder_parent_ids.len() ==> folder_rel(self@, ids[j], sub@)))),
                forall|j: int|
                    #![trigger items@[nfo + j]]
                    0 <= j < gids.len() ==> (items@[nfo + j].0@ == d.file_names[gids[j]] && (items@[nfo
                        + j].1 matches BrPendingFs::File(Some(c)) && file_content(self@, gids[j]) == Some(c@))),
            decreases nfi - i,
        {
            let parent = self.index_data.file_parent_ids[i];
            let ghost before = items@;
            if (parent as i64) == p {
                let content = bytes_to_vec(contents[i].as_slice());
                let name = self.index_data.file_names[i].clone();
                proof {
                    assert(child_file_ids(d, p as int, i as int) == seq![i as int] + child_file_ids(
                        d,
                        p as int,
                        i + 1,
                    ));
                    assert(gids + (seq![i as int] + child_file_ids(d, p as int, i + 1)) =~= gids.push(
                        i as int,
                    ) + child_file_ids(d, p as int, i + 1));
                    gids = gids.push(i as int);
                    assert(name@ == d.file_names[i as int]);
                    assert(file_content(self@, i as int) == Some(contents@[i as int]@));
                }
                items.push((name, BrPendingFs::File(Some(content))));
                assert forall|j: int|
                    #![trigger items@[j]]
                    0 <= j < ids.len() implies (items@[j].0@ == d.folder_names[ids[j]] && (items@[j].1 matches BrPendingFs::Folder(Some(sub))
                        && (p < ids[j] < d.folder_parent_ids.len() ==> folder_rel(self@, ids[j], sub@)))) by {
                    assert(items@[j] == before[j]);
                }
                assert forall|j: int|
                    #![trigger items@[nfo + j]]
                    0 <= j < gids.len() implies (items@[nfo + j].0@ == d.file_names[gids[j]] && (items@[nfo
                        + j].1 matches BrPendingFs::File(Some(c)) && file_content(self@, gids[j]) == Some(c@))) by {
                    if j < gids.len() - 1 {
                        assert(items@[nfo + j] == before[nfo + j]);
                    }
                }
            } else {
                assert(child_file_ids(d, p as int, i as int) == child_file_ids(d, p as int, i + 1));
            }
            i = i + 1;
        }
        assert(child_file_ids(d, p as int, nfi as int) =~= Seq::<int>::empty());
        assert(gids =~= child_file_ids(d, p as int, 0));
        items
    }

    /// The filesystem tree that this archive holds (see [`folder_rel`]):
    /// a root whose entries are the folders and files at the top. Fails on
    /// the first file whose content cannot be read (see [`file_content`]).
    pub fn to_pending(&self) -> (r: Result<BrPendingFs, BrError>)
        requires
            index_shape_ok(self@.index_data),
            self@.index_data.folder_parent_ids.len() <= i64::MAX,
        ensures
            contents_ok(self@) ==> (r matches Ok(BrPendingFs::Root(items)) && folder_rel(self@, -1, items@)),
            !contents_ok(self@) ==> (r matches Err(e) && exists|i: int|
                0 <= i < self@.index_data.file_content_ids.len() && file_content(self@, i) is None
                    && (forall|j: int| 0 <= j < i ==> #[trigger] file_content(self@, j) is Some)
                    && (e matches BrError::Fs(BrFsError::ExpectedFileContent(n)) && n@
                    == self@.index_data.file_names[i])),
    {
        let contents = match self.read_contents() {
            Ok(cs) => cs,
            Err(e) => {
                return Err(e);
            },
        };
        let items = self.build_items(&contents, -1);
        Ok(BrPendingFs::Root(items))
    }
}

} // verus!
