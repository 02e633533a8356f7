//! The index of a `.brz` archive: folders, files and blobs, each as parallel
//! arrays, with the byte ranges of the blobs computed from their sizes.
use vstd::prelude::*;
use vstd::utf8::{decode_utf8, encode_utf8, valid_utf8};
use vstd::string::*;
use vstd::utf8::{encode_utf8_decode_utf8, encode_utf8_valid_utf8};

use crate::brz::{method_byte, method_of_byte, CompressionMethod};
use crate::errors::BrzError;
use crate::le::{i32_le, lemma_i32_le, lemma_u16_le, push_i32_le, push_u16_le, u16_le};
use crate::reader::{
    lemma_p_list_done, lemma_p_list_err, lemma_p_list_flatten, lemma_p_list_start, lemma_p_list_step, p_bytes, p_i32, p_list, p_string,
    p_u16, p_u8, prefixed, read_hash, read_i32, read_string, read_u16, read_u8, Parsed,
};

verus! {

/// Parses one `i32` of a list.
pub open spec fn e_i32() -> spec_fn(int, Seq<u8>) -> Parsed<i32> {
    |k: int, s: Seq<u8>| p_i32(s)
}

/// Parses one name length of a list.
pub open spec fn e_u16() -> spec_fn(int, Seq<u8>) -> Parsed<u16> {
    |k: int, s: Seq<u8>| p_u16(s)
}

/// Parses the `k`-th name of a list, whose byte length is `lens[k]`.
pub open spec fn e_name(lens: Seq<u16>) -> spec_fn(int, Seq<u8>) -> Parsed<Seq<char>> {
    |k: int, s: Seq<u8>| p_string(s, lens[k])
}

/// Parses one compression method byte.
pub open spec fn e_method() -> spec_fn(int, Seq<u8>) -> Parsed<CompressionMethod> {
    |k: int, s: Seq<u8>|
        match p_u8(s) {
            Err(e) => Err(e),
            Ok((b, r)) => if b > 1 {
                Err(BrzError::InvalidCompressionMethod(b))
            } else {
                Ok((method_of_byte(b), r))
            },
        }
}

/// The error for a negative blob size.
pub open spec fn size_error(compressed: bool, v: i32) -> BrzError {
    if compressed {
        BrzError::InvalidBlobCompressedLength(v)
    } else {
        BrzError::InvalidBlobDecompressedLength(v)
    }
}

/// Parses one blob size, which must not be negative.
pub open spec fn e_size(compressed: bool) -> spec_fn(int, Seq<u8>) -> Parsed<i32> {
    |k: int, s: Seq<u8>|
        match p_i32(s) {
            Err(e) => Err(e),
            Ok((v, r)) => if v < 0 {
                Err(size_error(compressed, v))
            } else {
                Ok((v, r))
            },
        }
}

/// Parses one 32-byte blob digest.
pub open spec fn e_hash() -> spec_fn(int, Seq<u8>) -> Parsed<Seq<u8>> {
    |k: int, s: Seq<u8>| p_bytes(s, 32)
}

/// The characters of each string.
pub open spec fn strings_view(v: Seq<String>) -> Seq<Seq<char>> {
    v.map_values(|s: String| s@)
}

/// The bytes of each digest.
pub open spec fn hashes_view(v: Seq<[u8; 32]>) -> Seq<Seq<u8>> {
    v.map_values(|h: [u8; 32]| h@)
}

fn read_i32_list(r: &mut &[u8], n: i32) -> (res: Result<Vec<i32>, BrzError>)
    requires
        n >= 0,
    ensures
        match p_list(e_i32(), old(r)@, 0, n as nat) {
            Ok((xs, rest)) => res matches Ok(v) && v@ == xs && final(r)@ == rest,
            Err(e) => res matches Err(e2) && e2 == e,
        },
{
    let ghost s0 = r@;
    let ghost whole = p_list(e_i32(), s0, 0, n as nat);
    proof {
        lemma_p_list_start(e_i32(), s0, n as nat);
    }
    let mut v: Vec<i32> = Vec::new();
    let mut i: i32 = 0;
    while i < n
        invariant
            0 <= i <= n,
            s0 == old(r)@,
            whole == p_list(e_i32(), s0, 0, n as nat),
            whole == prefixed(v@, p_list(e_i32(), r@, i as int, (n - i) as nat)),
        decreases n - i,
    {
        let ghost cur = r@;
        match read_i32(r) {
            Ok(x) => {
                proof {
                    lemma_p_list_step(e_i32(), whole, v@, cur, i as int, (n - i) as nat, x, r@);
                }
                v.push(x);
                i = i + 1;
            },
            Err(e) => {
                proof {
                    lemma_p_list_err(e_i32(), whole, v@, cur, i as int, (n - i) as nat, e);
                }
                return Err(e);
            },
        }
    }
    proof {
        lemma_p_list_done(e_i32(), whole, v@, r@, i as int);
    }
    Ok(v)
}

fn read_u16_list(r: &mut &[u8], n: i32) -> (res: Result<Vec<u16>, BrzError>)
    requires
        n >= 0,
    ensures
        match p_list(e_u16(), old(r)@, 0, n as nat) {
            Ok((xs, rest)) => res matches Ok(v) && v@ == xs && final(r)@ == rest,
            Err(e) => res matches Err(e2) && e2 == e,
        },
{
    let ghost s0 = r@;
    let ghost whole = p_list(e_u16(), s0, 0, n as nat);
    proof {
        lemma_p_list_start(e_u16(), s0, n as nat);
    }
    let mut v: Vec<u16> = Vec::new();
    let mut i: i32 = 0;
    while i < n
        invariant
            0 <= i <= n,
            s0 == old(r)@,
            whole == p_list(e_u16(), s0, 0, n as nat),
            whole == prefixed(v@, p_list(e_u16(), r@, i as int, (n - i) as nat)),
        decreases n - i,
    {
        let ghost cur = r@;
        match read_u16(r) {
            Ok(x) => {
                proof {
                    lemma_p_list_step(e_u16(), whole, v@, cur, i as int, (n - i) as nat, x, r@);
                }
                v.push(x);
                i = i + 1;
            },
            Err(e) => {
                proof {
                    lemma_p_list_err(e_u16(), whole, v@, cur, i as int, (n - i) as nat, e);
                }
                return Err(e);
            },
        }
    }
    proof {
        lemma_p_list_done(e_u16(), whole, v@, r@, i as int);
    }
    Ok(v)
}

fn read_name_list(r: &mut &[u8], lens: &Vec<u16>) -> (res: Result<Vec<String>, BrzError>)
    ensures
        match p_list(e_name(lens@), old(r)@, 0, lens@.len()) {
            Ok((xs, rest)) => res matches Ok(v) && strings_view(v@) == xs && final(r)@ == rest,
            Err(e) => res matches Err(e2) && e2 == e,
        },
{
    let ghost s0 = r@;
    let ghost el = e_name(lens@);
    let ghost whole = p_list(el, s0, 0, lens@.len());
    proof {
        lemma_p_list_start(el, s0, lens@.len());
    }
    let mut v: Vec<String> = Vec::new();
    let mut i: usize = 0;
    assert(strings_view(v@) =~= Seq::<Seq<char>>::empty());
    while i < lens.len()
        invariant
            0 <= i <= lens@.len(),
            el == e_name(lens@),
            s0 == old(r)@,
            whole == p_list(el, s0, 0, lens@.len()),
            whole == prefixed(strings_view(v@), p_list(el, r@, i as int, (lens@.len() - i) as nat)),
        decreases lens@.len() - i,
    {
        let ghost cur = r@;
        match read_string(r, lens[i]) {
            Ok(x) => {
                proof {
                    lemma_p_list_step(
                        el,
                        whole,
                        strings_view(v@),
                        cur,
                        i as int,
                        (lens@.len() - i) as nat,
                        x@,
                        r@,
                    );
                }
                let ghost old_v = v@;
                v.push(x);
                assert(strings_view(v@) =~= strings_view(old_v).push(x@));
                i = i + 1;
            },
            Err(e) => {
                proof {
                    lemma_p_list_err(el, whole, strings_view(v@), cur, i as int, (lens@.len() - i) as nat, e);
                }
                return Err(e);
            },
        }
    }
    proof {
        lemma_p_list_done(el, whole, strings_view(v@), r@, i as int);
    }
    Ok(v)
}

fn read_method_list(r: &mut &[u8], n: i32) -> (res: Result<Vec<CompressionMethod>, BrzError>)
    requires
        n >= 0,
    ensures
        match p_list(e_method(), old(r)@, 0, n as nat) {
            Ok((xs, rest)) => res matches Ok(v) && v@ == xs && final(r)@ == rest,
            Err(e) => res matches Err(e2) && e2 == e,
        },
{
    let ghost s0 = r@;
    let ghost whole = p_list(e_method(), s0, 0, n as nat);
    proof {
        lemma_p_list_start(e_method(), s0, n as nat);
    }
    let mut v: Vec<CompressionMethod> = Vec::new();
    let mut i: i32 = 0;
    while i < n
        invariant
            0 <= i <= n,
            s0 == old(r)@,
            whole == p_list(e_method(), s0, 0, n as nat),
            whole == prefixed(v@, p_list(e_method(), r@, i as int, (n - i) as nat)),
        decreases n - i,
    {
        let ghost cur = r@;
        let b = match read_u8(r) {
            Ok(b) => b,
            Err(e) => {
                proof {
                    lemma_p_list_err(e_method(), whole, v@, cur, i as int, (n - i) as nat, e);
                }
                return Err(e);
            },
        };
        match CompressionMethod::try_from_u8(b) {
            Ok(m) => {
                proof {
                    lemma_p_list_step(e_method(), whole, v@, cur, i as int, (n - i) as nat, m, r@);
                }
                v.push(m);
                i = i + 1;
            },
            Err(e) => {
                proof {
                    lemma_p_list_err(e_method(), whole, v@, cur, i as int, (n - i) as nat, e);
                }
                return Err(e);
            },
        }
    }
    proof {
        lemma_p_list_done(e_method(), whole, v@, r@, i as int);
    }
    Ok(v)
}

fn read_size_list(r: &mut &[u8], n: i32, compressed: bool) -> (res: Result<Vec<i32>, BrzError>)
    requires
        n >= 0,
    ensures
        match p_list(e_size(compressed), old(r)@, 0, n as nat) {
            Ok((xs, rest)) => res matches Ok(v) && v@ == xs && final(r)@ == rest,
            Err(e) => res matches Err(e2) && e2 == e,
        },
{
    let ghost s0 = r@;
    let ghost el = e_size(compressed);
    let ghost whole = p_list(el, s0, 0, n as nat);
    proof {
        lemma_p_list_start(el, s0, n as nat);
    }
    let mut v: Vec<i32> = Vec::new();
    let mut i: i32 = 0;
    while i < n
        invariant
            0 <= i <= n,
            el == e_size(compressed),
            s0 == old(r)@,
            whole == p_list(el, s0, 0, n as nat),
            whole == prefixed(v@, p_list(el, r@, i as int, (n - i) as nat)),
        decreases n - i,
    {
        let ghost cur = r@;
        let len = match read_i32(r) {
            Ok(x) => x,
            Err(e) => {
                proof {
                    lemma_p_list_err(el, whole, v@, cur, i as int, (n - i) as nat, e);
                }
                return Err(e);
            },
        };
        if len < 0 {
            proof {
                lemma_p_list_err(el, whole, v@, cur, i as int, (n - i) as nat, size_error(compressed, len));
            }
            if compressed {
                return Err(BrzError::InvalidBlobCompressedLength(len));
            } else {
                return Err(BrzError::InvalidBlobDecompressedLength(len));
            }
        }
        proof {
            lemma_p_list_step(el, whole, v@, cur, i as int, (n - i) as nat, len, r@);
        }
        v.push(len);
        i = i + 1;
    }
    proof {
        lemma_p_list_done(el, whole, v@, r@, i as int);
    }
    Ok(v)
}

fn read_hash_list(r: &mut &[u8], n: i32) -> (res: Result<Vec<[u8; 32]>, BrzError>)
    requires
        n >= 0,
    ensures
        match p_list(e_hash(), old(r)@, 0, n as nat) {
            Ok((xs, rest)) => res matches Ok(v) && hashes_view(v@) == xs && final(r)@ == rest,
            Err(e) => res matches Err(e2) && e2 == e,
        },
{
    let ghost s0 = r@;
    let ghost whole = p_list(e_hash(), s0, 0, n as nat);
    proof {
        lemma_p_list_start(e_hash(), s0, n as nat);
    }
    let mut v: Vec<[u8; 32]> = Vec::new();
    let mut i: i32 = 0;
    assert(hashes_view(v@) =~= Seq::<Seq<u8>>::empty());
    while i < n
        invariant
            0 <= i <= n,
            s0 == old(r)@,
            whole == p_list(e_hash(), s0, 0, n as nat),
            whole == prefixed(hashes_view(v@), p_list(e_hash(), r@, i as int, (n - i) as nat)),
        decreases n - i,
    {
        let ghost cur = r@;
        match read_hash(r) {
            Ok(h) => {
                proof {
                    lemma_p_list_step(
                        e_hash(),
                        whole,
                        hashes_view(v@),
                        cur,
                        i as int,
                        (n - i) as nat,
                        h@,
                        r@,
                    );
                }
                let ghost old_v = v@;
                v.push(h);
                assert(hashes_view(v@) =~= hashes_view(old_v).push(h@));
                i = i + 1;
            },
            Err(e) => {
                proof {
                    lemma_p_list_err(e_hash(), whole, hashes_view(v@), cur, i as int, (n - i) as nat, e);
                }
                return Err(e);
            },
        }
    }
    proof {
        lemma_p_list_done(e_hash(), whole, hashes_view(v@), r@, i as int);
    }
    Ok(v)
}


/// The byte length of a blob as stored: compressed or not.
pub open spec fn blob_len(m: CompressionMethod, uncompressed: i32, compressed: i32) -> int {
    match m {
        CompressionMethod::NoCompression => uncompressed as int,
        CompressionMethod::GenericZstd => compressed as int,
    }
}

/// Where the `k`-th blob ends (and the next begins) in the blob data.
pub open spec fn blob_end(ms: Seq<CompressionMethod>, us: Seq<i32>, cs: Seq<i32>, k: int) -> int
    decreases k,
{
    if k <= 0 {
        0
    } else {
        blob_end(ms, us, cs, k - 1) + blob_len(ms[k - 1], us[k - 1], cs[k - 1])
    }
}

/// The byte range of each blob in the blob data: blobs lie one after the other.
pub open spec fn blob_ranges(ms: Seq<CompressionMethod>, us: Seq<i32>, cs: Seq<i32>) -> Seq<
    (usize, usize),
> {
    Seq::new(
        ms.len(),
        |i: int| (blob_end(ms, us, cs, i) as usize, blob_end(ms, us, cs, i + 1) as usize),
    )
}

/// Blob ends grow with the index when no size is negative.
pub proof fn lemma_blob_end_monotone(
    ms: Seq<CompressionMethod>,
    us: Seq<i32>,
    cs: Seq<i32>,
    i: int,
    j: int,
)
    requires
        0 <= i <= j <= ms.len(),
        us.len() == ms.len(),
        cs.len() == ms.len(),
        forall|k: int| 0 <= k < us.len() ==> us[k] >= 0,
        forall|k: int| 0 <= k < cs.len() ==> cs[k] >= 0,
    ensures
        blob_end(ms, us, cs, i) <= blob_end(ms, us, cs, j),
    decreases j - i,
{
    if i < j {
        lemma_blob_end_monotone(ms, us, cs, i, j - 1);
    }
}

/// The index as plain values.
#[verifier::ext_equal]
pub struct IndexView {
    pub num_folders: i32,
    pub num_files: i32,
    pub num_blobs: i32,
    pub folder_parent_ids: Seq<i32>,
    pub folder_names: Seq<Seq<char>>,
    pub file_parent_ids: Seq<i32>,
    pub file_content_ids: Seq<i32>,
    pub file_names: Seq<Seq<char>>,
    pub compression_methods: Seq<CompressionMethod>,
    pub sizes_uncompressed: Seq<i32>,
    pub sizes_compressed: Seq<i32>,
    pub blob_hashes: Seq<Seq<u8>>,
    pub blob_ranges: Seq<(usize, usize)>,
    pub blob_total_size: usize,
}

/// The index of an archive.
#[derive(Default, Clone, Debug)]
pub struct BrzIndexData {
    pub num_folders: i32,
    pub num_files: i32,
    pub num_blobs: i32,
    /// i32 * num_folders
    /// -1 if the folder is a root folder.
    pub folder_parent_ids: Vec<i32>,
    /// Folder names: (uint8 * Folder name lengths[i]) * Num folders
    /// Folder names formatted as UTF-8.
    pub folder_names: Vec<String>,
    /// i32 * num_files
    /// -1 if the file is a root file.
    pub file_parent_ids: Vec<i32>,
    /// i32 * num_files
    /// -1 if the file is empty
    pub file_content_ids: Vec<i32>,
    /// File names: (uint8 * File name lengths[i]) * Num files
    /// File names formatted as UTF-8.
    pub file_names: Vec<String>,
    // u8 * num_blobs
    pub compression_methods: Vec<CompressionMethod>,
    // i32 * num_blobs
    pub sizes_uncompressed: Vec<i32>,
    // i32 * num_blobs
    pub sizes_compressed: Vec<i32>,
    // Blob hashes: (uint8 * 32) * num_blobs
    pub blob_hashes: Vec<[u8; 32]>,
    // Binary data ranges for the blobs
    pub blob_ranges: Vec<(usize, usize)>,
    // Total size of all blobs in the archive.
    pub blob_total_size: usize,
}

impl View for BrzIndexData {
    type V = IndexView;

    open spec fn view(&self) -> IndexView {
        IndexView {
            num_folders: self.num_folders,
            num_files: self.num_files,
            num_blobs: self.num_blobs,
            folder_parent_ids: self.folder_parent_ids@,
            folder_names: strings_view(self.folder_names@),
            file_parent_ids: self.file_parent_ids@,
            file_content_ids: self.file_content_ids@,
            file_names: strings_view(self.file_names@),
            compression_methods: self.compression_methods@,
            sizes_uncompressed: self.sizes_uncompressed@,
            sizes_compressed: self.sizes_compressed@,
            blob_hashes: hashes_view(self.blob_hashes@),
            blob_ranges: self.blob_ranges@,
            blob_total_size: self.blob_total_size,
        }
    }
}

/// The three counts at the front of the index, none of which may be negative.
pub open spec fn parse_counts(s: Seq<u8>) -> Parsed<(i32, i32, i32)> {
    match p_i32(s) {
        Err(e) => Err(e),
        Ok((nf, s1)) => if nf < 0 {
            Err(BrzError::InvalidNumFolders(nf))
        } else {
            match p_i32(s1) {
                Err(e) => Err(e),
                Ok((nfi, s2)) => if nfi < 0 {
                    Err(BrzError::InvalidNumFiles(nfi))
                } else {
                    match p_i32(s2) {
                        Err(e) => Err(e),
                        Ok((nb, s3)) => if nb < 0 {
                            Err(BrzError::InvalidNumBlobs(nb))
                        } else {
                            Ok(((nf, nfi, nb), s3))
                        },
                    }
                },
            }
        },
    }
}

/// The folder parents, then the folder name lengths, then the folder names.
pub open spec fn parse_folders(s: Seq<u8>, n: nat) -> Parsed<(Seq<i32>, Seq<Seq<char>>)> {
    match p_list(e_i32(), s, 0, n) {
        Err(e) => Err(e),
        Ok((pids, s1)) => match p_list(e_u16(), s1, 0, n) {
            Err(e) => Err(e),
            Ok((lens, s2)) => match p_list(e_name(lens), s2, 0, lens.len()) {
                Err(e) => Err(e),
                Ok((names, s3)) => Ok(((pids, names), s3)),
            },
        },
    }
}

/// The file parents, the file contents, the file name lengths, the file names.
pub open spec fn parse_files(s: Seq<u8>, n: nat) -> Parsed<(Seq<i32>, Seq<i32>, Seq<Seq<char>>)> {
    match p_list(e_i32(), s, 0, n) {
        Err(e) => Err(e),
        Ok((pids, s1)) => match p_list(e_i32(), s1, 0, n) {
            Err(e) => Err(e),
            Ok((cids, s2)) => match p_list(e_u16(), s2, 0, n) {
                Err(e) => Err(e),
                Ok((lens, s3)) => match p_list(e_name(lens), s3, 0, lens.len()) {
                    Err(e) => Err(e),
                    Ok((names, s4)) => Ok(((pids, cids, names), s4)),
                },
            },
        },
    }
}

/// The blob compression methods, uncompressed sizes, stored sizes, digests.
pub open spec fn parse_blobs(s: Seq<u8>, n: nat) -> Parsed<
    (Seq<CompressionMethod>, Seq<i32>, Seq<i32>, Seq<Seq<u8>>),
> {
    match p_list(e_method(), s, 0, n) {
        Err(e) => Err(e),
        Ok((ms, s1)) => match p_list(e_size(false), s1, 0, n) {
            Err(e) => Err(e),
            Ok((us, s2)) => match p_list(e_size(true), s2, 0, n) {
                Err(e) => Err(e),
                Ok((cs, s3)) => match p_list(e_hash(), s3, 0, n) {
                    Err(e) => Err(e),
                    Ok((hs, s4)) => Ok(((ms, us, cs, hs), s4)),
                },
            },
        },
    }
}

/// The index at the front of `s`, or the first problem with it.
#[verifier::opaque]
pub open spec fn parse_index(s: Seq<u8>) -> Parsed<IndexView> {
    match parse_counts(s) {
        Err(e) => Err(e),
        Ok(((nf, nfi, nb), s1)) => match parse_folders(s1, nf as nat) {
            Err(e) => Err(e),
            Ok(((fpids, fnames), s2)) => match parse_files(s2, nfi as nat) {
                Err(e) => Err(e),
                Ok(((pids, cids, names), s3)) => match parse_blobs(s3, nb as nat) {
                    Err(e) => Err(e),
                    Ok(((ms, us, cs, hs), s4)) => if blob_end(ms, us, cs, nb as int) > usize::MAX {
                        Err(BrzError::IndexTooLarge)
                    } else {
                        Ok(
                            (
                                IndexView {
                                    num_folders: nf,
                                    num_files: nfi,
                                    num_blobs: nb,
                                    folder_parent_ids: fpids,
                                    folder_names: fnames,
                                    file_parent_ids: pids,
                                    file_content_ids: cids,
                                    file_names: names,
                                    compression_methods: ms,
                                    sizes_uncompressed: us,
                                    sizes_compressed: cs,
                                    blob_hashes: hs,
                                    blob_ranges: blob_ranges(ms, us, cs),
                                    blob_total_size: blob_end(ms, us, cs, nb as int) as usize,
                                },
                                s4,
                            ),
                        )
                    },
                },
            },
        },
    }
}

/// A list parses to exactly as many items as it was asked for.
pub proof fn lemma_p_list_len<T>(elem: spec_fn(int, Seq<u8>) -> Parsed<T>, s: Seq<u8>, start: int, n: nat)
    ensures
        p_list(elem, s, start, n) matches Ok((xs, _)) ==> xs.len() == n,
    decreases n,
{
    if n > 0 {
        if let Ok((x, r)) = elem(start, s) {
            lemma_p_list_len(elem, r, start + 1, (n - 1) as nat);
        }
    }
}

/// Parsed blob sizes are never negative.
pub proof fn lemma_sizes_nonneg(compressed: bool, s: Seq<u8>, start: int, n: nat)
    ensures
        p_list(e_size(compressed), s, start, n) matches Ok((xs, _)) ==> forall|k: int|
            0 <= k < xs.len() ==> xs[k] >= 0,
    decreases n,
{
    if n > 0 {
        if let Ok((x, r)) = e_size(compressed)(start, s) {
            lemma_sizes_nonneg(compressed, r, start + 1, (n - 1) as nat);
            if let Ok((xs, r2)) = p_list(e_size(compressed), r, start + 1, (n - 1) as nat) {
                let all = seq![x] + xs;
                assert forall|k: int| 0 <= k < all.len() implies all[k] >= 0 by {
                    if k > 0 {
                        assert(all[k] == xs[k - 1]);
                    }
                }
            }
        }
    }
}

fn compute_blob_ranges(
    ms: &Vec<CompressionMethod>,
    us: &Vec<i32>,
    cs: &Vec<i32>,
) -> (res: Result<(Vec<(usize, usize)>, usize), BrzError>)
    requires
        us@.len() == ms@.len(),
        cs@.len() == ms@.len(),
        forall|k: int| 0 <= k < us@.len() ==> us@[k] >= 0,
        forall|k: int| 0 <= k < cs@.len() ==> cs@[k] >= 0,
    ensures
        blob_end(ms@, us@, cs@, ms@.len() as int) > usize::MAX ==> res == Err::<
            (Vec<(usize, usize)>, usize),
            BrzError,
        >(BrzError::IndexTooLarge),
        blob_end(ms@, us@, cs@, ms@.len() as int) <= usize::MAX ==> (res matches Ok((rs, total))
            && rs@ == blob_ranges(ms@, us@, cs@) && total == blob_end(
            ms@,
            us@,
            cs@,
            ms@.len() as int,
        )),
{
    let mut ranges: Vec<(usize, usize)> = Vec::new();
    let mut current: usize = 0;
    let mut i: usize = 0;
    while i < ms.len()
        invariant
            0 <= i <= ms@.len(),
            us@.len() == ms@.len(),
            cs@.len() == ms@.len(),
            forall|k: int| 0 <= k < us@.len() ==> us@[k] >= 0,
            forall|k: int| 0 <= k < cs@.len() ==> cs@[k] >= 0,
            current == blob_end(ms@, us@, cs@, i as int),
            ranges@ == blob_ranges(ms@, us@, cs@).take(i as int),
        decreases ms@.len() - i,
    {
        let length: usize = match ms[i] {
            CompressionMethod::NoCompression => us[i] as usize,
            CompressionMethod::GenericZstd => cs[i] as usize,
        };
        assert(length == blob_len(ms@[i as int], us@[i as int], cs@[i as int]));
        if current > usize::MAX - length {
            proof {
                lemma_blob_end_monotone(ms@, us@, cs@, i as int + 1, ms@.len() as int);
            }
            return Err(BrzError::IndexTooLarge);
        }
        let end = current + length;
        ranges.push((current, end));
        i = i + 1;
        current = end;
        assert(ranges@ =~= blob_ranges(ms@, us@, cs@).take(i as int));
    }
    assert(blob_ranges(ms@, us@, cs@).take(ms@.len() as int) =~= blob_ranges(ms@, us@, cs@));
    Ok((ranges, current))
}

/// The bytes of a list of `i32`s.
pub open spec fn i32s_bytes(v: Seq<i32>) -> Seq<u8> {
    v.map_values(|x: i32| i32_le(x)).flatten()
}

/// The length field written for a name: its UTF-8 byte length, cut to 16 bits.
pub open spec fn name_len(n: Seq<char>) -> u16 {
    (encode_utf8(n).len() % 65536) as u16
}

/// The length fields of a list of names.
pub open spec fn lens_bytes(names: Seq<Seq<char>>) -> Seq<u8> {
    names.map_values(|n: Seq<char>| u16_le(name_len(n))).flatten()
}

/// The UTF-8 bytes of a list of names, one after the other.
pub open spec fn names_bytes(names: Seq<Seq<char>>) -> Seq<u8> {
    names.map_values(|n: Seq<char>| encode_utf8(n)).flatten()
}

/// The bytes of a list of compression methods.
pub open spec fn methods_bytes(ms: Seq<CompressionMethod>) -> Seq<u8> {
    ms.map_values(|m: CompressionMethod| seq![method_byte(m)]).flatten()
}

/// The bytes of an index.
pub open spec fn index_bytes(d: IndexView) -> Seq<u8> {
    i32_le(d.num_folders) + i32_le(d.num_files) + i32_le(d.num_blobs) + i32s_bytes(
        d.folder_parent_ids,
    ) + lens_bytes(d.folder_names) + names_bytes(d.folder_names) + i32s_bytes(d.file_parent_ids)
        + i32s_bytes(d.file_content_ids) + lens_bytes(d.file_names) + names_bytes(d.file_names)
        + methods_bytes(d.compression_methods) + i32s_bytes(d.sizes_uncompressed) + i32s_bytes(
        d.sizes_compressed,
    ) + d.blob_hashes.flatten()
}

/// Appending the bytes of one more item to those of the items before it.
pub proof fn lemma_map_flatten_step<T>(xs: Seq<T>, f: spec_fn(T) -> Seq<u8>, i: int)
    requires
        0 <= i < xs.len(),
    ensures
        xs.take(i + 1).map_values(f).flatten() == xs.take(i).map_values(f).flatten() + f(xs[i]),
{
    assert(xs.take(i + 1).map_values(f) =~= xs.take(i).map_values(f).push(f(xs[i])));
    xs.take(i).map_values(f).lemma_flatten_push(f(xs[i]));
}

fn write_i32s(buf: &mut Vec<u8>, v: &Vec<i32>)
    ensures
        final(buf)@ == old(buf)@ + i32s_bytes(v@),
{
    let ghost base = buf@;
    let ghost f = |x: i32| i32_le(x);
    let mut i: usize = 0;
    assert(v@.take(0).map_values(f) =~= Seq::<Seq<u8>>::empty());
    while i < v.len()
        invariant
            0 <= i <= v@.len(),
            f == (|x: i32| i32_le(x)),
            buf@ == base + v@.take(i as int).map_values(f).flatten(),
        decreases v@.len() - i,
    {
        proof {
            lemma_map_flatten_step(v@, f, i as int);
        }
        push_i32_le(buf, v[i]);
        i = i + 1;
        assert(buf@ =~= base + v@.take(i as int).map_values(f).flatten());
    }
    assert(v@.take(v@.len() as int) =~= v@);
}

fn name_byte_len(name: &String) -> (n: u16)
    ensures
        n == name_len(name@),
{
    let len = name.as_str().as_bytes().len();
    (len % 65536) as u16
}

fn write_name_lens(buf: &mut Vec<u8>, names: &Vec<String>)
    ensures
        final(buf)@ == old(buf)@ + lens_bytes(strings_view(names@)),
{
    let ghost base = buf@;
    let ghost ns = strings_view(names@);
    let ghost f = |n: Seq<char>| u16_le(name_len(n));
    let mut i: usize = 0;
    assert(ns.take(0).map_values(f) =~= Seq::<Seq<u8>>::empty());
    while i < names.len()
        invariant
            0 <= i <= names@.len(),
            ns == strings_view(names@),
            f == (|n: Seq<char>| u16_le(name_len(n))),
            buf@ == base + ns.take(i as int).map_values(f).flatten(),
        decreases names@.len() - i,
    {
        proof {
            lemma_map_flatten_step(ns, f, i as int);
        }
        let n = name_byte_len(&names[i]);
        push_u16_le(buf, n);
        i = i + 1;
        assert(buf@ =~= base + ns.take(i as int).map_values(f).flatten());
    }
    assert(ns.take(names@.len() as int) =~= ns);
}

fn write_names(buf: &mut Vec<u8>, names: &Vec<String>)
    ensures
        final(buf)@ == old(buf)@ + names_bytes(strings_view(names@)),
{
    let ghost base = buf@;
    let ghost ns = strings_view(names@);
    let ghost f = |n: Seq<char>| encode_utf8(n);
    let mut i: usize = 0;
    assert(ns.take(0).map_values(f) =~= Seq::<Seq<u8>>::empty());
    while i < names.len()
        invariant
            0 <= i <= names@.len(),
            ns == strings_view(names@),
            f == (|n: Seq<char>| encode_utf8(n)),
            buf@ == base + ns.take(i as int).map_values(f).flatten(),
        decreases names@.len() - i,
    {
        proof {
            lemma_map_flatten_step(ns, f, i as int);
        }
        let bytes = names[i].as_str().as_bytes();
        crate::le::extend_bytes(buf, bytes);
        i = i + 1;
        assert(buf@ =~= base + ns.take(i as int).map_values(f).flatten());
    }
    assert(ns.take(names@.len() as int) =~= ns);
}

fn write_methods(buf: &mut Vec<u8>, ms: &Vec<CompressionMethod>)
    ensures
        final(buf)@ == old(buf)@ + methods_bytes(ms@),
{
    let ghost base = buf@;
    let ghost f = |m: CompressionMethod| seq![method_byte(m)];
    let mut i: usize = 0;
    assert(ms@.take(0).map_values(f) =~= Seq::<Seq<u8>>::empty());
    while i < ms.len()
        invariant
            0 <= i <= ms@.len(),
            f == (|m: CompressionMethod| seq![method_byte(m)]),
            buf@ == base + ms@.take(i as int).map_values(f).flatten(),
        decreases ms@.len() - i,
    {
        proof {
            lemma_map_flatten_step(ms@, f, i as int);
        }
        buf.push(ms[i].to_u8());
        i = i + 1;
        assert(buf@ =~= base + ms@.take(i as int).map_values(f).flatten());
    }
    assert(ms@.take(ms@.len() as int) =~= ms@);
}

fn write_hashes(buf: &mut Vec<u8>, hs: &Vec<[u8; 32]>)
    ensures
        final(buf)@ == old(buf)@ + hashes_view(hs@).flatten(),
{
    let ghost base = buf@;
    let ghost hv = hashes_view(hs@);
    let mut i: usize = 0;
    assert(hv.take(0) =~= Seq::<Seq<u8>>::empty());
    while i < hs.len()
        invariant
            0 <= i <= hs@.len(),
            hv == hashes_view(hs@),
            buf@ == base + hv.take(i as int).flatten(),
        decreases hs@.len() - i,
    {
        proof {
            assert(hv.take(i as int + 1) =~= hv.take(i as int).push(hv[i as int]));
            hv.take(i as int).lemma_flatten_push(hv[i as int]);
        }
        crate::le::extend_bytes(buf, hs[i].as_slice());
        i = i + 1;
        assert(buf@ =~= base + hv.take(i as int).flatten());
    }
    assert(hv.take(hs@.len() as int) =~= hv);
}

impl BrzIndexData {
    /// The bytes of this index.
    pub fn to_vec(&self) -> (res: Result<Vec<u8>, BrzError>)
        ensures
            res matches Ok(v) && v@ == index_bytes(self@),
    {
        let mut buf: Vec<u8> = Vec::new();
        push_i32_le(&mut buf, self.num_folders);
        push_i32_le(&mut buf, self.num_files);
        push_i32_le(&mut buf, self.num_blobs);
        write_i32s(&mut buf, &self.folder_parent_ids);
        write_name_lens(&mut buf, &self.folder_names);
        write_names(&mut buf, &self.folder_names);
        write_i32s(&mut buf, &self.file_parent_ids);
        write_i32s(&mut buf, &self.file_content_ids);
        write_name_lens(&mut buf, &self.file_names);
        write_names(&mut buf, &self.file_names);
        write_methods(&mut buf, &self.compression_methods);
        write_i32s(&mut buf, &self.sizes_uncompressed);
        write_i32s(&mut buf, &self.sizes_compressed);
        write_hashes(&mut buf, &self.blob_hashes);
        assert(buf@ =~= index_bytes(self@));
        Ok(buf)
    }

    /// Reads an index from the front of the slice that `r` refers to, and
    /// advances `r` past it.
    pub fn read(r: &mut &[u8]) -> (res: Result<BrzIndexData, BrzError>)
        ensures
            match parse_index(old(r)@) {
                Ok((d, rest)) => res matches Ok(data) && data@ == d && final(r)@ == rest,
                Err(e) => res matches Err(e2) && e2 == e,
            },
    {
        reveal(parse_index);
        let ghost s0 = r@;
        let num_folders = read_i32(r)?;
        if num_folders < 0 {
            return Err(BrzError::InvalidNumFolders(num_folders));
        }
        let num_files = read_i32(r)?;
        if num_files < 0 {
            return Err(BrzError::InvalidNumFiles(num_files));
        }
        let num_blobs = read_i32(r)?;
        if num_blobs < 0 {
            return Err(BrzError::InvalidNumBlobs(num_blobs));
        }
        let ghost s1 = r@;
        assert(parse_counts(s0) == Ok::<((i32, i32, i32), Seq<u8>), BrzError>(((num_folders, num_files, num_blobs), s1)));

        let folder_parent_ids = read_i32_list(r, num_folders)?;
        let folder_name_lengths = read_u16_list(r, num_folders)?;
        proof {
            lemma_p_list_len(e_u16(), s1.skip(4 * num_folders), 0, num_folders as nat);
        }
        let folder_names = read_name_list(r, &folder_name_lengths)?;
        let ghost s2 = r@;

        let file_parent_ids = read_i32_list(r, num_files)?;
        let file_content_ids = read_i32_list(r, num_files)?;
        let file_name_lengths = read_u16_list(r, num_files)?;
        let file_names = read_name_list(r, &file_name_lengths)?;
        let ghost s3 = r@;

        let compression_methods = read_method_list(r, num_blobs)?;
        let ghost s31 = r@;
        let sizes_uncompressed = read_size_list(r, num_blobs, false)?;
        let ghost s32 = r@;
        let sizes_compressed = read_size_list(r, num_blobs, true)?;
        let blob_hashes = read_hash_list(r, num_blobs)?;
        proof {
            lemma_sizes_nonneg(false, s31, 0, num_blobs as nat);
            lemma_sizes_nonneg(true, s32, 0, num_blobs as nat);
            lemma_p_list_len(e_method(), s3, 0, num_blobs as nat);
            lemma_p_list_len(e_size(false), s31, 0, num_blobs as nat);
            lemma_p_list_len(e_size(true), s32, 0, num_blobs as nat);
        }
        let (blob_ranges, blob_total_size) = compute_blob_ranges(
            &compression_methods,
            &sizes_uncompressed,
            &sizes_compressed,
        )?;

        Ok(BrzIndexData {
            num_folders,
            num_files,
            num_blobs,
            folder_parent_ids,
            folder_names,
            file_parent_ids,
            file_content_ids,
            file_names,
            compression_methods,
            sizes_uncompressed,
            sizes_compressed,
            blob_hashes,
            blob_ranges,
            blob_total_size,
        })
    }
}


/// An index that can be written and read back: counts that match the lists,
/// names that fit their 16-bit length fields, sizes that are not negative,
/// 32-byte digests, and blob ranges laid out one after the other.
pub open spec fn index_wf(d: IndexView) -> bool {
    &&& d.num_folders >= 0
    &&& d.num_files >= 0
    &&& d.num_blobs >= 0
    &&& d.folder_parent_ids.len() == d.num_folders
    &&& d.folder_names.len() == d.num_folders
    &&& d.file_parent_ids.len() == d.num_files
    &&& d.file_content_ids.len() == d.num_files
    &&& d.file_names.len() == d.num_files
    &&& d.compression_methods.len() == d.num_blobs
    &&& d.sizes_uncompressed.len() == d.num_blobs
    &&& d.sizes_compressed.len() == d.num_blobs
    &&& d.blob_hashes.len() == d.num_blobs
    &&& forall|k: int| 0 <= k < d.folder_names.len() ==> encode_utf8(#[trigger] d.folder_names[k]).len() < 65536
    &&& forall|k: int| 0 <= k < d.file_names.len() ==> encode_utf8(#[trigger] d.file_names[k]).len() < 65536
    &&& forall|k: int| 0 <= k < d.sizes_uncompressed.len() ==> #[trigger] d.sizes_uncompressed[k] >= 0
    &&& forall|k: int| 0 <= k < d.sizes_compressed.len() ==> #[trigger] d.sizes_compressed[k] >= 0
    &&& forall|k: int| 0 <= k < d.blob_hashes.len() ==> (#[trigger] d.blob_hashes[k]).len() == 32
    &&& blob_end(d.compression_methods, d.sizes_uncompressed, d.sizes_compressed, d.num_blobs as int) <= usize::MAX
    &&& d.blob_ranges == blob_ranges(d.compression_methods, d.sizes_uncompressed, d.sizes_compressed)
    &&& d.blob_total_size == blob_end(
        d.compression_methods,
        d.sizes_uncompressed,
        d.sizes_compressed,
        d.num_blobs as int,
    )
}

proof fn lemma_i32_elem(x: i32, r: Seq<u8>)
    ensures
        p_i32(i32_le(x) + r) == Ok::<(i32, Seq<u8>), BrzError>((x, r)),
{
    lemma_i32_le(x);
    assert((i32_le(x) + r).take(4) =~= i32_le(x));
    assert((i32_le(x) + r).skip(4) =~= r);
}

proof fn lemma_i32s_roundtrip(v: Seq<i32>, rest: Seq<u8>)
    ensures
        p_list(e_i32(), i32s_bytes(v) + rest, 0, v.len()) == Ok::<(Seq<i32>, Seq<u8>), BrzError>(
            (v, rest),
        ),
{
    let f = |x: i32| i32_le(x);
    let encs = v.map_values(f);
    assert forall|k: int, r: Seq<u8>| 0 <= k < v.len() implies #[trigger] e_i32()(0 + k, encs[k] + r)
        == Ok::<(i32, Seq<u8>), BrzError>((v[k], r)) by {
        lemma_i32_elem(v[k], r);
    }
    lemma_p_list_flatten(e_i32(), encs, v, 0, rest);
}

proof fn lemma_sizes_roundtrip(compressed: bool, v: Seq<i32>, rest: Seq<u8>)
    requires
        forall|k: int| 0 <= k < v.len() ==> #[trigger] v[k] >= 0,
    ensures
        p_list(e_size(compressed), i32s_bytes(v) + rest, 0, v.len()) == Ok::<
            (Seq<i32>, Seq<u8>),
            BrzError,
        >((v, rest)),
{
    let f = |x: i32| i32_le(x);
    let encs = v.map_values(f);
    assert forall|k: int, r: Seq<u8>| 0 <= k < v.len() implies #[trigger] e_size(compressed)(
        0 + k,
        encs[k] + r,
    ) == Ok::<(i32, Seq<u8>), BrzError>((v[k], r)) by {
        lemma_i32_elem(v[k], r);
    }
    lemma_p_list_flatten(e_size(compressed), encs, v, 0, rest);
}

proof fn lemma_lens_roundtrip(names: Seq<Seq<char>>, rest: Seq<u8>)
    ensures
        p_list(e_u16(), lens_bytes(names) + rest, 0, names.len()) == Ok::<(Seq<u16>, Seq<u8>), BrzError>(
            (names.map_values(|n: Seq<char>| name_len(n)), rest),
        ),
{
    let f = |n: Seq<char>| u16_le(name_len(n));
    let encs = names.map_values(f);
    let lens = names.map_values(|n: Seq<char>| name_len(n));
    assert forall|k: int, r: Seq<u8>| 0 <= k < lens.len() implies #[trigger] e_u16()(0 + k, encs[k] + r)
        == Ok::<(u16, Seq<u8>), BrzError>((lens[k], r)) by {
        lemma_u16_le(lens[k]);
        assert((encs[k] + r).take(2) =~= encs[k]);
        assert((encs[k] + r).skip(2) =~= r);
    }
    lemma_p_list_flatten(e_u16(), encs, lens, 0, rest);
}

proof fn lemma_names_roundtrip(names: Seq<Seq<char>>, rest: Seq<u8>)
    requires
        forall|k: int| 0 <= k < names.len() ==> encode_utf8(#[trigger] names[k]).len() < 65536,
    ensures
        p_list(
            e_name(names.map_values(|n: Seq<char>| name_len(n))),
            names_bytes(names) + rest,
            0,
            names.len(),
        ) == Ok::<(Seq<Seq<char>>, Seq<u8>), BrzError>((names, rest)),
{
    let f = |n: Seq<char>| encode_utf8(n);
    let encs = names.map_values(f);
    let lens = names.map_values(|n: Seq<char>| name_len(n));
    assert forall|k: int, r: Seq<u8>| 0 <= k < names.len() implies #[trigger] e_name(lens)(
        0 + k,
        encs[k] + r,
    ) == Ok::<(Seq<char>, Seq<u8>), BrzError>((names[k], r)) by {
        let b = encode_utf8(names[k]);
        assert(lens[k] == b.len());
        assert((b + r).take(b.len() as int) =~= b);
        assert((b + r).skip(b.len() as int) =~= r);
        encode_utf8_valid_utf8(names[k]);
        encode_utf8_decode_utf8(names[k]);
    }
    lemma_p_list_flatten(e_name(lens), encs, names, 0, rest);
}

proof fn lemma_methods_roundtrip(ms: Seq<CompressionMethod>, rest: Seq<u8>)
    ensures
        p_list(e_method(), methods_bytes(ms) + rest, 0, ms.len()) == Ok::<
            (Seq<CompressionMethod>, Seq<u8>),
            BrzError,
        >((ms, rest)),
{
    let f = |m: CompressionMethod| seq![method_byte(m)];
    let encs = ms.map_values(f);
    assert forall|k: int, r: Seq<u8>| 0 <= k < ms.len() implies #[trigger] e_method()(0 + k, encs[k] + r)
        == Ok::<(CompressionMethod, Seq<u8>), BrzError>((ms[k], r)) by {
        assert((encs[k] + r)[0] == method_byte(ms[k]));
        assert((encs[k] + r).skip(1) =~= r);
        assert(method_of_byte(method_byte(ms[k])) == ms[k]);
    }
    lemma_p_list_flatten(e_method(), encs, ms, 0, rest);
}

proof fn lemma_hashes_roundtrip(hs: Seq<Seq<u8>>, rest: Seq<u8>)
    requires
        forall|k: int| 0 <= k < hs.len() ==> (#[trigger] hs[k]).len() == 32,
    ensures
        p_list(e_hash(), hs.flatten() + rest, 0, hs.len()) == Ok::<(Seq<Seq<u8>>, Seq<u8>), BrzError>(
            (hs, rest),
        ),
{
    assert forall|k: int, r: Seq<u8>| 0 <= k < hs.len() implies #[trigger] e_hash()(0 + k, hs[k] + r)
        == Ok::<(Seq<u8>, Seq<u8>), BrzError>((hs[k], r)) by {
        assert((hs[k] + r).take(32) =~= hs[k]);
        assert((hs[k] + r).skip(32) =~= r);
    }
    lemma_p_list_flatten(e_hash(), hs, hs, 0, rest);
}

proof fn lemma_counts_roundtrip(nf: i32, nfi: i32, nb: i32, rest: Seq<u8>)
    requires
        nf >= 0,
        nfi >= 0,
        nb >= 0,
    ensures
        parse_counts(i32_le(nf) + i32_le(nfi) + i32_le(nb) + rest) == Ok::<
            ((i32, i32, i32), Seq<u8>),
            BrzError,
        >(((nf, nfi, nb), rest)),
{
    let t3 = i32_le(nb) + rest;
    let t2 = i32_le(nfi) + t3;
    assert(i32_le(nf) + i32_le(nfi) + i32_le(nb) + rest =~= i32_le(nf) + t2);
    lemma_i32_elem(nf, t2);
    lemma_i32_elem(nfi, t3);
    lemma_i32_elem(nb, rest);
}

proof fn lemma_folders_roundtrip(pids: Seq<i32>, names: Seq<Seq<char>>, rest: Seq<u8>)
    requires
        pids.len() == names.len(),
        forall|k: int| 0 <= k < names.len() ==> encode_utf8(#[trigger] names[k]).len() < 65536,
    ensures
        parse_folders(
            i32s_bytes(pids) + lens_bytes(names) + names_bytes(names) + rest,
            pids.len(),
        ) == Ok::<((Seq<i32>, Seq<Seq<char>>), Seq<u8>), BrzError>(((pids, names), rest)),
{
    let t_names = names_bytes(names) + rest;
    let t_lens = lens_bytes(names) + t_names;
    assert(i32s_bytes(pids) + lens_bytes(names) + names_bytes(names) + rest =~= i32s_bytes(pids)
        + t_lens);
    lemma_i32s_roundtrip(pids, t_lens);
    lemma_lens_roundtrip(names, t_names);
    lemma_names_roundtrip(names, rest);
}

proof fn lemma_files_roundtrip(
    pids: Seq<i32>,
    cids: Seq<i32>,
    names: Seq<Seq<char>>,
    rest: Seq<u8>,
)
    requires
        pids.len() == names.len(),
        cids.len() == names.len(),
        forall|k: int| 0 <= k < names.len() ==> encode_utf8(#[trigger] names[k]).len() < 65536,
    ensures
        parse_files(
            i32s_bytes(pids) + i32s_bytes(cids) + lens_bytes(names) + names_bytes(names) + rest,
            pids.len(),
        ) == Ok::<((Seq<i32>, Seq<i32>, Seq<Seq<char>>), Seq<u8>), BrzError>(
            ((pids, cids, names), rest),
        ),
{
    let t_names = names_bytes(names) + rest;
    let t_lens = lens_bytes(names) + t_names;
    let t_cids = i32s_bytes(cids) + t_lens;
    assert(i32s_bytes(pids) + i32s_bytes(cids) + lens_bytes(names) + names_bytes(names) + rest
        =~= i32s_bytes(pids) + t_cids);
    lemma_i32s_roundtrip(pids, t_cids);
    lemma_i32s_roundtrip(cids, t_lens);
    lemma_lens_roundtrip(names, t_names);
    lemma_names_roundtrip(names, rest);
}

proof fn lemma_blobs_roundtrip(
    ms: Seq<CompressionMethod>,
    us: Seq<i32>,
    cs: Seq<i32>,
    hs: Seq<Seq<u8>>,
    rest: Seq<u8>,
)
    requires
        us.len() == ms.len(),
        cs.len() == ms.len(),
        hs.len() == ms.len(),
        forall|k: int| 0 <= k < us.len() ==> #[trigger] us[k] >= 0,
        forall|k: int| 0 <= k < cs.len() ==> #[trigger] cs[k] >= 0,
        forall|k: int| 0 <= k < hs.len() ==> (#[trigger] hs[k]).len() == 32,
    ensures
        parse_blobs(
            methods_bytes(ms) + i32s_bytes(us) + i32s_bytes(cs) + hs.flatten() + rest,
            ms.len(),
        ) == Ok::<((Seq<CompressionMethod>, Seq<i32>, Seq<i32>, Seq<Seq<u8>>), Seq<u8>), BrzError>(
            ((ms, us, cs, hs), rest),
        ),
{
    let t_h = hs.flatten() + rest;
    let t_c = i32s_bytes(cs) + t_h;
    let t_u = i32s_bytes(us) + t_c;
    assert(methods_bytes(ms) + i32s_bytes(us) + i32s_bytes(cs) + hs.flatten() + rest
        =~= methods_bytes(ms) + t_u);
    lemma_methods_roundtrip(ms, t_u);
    lemma_sizes_roundtrip(false, us, t_c);
    lemma_sizes_roundtrip(true, cs, t_h);
    lemma_hashes_roundtrip(hs, rest);
}

/// Reading back a written index gives the index, and what followed it.
#[verifier::rlimit(40)]
pub proof fn lemma_index_roundtrip(d: IndexView, rest: Seq<u8>)
    requires
        index_wf(d),
    ensures
        parse_index(index_bytes(d) + rest) == Ok::<(IndexView, Seq<u8>), BrzError>((d, rest)),
{
    reveal(parse_index);
    let counts = i32_le(d.num_folders) + i32_le(d.num_files) + i32_le(d.num_blobs);
    let folders = i32s_bytes(d.folder_parent_ids) + lens_bytes(d.folder_names) + names_bytes(
        d.folder_names,
    );
    let files = i32s_bytes(d.file_parent_ids) + i32s_bytes(d.file_content_ids) + lens_bytes(
        d.file_names,
    ) + names_bytes(d.file_names);
    let blobs = methods_bytes(d.compression_methods) + i32s_bytes(d.sizes_uncompressed)
        + i32s_bytes(d.sizes_compressed) + d.blob_hashes.flatten();
    let t4 = rest;
    let t3 = blobs + t4;
    let t2 = files + t3;
    let t1 = folders + t2;
    assert(index_bytes(d) + rest =~= counts + t1);
    lemma_counts_roundtrip(d.num_folders, d.num_files, d.num_blobs, t1);
    assert(folders + t2 =~= i32s_bytes(d.folder_parent_ids) + lens_bytes(d.folder_names)
        + names_bytes(d.folder_names) + t2);
    lemma_folders_roundtrip(d.folder_parent_ids, d.folder_names, t2);
    assert(files + t3 =~= i32s_bytes(d.file_parent_ids) + i32s_bytes(d.file_content_ids)
        + lens_bytes(d.file_names) + names_bytes(d.file_names) + t3);
    lemma_files_roundtrip(d.file_parent_ids, d.file_content_ids, d.file_names, t3);
    assert(blobs + t4 =~= methods_bytes(d.compression_methods) + i32s_bytes(d.sizes_uncompressed)
        + i32s_bytes(d.sizes_compressed) + d.blob_hashes.flatten() + t4);
    lemma_blobs_roundtrip(
        d.compression_methods,
        d.sizes_uncompressed,
        d.sizes_compressed,
        d.blob_hashes,
        t4,
    );
}

} // verus!
