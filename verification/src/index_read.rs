//! What holds of every index that was read: it is well formed, and writing
//! it gives back the bytes it was read from.
use vstd::prelude::*;
use vstd::utf8::{decode_utf8, decode_utf8_encode_utf8, encode_utf8, valid_utf8};

use crate::brz::{method_byte, method_of_byte, CompressionMethod};
use crate::errors::BrzError;
use crate::index::{
    blob_end, blob_ranges, e_hash, lemma_blob_end_monotone, e_i32, e_method, e_name, e_size, e_u16, i32s_bytes, index_bytes, index_wf, lemma_p_list_len,
    lemma_sizes_nonneg, lens_bytes, methods_bytes, name_len, names_bytes, parse_blobs, parse_counts,
    parse_files, parse_folders, parse_index, IndexView,
};
use crate::le::{i32_from_le, i32_le, lemma_i32_from_le, lemma_u16_from_le, u16_from_le, u16_le};
use crate::reader::{lemma_p_list_bytes, p_list, Parsed};

verus! {

/// Every item that a list parses to has the property `p` where each item
/// parsed on its own has it.
proof fn lemma_p_list_all<T>(
    elem: spec_fn(int, Seq<u8>) -> Parsed<T>,
    p: spec_fn(int, T) -> bool,
    s: Seq<u8>,
    start: int,
    n: nat,
)
    requires
        forall|k: int, t: Seq<u8>|
            #![trigger elem(k, t)]
            start <= k < start + n ==> (elem(k, t) matches Ok((x, r)) ==> p(k, x)),
    ensures
        p_list(elem, s, start, n) matches Ok((xs, _)) ==> forall|j: int|
            0 <= j < xs.len() ==> #[trigger] p(start + j, xs[j]),
    decreases n,
{
    if n > 0 {
        if let Ok((x, r)) = elem(start, s) {
            lemma_p_list_all(elem, p, r, start + 1, (n - 1) as nat);
            if let Ok((xs, r2)) = p_list(elem, r, start + 1, (n - 1) as nat) {
                let all = seq![x] + xs;
                assert forall|j: int| 0 <= j < all.len() implies #[trigger] p(start + j, all[j]) by {
                    if j > 0 {
                        assert(all[j] == xs[j - 1]);
                        assert(p(start + 1 + (j - 1), xs[j - 1]));
                        assert(start + 1 + (j - 1) == start + j);
                    }
                }
            }
        }
    }
}

proof fn lemma_i32s_bytes(elem: spec_fn(int, Seq<u8>) -> Parsed<i32>, s: Seq<u8>, n: nat)
    requires
        elem == e_i32() || elem == e_size(false) || elem == e_size(true),
    ensures
        p_list(elem, s, 0, n) matches Ok((xs, r)) ==> s == i32s_bytes(xs) + r,
{
    assert forall|k: int, t: Seq<u8>|
        #![trigger elem(k, t)]
        0 <= k < 0 + n implies (elem(k, t) matches Ok((x, r)) ==> t == i32_le(x) + r) by {
        if t.len() >= 4 {
            lemma_i32_from_le(t.take(4));
            assert(t =~= t.take(4) + t.skip(4));
        }
    }
    lemma_p_list_bytes(elem, |x: i32| i32_le(x), s, 0, n);
}

proof fn lemma_lens_bytes(s: Seq<u8>, n: nat)
    ensures
        p_list(e_u16(), s, 0, n) matches Ok((xs, r)) ==> s == xs.map_values(|l: u16| u16_le(l))
            .flatten() + r,
{
    assert forall|k: int, t: Seq<u8>|
        #![trigger e_u16()(k, t)]
        0 <= k < 0 + n implies (e_u16()(k, t) matches Ok((x, r)) ==> t == u16_le(x) + r) by {
        if t.len() >= 2 {
            lemma_u16_from_le(t.take(2));
            assert(t =~= t.take(2) + t.skip(2));
        }
    }
    lemma_p_list_bytes(e_u16(), |l: u16| u16_le(l), s, 0, n);
}

proof fn lemma_names_bytes(lens: Seq<u16>, s: Seq<u8>)
    ensures
        p_list(e_name(lens), s, 0, lens.len()) matches Ok((xs, r)) ==> s == names_bytes(xs) + r
            && forall|j: int| 0 <= j < xs.len() ==> #[trigger] encode_utf8(xs[j]).len() == lens[j],
{
    let n = lens.len();
    assert forall|k: int, t: Seq<u8>|
        #![trigger e_name(lens)(k, t)]
        0 <= k < 0 + n implies (e_name(lens)(k, t) matches Ok((x, r)) ==> t == encode_utf8(x) + r)
        by {
        if t.len() >= lens[k] && valid_utf8(t.take(lens[k] as int)) {
            decode_utf8_encode_utf8(t.take(lens[k] as int));
            assert(t =~= t.take(lens[k] as int) + t.skip(lens[k] as int));
        }
    }
    lemma_p_list_bytes(e_name(lens), |c: Seq<char>| encode_utf8(c), s, 0, n);
    let p = |k: int, c: Seq<char>| encode_utf8(c).len() == lens[k];
    assert forall|k: int, t: Seq<u8>|
        #![trigger e_name(lens)(k, t)]
        0 <= k < 0 + n implies (e_name(lens)(k, t) matches Ok((x, r)) ==> p(k, x)) by {
        if t.len() >= lens[k] && valid_utf8(t.take(lens[k] as int)) {
            decode_utf8_encode_utf8(t.take(lens[k] as int));
        }
    }
    lemma_p_list_all(e_name(lens), p, s, 0, n);
    if let Ok((xs, r)) = p_list(e_name(lens), s, 0, n) {
        assert forall|j: int| 0 <= j < xs.len() implies #[trigger] encode_utf8(xs[j]).len() == lens[j] by {
            assert(p(0 + j, xs[j]));
        }
    }
}

proof fn lemma_methods_bytes(s: Seq<u8>, n: nat)
    ensures
        p_list(e_method(), s, 0, n) matches Ok((xs, r)) ==> s == methods_bytes(xs) + r,
{
    assert forall|k: int, t: Seq<u8>|
        #![trigger e_method()(k, t)]
        0 <= k < 0 + n implies (e_method()(k, t) matches Ok((x, r)) ==> t == seq![method_byte(x)] + r)
        by {
        if t.len() >= 1 && t[0] <= 1 {
            assert(method_byte(method_of_byte(t[0])) == t[0]);
            assert(t =~= seq![t[0]] + t.skip(1));
        }
    }
    lemma_p_list_bytes(e_method(), |m: CompressionMethod| seq![method_byte(m)], s, 0, n);
}

proof fn lemma_hashes_bytes(s: Seq<u8>, n: nat)
    ensures
        p_list(e_hash(), s, 0, n) matches Ok((xs, r)) ==> s == xs.flatten() + r && forall|j: int|
            0 <= j < xs.len() ==> (#[trigger] xs[j]).len() == 32,
{
    assert forall|k: int, t: Seq<u8>|
        #![trigger e_hash()(k, t)]
        0 <= k < 0 + n implies (e_hash()(k, t) matches Ok((x, r)) ==> t == x + r) by {
        if t.len() >= 32 {
            assert(t =~= t.take(32) + t.skip(32));
        }
    }
    lemma_p_list_bytes(e_hash(), |h: Seq<u8>| h, s, 0, n);
    let p = |k: int, h: Seq<u8>| h.len() == 32;
    lemma_p_list_all(e_hash(), p, s, 0, n);
    if let Ok((xs, r)) = p_list(e_hash(), s, 0, n) {
        assert(xs.map_values(|h: Seq<u8>| h) =~= xs);
        assert forall|j: int| 0 <= j < xs.len() implies (#[trigger] xs[j]).len() == 32 by {
            assert(p(0 + j, xs[j]));
        }
    }
}

/// The name lengths that were read are those that writing the names gives.
proof fn lemma_lens_match(names: Seq<Seq<char>>, lens: Seq<u16>)
    requires
        names.len() == lens.len(),
        forall|j: int| 0 <= j < names.len() ==> #[trigger] encode_utf8(names[j]).len() == lens[j],
    ensures
        lens.map_values(|l: u16| u16_le(l)).flatten() == lens_bytes(names),
        forall|j: int| 0 <= j < names.len() ==> encode_utf8(#[trigger] names[j]).len() < 65536,
{
    let a = lens.map_values(|l: u16| u16_le(l));
    let b = names.map_values(|n: Seq<char>| u16_le(name_len(n)));
    assert forall|j: int| 0 <= j < names.len() implies #[trigger] a[j] == b[j] by {
        assert(encode_utf8(names[j]).len() == lens[j]);
        assert(name_len(names[j]) == lens[j]);
    }
    assert(a =~= b);
    assert forall|j: int| 0 <= j < names.len() implies encode_utf8(#[trigger] names[j]).len() < 65536 by {
        assert(encode_utf8(names[j]).len() == lens[j]);
    }
}

proof fn lemma_counts_bytes(s: Seq<u8>)
    ensures
        parse_counts(s) matches Ok(((nf, nfi, nb), s1)) ==> s == i32_le(nf) + i32_le(nfi) + i32_le(nb)
            + s1,
{
    if let Ok(((nf, nfi, nb), s1)) = parse_counts(s) {
        assert(s.take(4) =~= i32_le(nf)) by {
            lemma_i32_from_le(s.take(4));
        }
        let sa = s.skip(4);
        assert(sa.take(4) =~= i32_le(nfi)) by {
            lemma_i32_from_le(sa.take(4));
        }
        let sb = sa.skip(4);
        assert(sb.take(4) =~= i32_le(nb)) by {
            lemma_i32_from_le(sb.take(4));
        }
        assert(s =~= i32_le(nf) + i32_le(nfi) + i32_le(nb) + s1);
    }
}

proof fn lemma_folders_bytes(s1: Seq<u8>, n: nat)
    ensures
        parse_folders(s1, n) matches Ok(((fpids, fnames), s2)) ==> {
            &&& s1 == i32s_bytes(fpids) + lens_bytes(fnames) + names_bytes(fnames) + s2
            &&& fpids.len() == n
            &&& fnames.len() == n
            &&& forall|k: int| 0 <= k < fnames.len() ==> encode_utf8(#[trigger] fnames[k]).len() < 65536
        },
{
    if let Ok(((fpids, fnames), s2)) = parse_folders(s1, n) {
        let (fp, t1) = p_list(e_i32(), s1, 0, n).unwrap();
        let (flens, t2) = p_list(e_u16(), t1, 0, n).unwrap();
        lemma_i32s_bytes(e_i32(), s1, n);
        lemma_lens_bytes(t1, n);
        lemma_names_bytes(flens, t2);
        lemma_p_list_len(e_i32(), s1, 0, n);
        lemma_p_list_len(e_u16(), t1, 0, n);
        lemma_p_list_len(e_name(flens), t2, 0, flens.len());
        lemma_lens_match(fnames, flens);
        assert(s1 =~= i32s_bytes(fpids) + lens_bytes(fnames) + names_bytes(fnames) + s2);
    }
}

proof fn lemma_files_bytes(s2: Seq<u8>, n: nat)
    ensures
        parse_files(s2, n) matches Ok(((pids, cids, names), s3)) ==> {
            &&& s2 == i32s_bytes(pids) + i32s_bytes(cids) + lens_bytes(names) + names_bytes(names) + s3
            &&& pids.len() == n
            &&& cids.len() == n
            &&& names.len() == n
            &&& forall|k: int| 0 <= k < names.len() ==> encode_utf8(#[trigger] names[k]).len() < 65536
        },
{
    if let Ok(((pids, cids, names), s3)) = parse_files(s2, n) {
        let (p1, u1) = p_list(e_i32(), s2, 0, n).unwrap();
        let (c1, u2) = p_list(e_i32(), u1, 0, n).unwrap();
        let (lens, u3) = p_list(e_u16(), u2, 0, n).unwrap();
        lemma_i32s_bytes(e_i32(), s2, n);
        lemma_i32s_bytes(e_i32(), u1, n);
        lemma_lens_bytes(u2, n);
        lemma_names_bytes(lens, u3);
        lemma_p_list_len(e_i32(), s2, 0, n);
        lemma_p_list_len(e_i32(), u1, 0, n);
        lemma_p_list_len(e_u16(), u2, 0, n);
        lemma_p_list_len(e_name(lens), u3, 0, lens.len());
        lemma_lens_match(names, lens);
        assert(s2 =~= i32s_bytes(pids) + i32s_bytes(cids) + lens_bytes(names) + names_bytes(names)
            + s3);
    }
}

proof fn lemma_blobs_bytes(s3: Seq<u8>, n: nat)
    ensures
        parse_blobs(s3, n) matches Ok(((ms, us, cs, hs), s4)) ==> {
            &&& s3 == methods_bytes(ms) + i32s_bytes(us) + i32s_bytes(cs) + hs.flatten() + s4
            &&& ms.len() == n
            &&& us.len() == n
            &&& cs.len() == n
            &&& hs.len() == n
            &&& forall|k: int| 0 <= k < us.len() ==> #[trigger] us[k] >= 0
            &&& forall|k: int| 0 <= k < cs.len() ==> #[trigger] cs[k] >= 0
            &&& forall|k: int| 0 <= k < hs.len() ==> (#[trigger] hs[k]).len() == 32
        },
{
    if let Ok(((ms, us, cs, hs), s4)) = parse_blobs(s3, n) {
        let (m1, v1) = p_list(e_method(), s3, 0, n).unwrap();
        let (us1, v2) = p_list(e_size(false), v1, 0, n).unwrap();
        let (cs1, v3) = p_list(e_size(true), v2, 0, n).unwrap();
        lemma_methods_bytes(s3, n);
        lemma_i32s_bytes(e_size(false), v1, n);
        lemma_i32s_bytes(e_size(true), v2, n);
        lemma_hashes_bytes(v3, n);
        lemma_p_list_len(e_method(), s3, 0, n);
        lemma_p_list_len(e_size(false), v1, 0, n);
        lemma_p_list_len(e_size(true), v2, 0, n);
        lemma_p_list_len(e_hash(), v3, 0, n);
        lemma_sizes_nonneg(false, v1, 0, n);
        lemma_sizes_nonneg(true, v2, 0, n);
        assert(s3 =~= methods_bytes(ms) + i32s_bytes(us) + i32s_bytes(cs) + hs.flatten() + s4);
    }
}

proof fn lemma_assemble(d: IndexView, s: Seq<u8>, s1: Seq<u8>, s2: Seq<u8>, s3: Seq<u8>, s4: Seq<u8>)
    requires
        s == i32_le(d.num_folders) + i32_le(d.num_files) + i32_le(d.num_blobs) + s1,
        s1 == i32s_bytes(d.folder_parent_ids) + lens_bytes(d.folder_names) + names_bytes(
            d.folder_names,
        ) + s2,
        s2 == i32s_bytes(d.file_parent_ids) + i32s_bytes(d.file_content_ids) + lens_bytes(
            d.file_names,
        ) + names_bytes(d.file_names) + s3,
        s3 == methods_bytes(d.compression_methods) + i32s_bytes(d.sizes_uncompressed) + i32s_bytes(
            d.sizes_compressed,
        ) + d.blob_hashes.flatten() + s4,
    ensures
        index_bytes(d) + s4 == s,
{
    assert(index_bytes(d) + s4 =~= s);
}

proof fn lemma_wf_parts(
    nf: i32,
    nfi: i32,
    nb: i32,
    fpids: Seq<i32>,
    fnames: Seq<Seq<char>>,
    pids: Seq<i32>,
    cids: Seq<i32>,
    names: Seq<Seq<char>>,
    ms: Seq<CompressionMethod>,
    us: Seq<i32>,
    cs: Seq<i32>,
    hs: Seq<Seq<u8>>,
)
    requires
        nf >= 0,
        nfi >= 0,
        nb >= 0,
        fpids.len() == nf,
        fnames.len() == nf,
        pids.len() == nfi,
        cids.len() == nfi,
        names.len() == nfi,
        ms.len() == nb,
        us.len() == nb,
        cs.len() == nb,
        hs.len() == nb,
        forall|k: int| 0 <= k < fnames.len() ==> encode_utf8(#[trigger] fnames[k]).len() < 65536,
        forall|k: int| 0 <= k < names.len() ==> encode_utf8(#[trigger] names[k]).len() < 65536,
        forall|k: int| 0 <= k < us.len() ==> #[trigger] us[k] >= 0,
        forall|k: int| 0 <= k < cs.len() ==> #[trigger] cs[k] >= 0,
        forall|k: int| 0 <= k < hs.len() ==> (#[trigger] hs[k]).len() == 32,
        blob_end(ms, us, cs, nb as int) <= usize::MAX,
    ensures
        index_wf(
            IndexView {
                num_folders: nf,
                num_files: nfi,
                num_blobs: nb,
                folder_parent_ids: fpids,
                folder_names: fnames,
                file_parent_ids: pids,
                file_content_ids: cids,
                file_names: names,
                compression_methods: ms,
                sizes_uncompressed: us,
                sizes_compressed: cs,
                blob_hashes: hs,
                blob_ranges: blob_ranges(ms, us, cs),
                blob_total_size: blob_end(ms, us, cs, nb as int) as usize,
            },
        ),
{
    lemma_blob_end_monotone(ms, us, cs, 0, nb as int);
}

/// Writing an index that was read gives back the bytes it was read from, and
/// an index that was read is well formed (so that it reads back from its
/// bytes, see `lemma_index_roundtrip`).
#[verifier::rlimit(100)]
pub proof fn lemma_index_parse_write(s: Seq<u8>)
    ensures
        parse_index(s) matches Ok((d, rest)) ==> index_bytes(d) + rest == s && index_wf(d),
{
    lemma_counts_bytes(s);
    if let Ok(((nf, nfi, nb), s1)) = parse_counts(s) {
        lemma_folders_bytes(s1, nf as nat);
        if let Ok(((fpids, fnames), s2)) = parse_folders(s1, nf as nat) {
            lemma_files_bytes(s2, nfi as nat);
            if let Ok(((pids, cids, names), s3)) = parse_files(s2, nfi as nat) {
                lemma_blobs_bytes(s3, nb as nat);
                if let Ok(((ms, us, cs, hs), s4)) = parse_blobs(s3, nb as nat) {
                    if blob_end(ms, us, cs, nb as int) <= usize::MAX {
                        let d = IndexView {
                            num_folders: nf,
                            num_files: nfi,
                            num_blobs: nb,
                            folder_parent_ids: fpids,
                            folder_names: fnames,
                            file_parent_ids: pids,
                            file_content_ids: cids,
                            file_names: names,
                            compression_methods: ms,
                            sizes_uncompressed: us,
                            sizes_compressed: cs,
                            blob_hashes: hs,
                            blob_ranges: blob_ranges(ms, us, cs),
                            blob_total_size: blob_end(ms, us, cs, nb as int) as usize,
                        };
                        assert(parse_index(s) == Ok::<(IndexView, Seq<u8>), BrzError>((d, s4))) by {
                            reveal(parse_index);
                        }
                        lemma_assemble(d, s, s1, s2, s3, s4);
                        lemma_wf_parts(nf, nfi, nb, fpids, fnames, pids, cids, names, ms, us, cs, hs);
                    } else {
                        assert(parse_index(s) is Err) by {
                            reveal(parse_index);
                        }
                    }
                } else {
                    assert(parse_index(s) is Err) by {
                        reveal(parse_index);
                    }
                }
            } else {
                assert(parse_index(s) is Err) by {
                    reveal(parse_index);
                }
            }
        } else {
            assert(parse_index(s) is Err) by {
                reveal(parse_index);
            }
        }
    } else {
        assert(parse_index(s) is Err) by {
            reveal(parse_index);
        }
    }
}

} // verus!
