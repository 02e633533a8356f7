//! The `.brz` archive format: a magic number, a fixed header, an (optionally
//! zstd-compressed) index of folders, files and blobs, and the blob data.
use vstd::prelude::*;

use crate::codec::{
    blake3_digest, blake3_hash, zstd_compress, zstd_compressed, zstd_decoded, zstd_decompress, zstd_decompressed,
};
use crate::errors::BrzError;
use crate::index::{index_bytes, index_wf, lemma_index_roundtrip, parse_index, BrzIndexData, IndexView};
use crate::le::{bytes_to_vec, extend_bytes, i32_le, lemma_i32_from_le, lemma_i32_le, push_i32_le, take_bytes};
use crate::reader::{p_bytes, p_i32, p_u8, read_hash, read_i32, read_u8, Parsed};

verus! {

/// The version of the archive layout.
#[derive(Debug, Clone, Copy, PartialEq, Eq, Structural)]
pub enum FormatVersion {
    Initial,
}

/// Compression methods used in `.brz` files.
#[derive(Debug, Clone, Copy, PartialEq, Eq, Structural)]
pub enum CompressionMethod {
    /// Stored as is.
    NoCompression,
    GenericZstd,
}

/// The byte that stands for a compression method.
pub open spec fn method_byte(m: CompressionMethod) -> u8 {
    match m {
        CompressionMethod::NoCompression => 0,
        CompressionMethod::GenericZstd => 1,
    }
}

/// The compression method that a byte stands for (`b <= 1`).
pub open spec fn method_of_byte(b: u8) -> CompressionMethod {
    if b == 0 {
        CompressionMethod::NoCompression
    } else {
        CompressionMethod::GenericZstd
    }
}

/// The byte that stands for a version.
pub open spec fn version_byte(v: FormatVersion) -> u8 {
    match v {
        FormatVersion::Initial => 0,
    }
}

impl FormatVersion {
    /// The byte that stands for this version.
    pub fn to_u8(self) -> (b: u8)
        ensures
            b == version_byte(self),
    {
        match self {
            FormatVersion::Initial => 0,
        }
    }

    /// The version that `value` stands for.
    pub fn try_from_u8(value: u8) -> (res: Result<FormatVersion, BrzError>)
        ensures
            value == 0 ==> res == Ok::<FormatVersion, BrzError>(FormatVersion::Initial),
            value != 0 ==> res == Err::<FormatVersion, BrzError>(BrzError::InvalidFormat(value)),
    {
        if value == 0 {
            Ok(FormatVersion::Initial)
        } else {
            Err(BrzError::InvalidFormat(value))
        }
    }
}

impl CompressionMethod {
    /// The byte that stands for this method.
    pub fn to_u8(self) -> (b: u8)
        ensures
            b == method_byte(self),
    {
        match self {
            CompressionMethod::NoCompression => 0,
            CompressionMethod::GenericZstd => 1,
        }
    }

    /// The method that `value` stands for.
    pub fn try_from_u8(value: u8) -> (res: Result<CompressionMethod, BrzError>)
        ensures
            value <= 1 ==> res == Ok::<CompressionMethod, BrzError>(method_of_byte(value)),
            value > 1 ==> res == Err::<CompressionMethod, BrzError>(
                BrzError::InvalidCompressionMethod(value),
            ),
    {
        if value == 0 {
            Ok(CompressionMethod::NoCompression)
        } else if value == 1 {
            Ok(CompressionMethod::GenericZstd)
        } else {
            Err(BrzError::InvalidCompressionMethod(value))
        }
    }
}

/// The archive header as plain values.
pub struct HeaderView {
    pub version: FormatVersion,
    pub index_method: CompressionMethod,
    pub index_size_uncompressed: i32,
    pub index_size_compressed: i32,
    pub index_hash: Seq<u8>,
}

/// The fixed-size header that follows the magic number.
#[derive(Debug)]
pub struct BrzArchiveHeader {
    pub version: FormatVersion,
    pub index_method: CompressionMethod,
    pub index_size_uncompressed: i32,
    pub index_size_compressed: i32,
    /// A blake 3 hash of decompressed index data.
    pub index_hash: [u8; 32],
}

impl View for BrzArchiveHeader {
    type V = HeaderView;

    open spec fn view(&self) -> HeaderView {
        HeaderView {
            version: self.version,
            index_method: self.index_method,
            index_size_uncompressed: self.index_size_uncompressed,
            index_size_compressed: self.index_size_compressed,
            index_hash: self.index_hash@,
        }
    }
}

/// The 42 bytes of a header.
pub open spec fn header_bytes(h: HeaderView) -> Seq<u8> {
    seq![version_byte(h.version), method_byte(h.index_method)] + i32_le(h.index_size_uncompressed) + i32_le(
        h.index_size_compressed,
    ) + h.index_hash
}

/// The header at the front of `s`, or the first problem with it.
pub open spec fn parse_header(s: Seq<u8>) -> Parsed<HeaderView> {
    match p_u8(s) {
        Err(e) => Err(e),
        Ok((v, s1)) => if v != 0 {
            Err(BrzError::InvalidFormat(v))
        } else {
            match p_u8(s1) {
                Err(e) => Err(e),
                Ok((m, s2)) => if m > 1 {
                    Err(BrzError::InvalidCompressionMethod(m))
                } else {
                    match p_i32(s2) {
                        Err(e) => Err(e),
                        Ok((unc, s3)) => if unc < 0 {
                            Err(BrzError::InvalidIndexDecompressedLength(unc))
                        } else {
                            match p_i32(s3) {
                                Err(e) => Err(e),
                                Ok((comp, s4)) => if comp < 0 {
                                    Err(BrzError::InvalidIndexCompressedLength(comp))
                                } else {
                                    match p_bytes(s4, 32) {
                                        Err(e) => Err(e),
                                        Ok((hash, s5)) => Ok(
                                            (
                                                HeaderView {
                                                    version: FormatVersion::Initial,
                                                    index_method: method_of_byte(m),
                                                    index_size_uncompressed: unc,
                                                    index_size_compressed: comp,
                                                    index_hash: hash,
                                                },
                                                s5,
                                            ),
                                        ),
                                    }
                                },
                            }
                        },
                    }
                },
            }
        },
    }
}

impl BrzArchiveHeader {
    /// Reads a header from the front of the slice that `r` refers to, and
    /// advances `r` past it.
    pub fn read(r: &mut &[u8]) -> (res: Result<BrzArchiveHeader, BrzError>)
        ensures
            match parse_header(old(r)@) {
                Ok((h, rest)) => res matches Ok(hd) && hd@ == h && final(r)@ == rest,
                Err(e) => res matches Err(e2) && e2 == e,
            },
    {
        let v = read_u8(r)?;
        let version = FormatVersion::try_from_u8(v)?;
        let m = read_u8(r)?;
        let index_method = CompressionMethod::try_from_u8(m)?;
        let index_size_uncompressed = read_i32(r)?;
        if index_size_uncompressed < 0 {
            return Err(BrzError::InvalidIndexDecompressedLength(index_size_uncompressed));
        }
        let index_size_compressed = read_i32(r)?;
        if index_size_compressed < 0 {
            return Err(BrzError::InvalidIndexCompressedLength(index_size_compressed));
        }
        let index_hash = read_hash(r)?;
        Ok(BrzArchiveHeader {
            version,
            index_method,
            index_size_uncompressed,
            index_size_compressed,
            index_hash,
        })
    }

    /// Appends the 42 bytes of this header to `buf`.
    pub fn write(&self, buf: &mut Vec<u8>) -> (res: Result<(), BrzError>)
        ensures
            res is Ok,
            final(buf)@ == old(buf)@ + header_bytes(self@),
    {
        buf.push(self.version.to_u8());
        buf.push(self.index_method.to_u8());
        push_i32_le(buf, self.index_size_uncompressed);
        push_i32_le(buf, self.index_size_compressed);
        let mut i: usize = 0;
        let ghost base = buf@;
        while i < 32
            invariant
                0 <= i <= 32,
                self.index_hash@.len() == 32,
                buf@ == base + self.index_hash@.take(i as int),
            decreases 32 - i,
        {
            buf.push(self.index_hash[i]);
            i = i + 1;
            assert(buf@ =~= base + self.index_hash@.take(i as int));
        }
        assert(self.index_hash@.take(32) =~= self.index_hash@);
        assert(final(buf)@ =~= old(buf)@ + header_bytes(self@));
        Ok(())
    }
}

/// Reading back a written header gives the header, and what followed it.
pub proof fn lemma_header_roundtrip(h: HeaderView, rest: Seq<u8>)
    requires
        h.index_size_uncompressed >= 0,
        h.index_size_compressed >= 0,
        h.index_hash.len() == 32,
    ensures
        parse_header(header_bytes(h) + rest) == Ok::<(HeaderView, Seq<u8>), BrzError>((h, rest)),
{
    let s = header_bytes(h) + rest;
    lemma_i32_le(h.index_size_uncompressed);
    lemma_i32_le(h.index_size_compressed);
    assert(s.skip(1).skip(1).take(4) =~= i32_le(h.index_size_uncompressed));
    assert(s.skip(1).skip(1).skip(4).take(4) =~= i32_le(h.index_size_compressed));
    assert(s.skip(1).skip(1).skip(4).skip(4).take(32) =~= h.index_hash);
    assert(s.skip(1).skip(1).skip(4).skip(4).skip(32) =~= rest);
    assert(method_of_byte(method_byte(h.index_method)) == h.index_method);
}

/// A header that was read writes back to the bytes that it was read from.
pub proof fn lemma_header_parse_write(s: Seq<u8>)
    requires
        parse_header(s) is Ok,
    ensures
        parse_header(s) matches Ok((h, rest)) && header_bytes(h) + rest == s,
{
    let s2 = s.skip(2);
    lemma_i32_from_le(s2.take(4));
    lemma_i32_from_le(s2.skip(4).take(4));
    assert(method_byte(method_of_byte(s[1])) == s[1]);
    if let Ok((h, rest)) = parse_header(s) {
        assert(header_bytes(h) + rest =~= s);
    }
}


/// The three bytes that open every archive: "BRZ".
pub open spec fn magic_bytes() -> Seq<u8> {
    seq![66u8, 82u8, 90u8]
}

/// An archive as plain values.
#[verifier::ext_equal]
pub struct BrzView {
    pub index_data: IndexView,
    pub blob_data: Seq<u8>,
}

/// A complete archive: its index and the (possibly compressed) blobs, as one
/// contiguous byte array.
#[derive(Clone, Debug)]
pub struct Brz {
    pub index_data: BrzIndexData,
    /// (Compressed) blob data as one contiguous byte array.
    pub blob_data: Vec<u8>,
}

impl View for Brz {
    type V = BrzView;

    open spec fn view(&self) -> BrzView {
        BrzView { index_data: self.index_data@, blob_data: self.blob_data@ }
    }
}

/// Why an archive could not be read. Two errors carry byte arrays, which are
/// given here by their contents.
pub enum BrzReadFailure {
    Error(BrzError),
    /// The first three bytes are not the magic number.
    Magic(Seq<u8>),
    /// The digest of the index data (first) differs from the header's (second).
    Hash(Seq<u8>, Seq<u8>),
}

/// The bytes of the index, as the header says they are stored after it.
pub open spec fn index_section(h: HeaderView, s: Seq<u8>) -> Result<(Seq<u8>, Seq<u8>), BrzError> {
    match h.index_method {
        CompressionMethod::NoCompression => if s.len() < h.index_size_uncompressed {
            Err(BrzError::UnexpectedEof)
        } else {
            Ok(
                (
                    s.take(h.index_size_uncompressed as int),
                    s.skip(h.index_size_uncompressed as int),
                ),
            )
        },
        CompressionMethod::GenericZstd => if s.len() < h.index_size_compressed {
            Err(BrzError::UnexpectedEof)
        } else {
            match zstd_decompressed(
                s.take(h.index_size_compressed as int),
                h.index_size_uncompressed as usize,
            ) {
                None => Err(BrzError::Decompress),
                Some(d) => Ok((d, s.skip(h.index_size_compressed as int))),
            }
        },
    }
}

/// The archive that `s` holds, or the first problem with it. The blob data is
/// all that follows the index.
#[verifier::opaque]
pub open spec fn parse_brz(s: Seq<u8>) -> Result<BrzView, BrzReadFailure> {
    if s.len() < 3 {
        Err(BrzReadFailure::Error(BrzError::UnexpectedEof))
    } else if s.take(3) != magic_bytes() {
        Err(BrzReadFailure::Magic(s.take(3)))
    } else {
        match parse_header(s.skip(3)) {
            Err(e) => Err(BrzReadFailure::Error(e)),
            Ok((h, s1)) => match index_section(h, s1) {
                Err(e) => Err(BrzReadFailure::Error(e)),
                Ok((idx, blobs)) => if blake3_digest(idx) != h.index_hash {
                    Err(BrzReadFailure::Hash(blake3_digest(idx), h.index_hash))
                } else {
                    match parse_index(idx) {
                        Err(e) => Err(BrzReadFailure::Error(e)),
                        Ok((d, _)) => Ok(BrzView { index_data: d, blob_data: blobs }),
                    }
                },
            },
        }
    }
}

/// The header written in front of index bytes `idx` stored as `stored`.
pub open spec fn index_header(idx: Seq<u8>, stored: Seq<u8>, m: CompressionMethod) -> HeaderView {
    HeaderView {
        version: FormatVersion::Initial,
        index_method: m,
        index_size_uncompressed: idx.len() as i32,
        index_size_compressed: stored.len() as i32,
        index_hash: blake3_digest(idx),
    }
}

/// How index bytes `idx` are stored: compressed at `level` when that is
/// asked for and makes them smaller, else as they are.
pub open spec fn stored_index(idx: Seq<u8>, level: Option<i32>) -> Result<
    (Seq<u8>, CompressionMethod),
    BrzError,
> {
    match level {
        None => Ok((idx, CompressionMethod::NoCompression)),
        Some(l) => match zstd_compressed(idx, l) {
            None => Err(BrzError::Compress),
            Some(c) => if (c.len() as i32) < (idx.len() as i32) {
                Ok((c, CompressionMethod::GenericZstd))
            } else {
                Ok((idx, CompressionMethod::NoCompression))
            },
        },
    }
}

/// The bytes of an archive with index bytes `idx` and blob data `blobs`.
pub open spec fn archive_bytes(idx: Seq<u8>, blobs: Seq<u8>, level: Option<i32>) -> Result<
    Seq<u8>,
    BrzError,
> {
    match stored_index(idx, level) {
        Err(e) => Err(e),
        Ok((stored, m)) => Ok(
            magic_bytes() + header_bytes(index_header(idx, stored, m)) + stored + blobs,
        ),
    }
}

pub(crate) fn digests_equal(a: &[u8; 32], b: &[u8; 32]) -> (eq: bool)
    ensures
        eq == (a@ == b@),
{
    let mut i: usize = 0;
    while i < 32
        invariant
            0 <= i <= 32,
            a@.len() == 32,
            b@.len() == 32,
            forall|k: int| 0 <= k < i ==> a@[k] == b@[k],
        decreases 32 - i,
    {
        if a[i] != b[i] {
            return false;
        }
        i = i + 1;
    }
    assert(a@ =~= b@);
    true
}

proof fn lemma_parse_brz_parts(h: HeaderView, rest: Seq<u8>, idx: Seq<u8>, blobs: Seq<u8>, d: IndexView)
    requires
        parse_header(header_bytes(h) + rest) == Ok::<(HeaderView, Seq<u8>), BrzError>((h, rest)),
        index_section(h, rest) == Ok::<(Seq<u8>, Seq<u8>), BrzError>((idx, blobs)),
        blake3_digest(idx) == h.index_hash,
        parse_index(idx) == Ok::<(IndexView, Seq<u8>), BrzError>((d, Seq::<u8>::empty())),
    ensures
        parse_brz(magic_bytes() + header_bytes(h) + rest) == Ok::<BrzView, BrzReadFailure>(
            BrzView { index_data: d, blob_data: blobs },
        ),
{
    reveal(parse_brz);
    let b = magic_bytes() + header_bytes(h) + rest;
    assert(b.take(3) =~= magic_bytes());
    assert(b.skip(3) =~= header_bytes(h) + rest);
}

proof fn lemma_index_section_stored(idx: Seq<u8>, blobs: Seq<u8>, level: Option<i32>)
    requires
        idx.len() <= 0x7fff_ffff,
        stored_index(idx, level) is Ok,
        level matches Some(l) ==> (zstd_compressed(idx, l) matches Some(c) && c.len()
            <= 0x7fff_ffff && zstd_decoded(c) == Some(idx)),
    ensures
        stored_index(idx, level) matches Ok((st, m)) && index_section(
            index_header(idx, st, m),
            st + blobs,
        ) == Ok::<(Seq<u8>, Seq<u8>), BrzError>((idx, blobs)),
{
    if let Ok((st, m)) = stored_index(idx, level) {
        let rest = st + blobs;
        let h = index_header(idx, st, m);
        assert(rest.take(st.len() as int) =~= st);
        assert(rest.skip(st.len() as int) =~= blobs);
        assert(h.index_size_uncompressed == idx.len());
        assert(h.index_size_uncompressed as usize == idx.len());
        if m == CompressionMethod::GenericZstd {
            assert(st.len() < idx.len());
            assert(h.index_size_compressed == st.len());
        } else {
            assert(st == idx);
        }
    }
}

/// Reading back a written archive gives the archive. Through compression
/// this rests on zstd giving back what it compressed, which
/// [`Brz::write`] states of the index bytes it wrote; a compressed index
/// of 2^31 bytes or more is left out, since its length does not fit the
/// header.
pub proof fn lemma_brz_roundtrip(v: BrzView, level: Option<i32>)
    requires
        index_wf(v.index_data),
        index_bytes(v.index_data).len() <= 0x7fff_ffff,
        blake3_digest(index_bytes(v.index_data)).len() == 32,
        level matches Some(l) ==> (zstd_compressed(index_bytes(v.index_data), l) matches Some(c)
            && c.len() <= 0x7fff_ffff && zstd_decoded(c) == Some(index_bytes(v.index_data))),
    ensures
        archive_bytes(index_bytes(v.index_data), v.blob_data, level) matches Ok(b) && parse_brz(b)
            == Ok::<BrzView, BrzReadFailure>(v),
{
    let idx = index_bytes(v.index_data);
    assert(parse_index(idx) == Ok::<(IndexView, Seq<u8>), BrzError>((v.index_data, Seq::<u8>::empty()))) by {
        lemma_index_roundtrip(v.index_data, Seq::<u8>::empty());
        assert(idx + Seq::<u8>::empty() =~= idx);
    }
    lemma_index_section_stored(idx, v.blob_data, level);
    if let Ok((st, m)) = stored_index(idx, level) {
        let h = index_header(idx, st, m);
        let rest = st + v.blob_data;
        lemma_header_roundtrip(h, rest);
        lemma_parse_brz_parts(h, rest, idx, v.blob_data, v.index_data);
        assert(magic_bytes() + header_bytes(h) + st + v.blob_data =~= magic_bytes() + header_bytes(h) + rest);
    }
}

impl Brz {
    /// Reads an archive from the slice that `r` refers to; the blob data is
    /// all that follows the index, and `r` is left empty.
    pub fn read(r: &mut &[u8]) -> (res: Result<Brz, BrzError>)
        ensures
            match parse_brz(old(r)@) {
                Ok(v) => res matches Ok(b) && b@ == v && final(r)@.len() == 0,
                Err(BrzReadFailure::Error(e)) => res matches Err(e2) && e2 == e,
                Err(BrzReadFailure::Magic(m)) => res matches Err(BrzError::InvalidMagic(a))
                    && a@ == m,
                Err(BrzReadFailure::Hash(h1, h2)) => res matches Err(
                    BrzError::InvalidIndexHash(a, b),
                ) && a@ == h1 && b@ == h2,
            },
    {
        reveal(parse_brz);
        let ghost s0 = r@;
        let m0 = read_u8(r)?;
        let m1 = read_u8(r)?;
        let m2 = read_u8(r)?;
        assert(s0.take(3) =~= seq![m0, m1, m2]);
        if m0 != 66 || m1 != 82 || m2 != 90 {
            let magic = [m0, m1, m2];
            assert(magic@ =~= s0.take(3));
            return Err(BrzError::InvalidMagic(magic));
        }
        assert(s0.take(3) =~= magic_bytes());
        assert(s0.skip(3) =~= r@);
        let header = BrzArchiveHeader::read(r)?;
        let index_buf: Vec<u8> = match header.index_method {
            CompressionMethod::NoCompression => {
                match take_bytes(r, header.index_size_uncompressed as usize) {
                    Some(b) => bytes_to_vec(b),
                    None => {
                        return Err(BrzError::UnexpectedEof);
                    },
                }
            },
            CompressionMethod::GenericZstd => {
                let compressed = match take_bytes(r, header.index_size_compressed as usize) {
                    Some(b) => b,
                    None => {
                        return Err(BrzError::UnexpectedEof);
                    },
                };
                match zstd_decompress(compressed, header.index_size_uncompressed as usize) {
                    Ok(d) => d,
                    Err(_) => {
                        return Err(BrzError::Decompress);
                    },
                }
            },
        };
        let index_hash = blake3_hash(index_buf.as_slice());
        if !digests_equal(&index_hash, &header.index_hash) {
            return Err(BrzError::InvalidIndexHash(index_hash, header.index_hash));
        }
        let mut index_slice: &[u8] = index_buf.as_slice();
        let index_data = BrzIndexData::read(&mut index_slice)?;
        let rest: &[u8] = *r;
        let blob_data = bytes_to_vec(rest);
        let (_, empty) = rest.split_at(rest.len());
        *r = empty;
        Ok(Brz { index_data, blob_data })
    }

    /// Reads an archive from a byte slice.
    pub fn read_slice(buf: &[u8]) -> (res: Result<Brz, BrzError>)
        ensures
            match parse_brz(buf@) {
                Ok(v) => res matches Ok(b) && b@ == v,
                Err(BrzReadFailure::Error(e)) => res matches Err(e2) && e2 == e,
                Err(BrzReadFailure::Magic(m)) => res matches Err(BrzError::InvalidMagic(a))
                    && a@ == m,
                Err(BrzReadFailure::Hash(h1, h2)) => res matches Err(
                    BrzError::InvalidIndexHash(a, b),
                ) && a@ == h1 && b@ == h2,
            },
    {
        let mut r: &[u8] = buf;
        Self::read(&mut r)
    }

    /// Appends this archive to `w`: the magic number, the header, the index
    /// (compressed at `zstd_level` when one is given and that makes it
    /// smaller) and the blob data. Fails only where zstd fails, and then `w`
    /// holds the magic number alone after what it held before.
    pub fn write(&self, w: &mut Vec<u8>, zstd_level: Option<i32>) -> (res: Result<(), BrzError>)
        ensures
            match archive_bytes(index_bytes(self.index_data@), self.blob_data@, zstd_level) {
                Ok(b) => res is Ok && final(w)@ == old(w)@ + b,
                Err(e) => res matches Err(e2) && e2 == e && final(w)@ == old(w)@ + magic_bytes(),
            },
            res is Ok ==> blake3_digest(index_bytes(self.index_data@)).len() == 32,
            res is Ok ==> (zstd_level matches Some(l) ==> zstd_compressed(index_bytes(self.index_data@), l) matches Some(
                c,
            ) && zstd_decoded(c) == Some(index_bytes(self.index_data@))),
    {
        w.push(66);
        w.push(82);
        w.push(90);
        let ghost base = w@;
        assert(base =~= old(w)@ + magic_bytes());
        let index_data = match self.index_data.to_vec() {
            Ok(v) => v,
            Err(e) => {
                return Err(e);
            },
        };
        #[verifier::truncate]
        let index_size_uncompressed = index_data.len() as i32;
        let mut index_size_compressed = index_size_uncompressed;
        let mut index_method = CompressionMethod::NoCompression;
        let index_hash = blake3_hash(index_data.as_slice());
        let mut stored = index_data;
        if let Some(level) = zstd_level {
            let compressed = match zstd_compress(stored.as_slice(), level) {
                Ok(c) => c,
                Err(_) => {
                    return Err(BrzError::Compress);
                },
            };
            #[verifier::truncate]
            let compressed_size = compressed.len() as i32;
            if compressed_size < index_size_uncompressed {
                index_size_compressed = compressed_size;
                index_method = CompressionMethod::GenericZstd;
                stored = compressed;
            }
        }
        let header = BrzArchiveHeader {
            version: FormatVersion::Initial,
            index_method,
            index_size_uncompressed,
            index_size_compressed,
            index_hash,
        };
        let _ = header.write(w);
        extend_bytes(w, stored.as_slice());
        extend_bytes(w, self.blob_data.as_slice());
        proof {
            let idx = index_bytes(self.index_data@);
            if let Ok((st, m)) = stored_index(idx, zstd_level) {
                assert(header@ == index_header(idx, st, m));
                assert(final(w)@ =~= old(w)@ + (magic_bytes() + header_bytes(index_header(idx, st, m)) + st + self.blob_data@));
            }
        }
        Ok(())
    }

    /// The bytes of this archive (see [`Brz::write`]). Reading them back
    /// gives this archive, at any level, where its index is consistent and
    /// its index bytes, stored or compressed, fit the header's 31 bits.
    pub fn to_vec(&self, zstd_level: Option<i32>) -> (res: Result<Vec<u8>, BrzError>)
        ensures
            match archive_bytes(index_bytes(self.index_data@), self.blob_data@, zstd_level) {
                Ok(b) => res matches Ok(v) && v@ == b,
                Err(e) => res matches Err(e2) && e2 == e,
            },
            res is Ok ==> blake3_digest(index_bytes(self.index_data@)).len() == 32,
            res is Ok ==> (zstd_level matches Some(l) ==> zstd_compressed(index_bytes(self.index_data@), l) matches Some(
                c,
            ) && zstd_decoded(c) == Some(index_bytes(self.index_data@))),
            res matches Ok(v) ==> (index_wf(self@.index_data) && index_bytes(self@.index_data).len() <= 0x7fff_ffff && (
            zstd_level matches Some(l) ==> zstd_compressed(index_bytes(self@.index_data), l) matches Some(c)
                && c.len() <= 0x7fff_ffff) ==> parse_brz(v@) == Ok::<BrzView, BrzReadFailure>(self@)),
    {
        let mut buf: Vec<u8> = Vec::new();
        self.write(&mut buf, zstd_level)?;
        assert(buf@ =~= Seq::<u8>::empty() + buf@);
        proof {
            let idx = index_bytes(self@.index_data);
            if index_wf(self@.index_data) && idx.len() <= 0x7fff_ffff && (zstd_level matches Some(l)
                ==> zstd_compressed(idx, l) matches Some(c) && c.len() <= 0x7fff_ffff) {
                lemma_brz_roundtrip(self@, zstd_level);
            }
        }
        Ok(buf)
    }
}

} // verus!
