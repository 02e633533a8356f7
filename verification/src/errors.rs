//! Error types of the library.
use vstd::prelude::*;

verus! {

/// Errors in reading or writing a `.brz` archive.
#[derive(Debug, Clone, PartialEq, Eq)]
pub enum BrzError {
    /// The input ended before a field was complete.
    UnexpectedEof,
    InvalidMagic([u8; 3]),
    InvalidFormat(u8),
    InvalidCompressionMethod(u8),
    InvalidIndexDecompressedLength(i32),
    InvalidIndexCompressedLength(i32),
    /// The digest of the index data (first) differs from the one in the header (second).
    InvalidIndexHash([u8; 32], [u8; 32]),
    InvalidNumFolders(i32),
    InvalidNumFiles(i32),
    InvalidNumBlobs(i32),
    InvalidBlobDecompressedLength(i32),
    InvalidBlobCompressedLength(i32),
    /// A folder or file name is not valid UTF-8.
    InvalidUtf8,
    /// zstd reported an error while decompressing the index.
    Decompress,
    /// zstd reported an error while compressing the index.
    Compress,
    /// The blobs of the index do not fit in the address space.
    IndexTooLarge,
}

/// Errors in navigating or building a filesystem tree.
#[derive(Debug, PartialEq, Eq)]
pub enum BrFsError {
    Wrapped(String, Box<BrFsError>),
    /// zstd reported an error while compressing a file.
    Compress,
    ExpectedDirectory(String),
    /// The content of the named file cannot be read.
    ExpectedFileContent(String),
    NotFound(String),
    InvalidStructure(String, String),
}

/// Errors in reading or writing flat (memory dump) values.
#[derive(Debug, PartialEq, Eq)]
pub enum BrdbSchemaError {
    Wrapped(String, Box<BrdbSchemaError>),
    /// The input ended before a value was complete.
    UnexpectedEof,
    /// A string is not valid UTF-8.
    InvalidUtf8,
    /// No asset of the named table has this index.
    UnknownAsset(String, usize),
    /// A MessagePack value could not be read: the input ended or the value
    /// has another type.
    RmpValueReadError,
    /// A MessagePack marker could not be read, or is not the one expected.
    RmpMarkerReadError,
    /// The schema's content is not supported.
    InvalidSchema(String),
    /// The schema's header is neither a two- nor a three-element array.
    InvalidHeader(u32),
    /// A value of the first kind was expected; the second says what came.
    ExpectedType(String, String),
    /// No type of this name is known to the schema.
    UnknownType(String),
    /// The index is not one of the named enum's values.
    EnumIndexOutOfBounds(String, u64),
    /// The named type cannot be laid out flat.
    InvalidFlatType(String),
    /// The struct value has no property of this name.
    MissingStructField(String, String),
    /// A wire variant tag with no member.
    UnknownWireVariant(usize),
    /// Flat data of this many bytes is not a whole number of items of this
    /// size.
    InvalidFlatDataSize(String, usize, usize),
    /// The name is known to the schema but is neither a struct nor an enum.
    UnknownSchemaType(String),
}

/// Errors in the world model.
#[derive(Debug, PartialEq, Eq)]
pub enum BrdbWorldError {
    Wrapped(String, Box<BrdbWorldError>),
    UnknownBrickId(usize),
    UnknownGridId(usize),
    UnknownComponent(String),
    UnregisteredComponentType(String),
    UnknownPort(String),
    UnknownEntityId(usize),
}

impl BrdbWorldError {
    /// Puts `label` in front of this error.
    pub fn wrap(self, label: &str) -> (res: BrdbWorldError)
        ensures
            res matches BrdbWorldError::Wrapped(l, inner) && l@ == label@ && *inner == self,
    {
        BrdbWorldError::Wrapped(label.to_owned(), Box::new(self))
    }
}

/// Any error of the library.
#[derive(Debug, PartialEq, Eq)]
pub enum BrError {
    Wrapped(String, Box<BrError>),
    Fs(BrFsError),
    Schema(BrdbSchemaError),
    World(BrdbWorldError),
    Brz(BrzError),
}

impl BrError {
    /// Puts `label` in front of this error.
    pub fn wrap(self, label: &str) -> (res: BrError)
        ensures
            res matches BrError::Wrapped(l, inner) && l@ == label@ && *inner == self,
    {
        BrError::Wrapped(label.to_owned(), Box::new(self))
    }
}

impl BrFsError {
    /// Puts `label` in front of this error.
    pub fn wrap(self, label: &str) -> (res: BrFsError)
        ensures
            res matches BrFsError::Wrapped(l, inner) && l@ == label@ && *inner == self,
    {
        BrFsError::Wrapped(label.to_owned(), Box::new(self))
    }
}

impl BrdbSchemaError {
    /// Puts `label` in front of this error.
    pub fn wrap(self, label: &str) -> (res: BrdbSchemaError)
        ensures
            res matches BrdbSchemaError::Wrapped(l, inner) && l@ == label@ && *inner == self,
    {
        BrdbSchemaError::Wrapped(label.to_owned(), Box::new(self))
    }
}

} // verus!
