//! What can go wrong while an image is read or a container is changed.

use vstd::prelude::*;

verus! {

/// Why a piece of the image could not be read.
#[derive(Clone, Copy, Debug, PartialEq, Eq, Structural)]
pub enum ReadErr {
    /// The image ends before the piece does.
    TruncatedRead,
    /// A descriptor's format tag starts with this byte, which is not the
    /// marker.
    BadFormatTag(u8),
    /// A descriptor's format tag ends with this byte, which is no known
    /// code.
    UnknownFormatCode(u8),
    /// A key or a text value is not UTF-8.
    InvalidUtf8,
    /// An offset or a length contradicts what the rest of the image says.
    BadLayout,
}

/// Why the key table or the value table could not be read.
#[derive(Clone, Copy, Debug, PartialEq, Eq, Structural)]
pub enum MappingErr {
    /// The header and the descriptors contradict one another.
    Layout,
    /// The key of the entry with this index could not be read.
    Key(usize, ReadErr),
    /// The value of the entry with this index could not be read.
    Value(usize, ReadErr),
}

/// Why an image is not a container.
#[derive(Clone, Copy, Debug, PartialEq, Eq)]
pub enum SfoParseErr {
    /// The key table or the value table could not be read.
    EntriesMappingReadErr(MappingErr),
    /// A descriptor could not be read.
    IndexTableReadErr(ReadErr),
    /// The header could not be read.
    HeaderReadErr(ReadErr),
    /// The image is shorter than the magic.
    MagicReadErr(ReadErr),
    /// The image starts with these four bytes, which are not the magic.
    UnknownMagic([u8; 4]),
}

/// The entry that a change was meant for does not exist.
#[derive(Clone, Copy, Debug, PartialEq, Eq, Structural)]
pub struct NotFound;

/// Why a change was not made.
#[derive(Clone, Copy, Debug, PartialEq, Eq, Structural)]
pub enum ChangeErr {
    /// The entry that the change was meant for does not exist.
    NotFound,
    /// The container cannot hold the entry: its key or its text holds a
    /// zero byte, or an offset or a length that would come out has no
    /// room in its field.
    NotStorable,
}

} // verus!
