//! The value-type tag of a descriptor: two bytes, a fixed marker and a code.

use vstd::prelude::*;

verus! {

/// The first byte of every format tag.
pub const FORMAT_MARKER: u8 = 0x04;

/// How the bytes of a value slot are to be read.
#[derive(Clone, Copy, Debug, PartialEq, Eq, Structural)]
pub enum Format {
    /// Text that fills its slot; a terminator is not promised.
    Utf8Special,
    /// Text that ends at the first zero byte of its slot.
    Utf8,
    /// A little-endian unsigned 32-bit number.
    U32,
}

/// Why two bytes are not a format tag.
#[derive(Clone, Copy, Debug, PartialEq, Eq, Structural)]
pub enum FormatErr {
    /// The first byte, which is not the marker.
    BadTag(u8),
    /// The second byte, which is no known code.
    UnknownFormat(u8),
}

/// The format that a marker byte and a code byte spell.
pub open spec fn format_of(marker: u8, code: u8) -> Result<Format, FormatErr> {
    if marker != 0x04 {
        Err(FormatErr::BadTag(marker))
    } else if code == 0x00 {
        Ok(Format::Utf8Special)
    } else if code == 0x02 {
        Ok(Format::Utf8)
    } else if code == 0x04 {
        Ok(Format::U32)
    } else {
        Err(FormatErr::UnknownFormat(code))
    }
}

impl Format {
    /// The code byte of this format.
    pub open spec fn code(self) -> u8 {
        match self {
            Format::Utf8Special => 0x00,
            Format::Utf8 => 0x02,
            Format::U32 => 0x04,
        }
    }

    /// The two bytes of this format's tag.
    pub open spec fn tag(self) -> Seq<u8> {
        seq![0x04u8, self.code()]
    }

    /// Reads a tag: the marker first, then the code.
    pub fn try_from(bytes: &[u8; 2]) -> (r: Result<Format, FormatErr>)
        ensures
            r == format_of(bytes@[0], bytes@[1]),
    {
        if bytes[0] != FORMAT_MARKER {
            return Err(FormatErr::BadTag(bytes[0]));
        }
        let code: u8 = bytes[1];
        if code == 0x00 {
            Ok(Format::Utf8Special)
        } else if code == 0x02 {
            Ok(Format::Utf8)
        } else if code == 0x04 {
            Ok(Format::U32)
        } else {
            Err(FormatErr::UnknownFormat(code))
        }
    }

    /// Writes the tag that `try_from` reads back as this format.
    pub fn export(self) -> (r: [u8; 2])
        ensures
            r@ == self.tag(),
            format_of(r@[0], r@[1]) == Ok::<Format, FormatErr>(self),
    {
        let code: u8 = match self {
            Format::Utf8Special => 0x00,
            Format::Utf8 => 0x02,
            Format::U32 => 0x04,
        };
        let r: [u8; 2] = [FORMAT_MARKER, code];
        assert(r@ =~= self.tag());
        r
    }
}

/// A tag that was written is read back as the format it was written for.
pub proof fn lemma_format_tag_read(f: Format)
    ensures
        f.tag().len() == 2,
        format_of(f.tag()[0], f.tag()[1]) == Ok::<Format, FormatErr>(f),
{
}

/// Two bytes that are read as a format are that format's tag.
pub proof fn lemma_format_read_tag(marker: u8, code: u8)
    requires
        format_of(marker, code) is Ok,
    ensures
        format_of(marker, code)->Ok_0.tag() == seq![marker, code],
{
    assert(format_of(marker, code)->Ok_0.tag() =~= seq![marker, code]);
}

} // verus!
