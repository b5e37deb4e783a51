//! The header: the container's version, where its two tables start, and
//! how many entries it has.

use vstd::prelude::*;
use crate::error::ReadErr;
use crate::wire::{read_u32, u32_bytes, u32_le, write_u32};

verus! {

/// The bytes that one descriptor takes.
pub const KEY_TABLE_ENTRY_SIZE: u8 = 16;

/// The bytes that the header takes, the magic not counted.
pub const HEADER_SIZE: usize = 16;

/// The four numbers that follow the magic.
#[derive(Clone, Copy, Debug, PartialEq, Eq, Structural)]
pub struct Header {
    pub version: u32,
    /// Where the key table starts, counted from the start of the image.
    pub key_table_start: u32,
    /// Where the value table starts, counted from the start of the image.
    pub data_table_start: u32,
    /// The number of entries.
    pub table_entries: u32,
}

/// The header that stands at the start of `s`.
pub open spec fn header_of(s: Seq<u8>) -> Result<Header, ReadErr> {
    if s.len() < 16 {
        Err(ReadErr::TruncatedRead)
    } else {
        Ok(
            Header {
                version: u32_le(s.subrange(0, 4)) as u32,
                key_table_start: u32_le(s.subrange(4, 8)) as u32,
                data_table_start: u32_le(s.subrange(8, 12)) as u32,
                table_entries: u32_le(s.subrange(12, 16)) as u32,
            },
        )
    }
}

impl Header {
    /// The sixteen bytes of the header.
    pub open spec fn bytes(self) -> Seq<u8> {
        u32_bytes(self.version) + u32_bytes(self.key_table_start) + u32_bytes(
            self.data_table_start,
        ) + u32_bytes(self.table_entries)
    }

    /// The header after an entry with a key of `key_size` bytes came in,
    /// where the padding went from `prev_padding` to `padding`.
    pub open spec fn with_entry(self, key_size: int, prev_padding: int, padding: int) -> Header {
        Header {
            version: self.version,
            key_table_start: (self.key_table_start + 16) as u32,
            data_table_start: (self.data_table_start + key_size + 16 - prev_padding
                + padding) as u32,
            table_entries: (self.table_entries + 1) as u32,
        }
    }

    /// The header after an entry with a key of `key_size` bytes went out,
    /// where the padding went from `prev_padding` to `padding`.
    pub open spec fn without_entry(self, key_size: int, prev_padding: int, padding: int) -> Header {
        Header {
            version: self.version,
            key_table_start: (self.key_table_start - 16) as u32,
            data_table_start: (self.data_table_start - key_size - 16 - prev_padding
                + padding) as u32,
            table_entries: (self.table_entries - 1) as u32,
        }
    }

    /// The header after the padding went from `prev_padding` to `padding`
    /// and nothing else changed.
    pub open spec fn with_padding(self, prev_padding: int, padding: int) -> Header {
        Header {
            version: self.version,
            key_table_start: self.key_table_start,
            data_table_start: (self.data_table_start - prev_padding + padding) as u32,
            table_entries: self.table_entries,
        }
    }

    /// Reads the header from the start of `reader`: four little-endian
    /// numbers, in the order of the fields.
    pub fn new(reader: &[u8]) -> (r: Result<Header, ReadErr>)
        ensures
            r == header_of(reader@),
    {
        if reader.len() < HEADER_SIZE {
            return Err(ReadErr::TruncatedRead);
        }
        let version: u32 = read_u32(reader, 0);
        let key_table_start: u32 = read_u32(reader, 4);
        let data_table_start: u32 = read_u32(reader, 8);
        let table_entries: u32 = read_u32(reader, 12);
        Ok(Header { version, key_table_start, data_table_start, table_entries })
    }

    /// Accounts for a new entry: one descriptor more before the key
    /// table, and the key and the change of padding before the value
    /// table.
    pub fn add_entry(&mut self, key_size: u32, prev_padding: u32, padding: u32)
        requires
            old(self).key_table_start + 16 <= u32::MAX,
            old(self).table_entries + 1 <= u32::MAX,
            0 <= old(self).data_table_start + key_size + 16 - prev_padding + padding <= u32::MAX,
        ensures
            *final(self) == old(self).with_entry(
                key_size as int,
                prev_padding as int,
                padding as int,
            ),
    {
        let start: u64 = self.data_table_start as u64 + key_size as u64 + 16 + padding as u64
            - prev_padding as u64;
        self.key_table_start = self.key_table_start + 16;
        self.data_table_start = start as u32;
        self.table_entries = self.table_entries + 1;
    }

    /// Accounts for an entry that went out: the inverse of `add_entry`.
    pub fn delete_entry(&mut self, key_size: u32, prev_padding: u32, padding: u32)
        requires
            old(self).key_table_start >= 16,
            old(self).table_entries >= 1,
            0 <= old(self).data_table_start - key_size - 16 - prev_padding + padding <= u32::MAX,
        ensures
            *final(self) == old(self).without_entry(
                key_size as int,
                prev_padding as int,
                padding as int,
            ),
    {
        let start: u64 = self.data_table_start as u64 + padding as u64 - key_size as u64 - 16
            - prev_padding as u64;
        self.key_table_start = self.key_table_start - 16;
        self.data_table_start = start as u32;
        self.table_entries = self.table_entries - 1;
    }

    /// Accounts for a change of padding alone.
    pub fn edit_entry(&mut self, prev_padding: u32, padding: u32)
        requires
            0 <= old(self).data_table_start - prev_padding + padding <= u32::MAX,
        ensures
            *final(self) == old(self).with_padding(prev_padding as int, padding as int),
    {
        let start: u64 = self.data_table_start as u64 + padding as u64 - prev_padding as u64;
        self.data_table_start = start as u32;
    }

    /// Appends the sixteen bytes of the header.
    pub fn export(&self, writer: &mut Vec<u8>)
        ensures
            final(writer)@ == old(writer)@ + self.bytes(),
    {
        write_u32(writer, self.version);
        write_u32(writer, self.key_table_start);
        write_u32(writer, self.data_table_start);
        write_u32(writer, self.table_entries);
        assert(writer@ =~= old(writer)@ + self.bytes());
    }
}

/// Accounting for an entry that goes out undoes accounting for the same
/// entry coming in.
pub proof fn lemma_header_entry_in_and_out(
    h: Header,
    key_size: int,
    prev_padding: int,
    padding: int,
)
    requires
        h.key_table_start + 16 <= u32::MAX,
        h.table_entries + 1 <= u32::MAX,
        0 <= h.data_table_start + key_size + 16 - prev_padding + padding <= u32::MAX,
    ensures
        h.with_entry(key_size, prev_padding, padding).without_entry(
            key_size,
            padding,
            prev_padding,
        ) == h,
{
}

/// A header that was written is read back unchanged.
pub proof fn lemma_header_bytes_read(h: Header)
    ensures
        h.bytes().len() == 16,
        header_of(h.bytes()) == Ok::<Header, ReadErr>(h),
{
    let s = h.bytes();
    assert(s.subrange(0, 4) =~= u32_bytes(h.version));
    assert(s.subrange(4, 8) =~= u32_bytes(h.key_table_start));
    assert(s.subrange(8, 12) =~= u32_bytes(h.data_table_start));
    assert(s.subrange(12, 16) =~= u32_bytes(h.table_entries));
    crate::wire::lemma_u32_bytes_read(h.version);
    crate::wire::lemma_u32_bytes_read(h.key_table_start);
    crate::wire::lemma_u32_bytes_read(h.data_table_start);
    crate::wire::lemma_u32_bytes_read(h.table_entries);
}

/// The header that is read depends on the first sixteen bytes alone.
pub proof fn lemma_header_of_prefix(s: Seq<u8>, t: Seq<u8>)
    requires
        s.len() >= 16,
        t.len() >= 16,
        s.subrange(0, 16) == t.subrange(0, 16),
    ensures
        header_of(s) == header_of(t),
{
    let a = s.subrange(0, 16);
    let b = t.subrange(0, 16);
    assert(s.subrange(0, 4) =~= a.subrange(0, 4));
    assert(s.subrange(4, 8) =~= a.subrange(4, 8));
    assert(s.subrange(8, 12) =~= a.subrange(8, 12));
    assert(s.subrange(12, 16) =~= a.subrange(12, 16));
    assert(t.subrange(0, 4) =~= b.subrange(0, 4));
    assert(t.subrange(4, 8) =~= b.subrange(4, 8));
    assert(t.subrange(8, 12) =~= b.subrange(8, 12));
    assert(t.subrange(12, 16) =~= b.subrange(12, 16));
}

/// Sixteen bytes that are read as a header are that header's bytes.
pub proof fn lemma_header_read_bytes(s: Seq<u8>)
    requires
        s.len() >= 16,
    ensures
        header_of(s) is Ok,
        header_of(s)->Ok_0.bytes() == s.subrange(0, 16),
{
    crate::wire::lemma_u32_read_bytes(s.subrange(0, 4));
    crate::wire::lemma_u32_read_bytes(s.subrange(4, 8));
    crate::wire::lemma_u32_read_bytes(s.subrange(8, 12));
    crate::wire::lemma_u32_read_bytes(s.subrange(12, 16));
    assert(header_of(s)->Ok_0.bytes() =~= s.subrange(0, 16));
}

} // verus!
