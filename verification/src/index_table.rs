//! The descriptor table: one record of sixteen bytes for each entry.

use vstd::prelude::*;
use crate::error::{NotFound, ReadErr};
use crate::format::{format_of, Format, FormatErr};
use crate::header::Header;
use crate::mapping::{DataField, DataView};
use crate::wire::{read_u16, read_u32, u16_bytes, u16_le, u32_bytes, u32_le, write_u16, write_u32};

verus! {

/// The bytes that one descriptor takes.
pub const ENTRY_SIZE: usize = 16;

/// Where an entry's key and value stand, and how the value is to be read.
#[derive(Clone, Copy, Debug, PartialEq, Eq, Structural)]
pub struct IndexTableEntry {
    /// Where the key starts, counted from the start of the key table.
    pub key_offset: u16,
    pub data_format: Format,
    /// The bytes of the slot that the value uses.
    pub data_len: u32,
    /// The bytes of the slot.
    pub data_max_len: u32,
    /// Where the slot starts, counted from the start of the value table.
    pub data_offset: u32,
}

/// The descriptor that stands in `s` at `at`. The format tag is looked at
/// as soon as its two bytes are there, before the rest of the record.
pub open spec fn entry_at(s: Seq<u8>, at: int) -> Result<IndexTableEntry, ReadErr> {
    if s.len() < at + 4 {
        Err(ReadErr::TruncatedRead)
    } else {
        match format_of(s[at + 2], s[at + 3]) {
            Err(FormatErr::BadTag(b)) => Err(ReadErr::BadFormatTag(b)),
            Err(FormatErr::UnknownFormat(b)) => Err(ReadErr::UnknownFormatCode(b)),
            Ok(f) => if s.len() < at + 16 {
                Err(ReadErr::TruncatedRead)
            } else {
                Ok(
                    IndexTableEntry {
                        key_offset: u16_le(s.subrange(at, at + 2)) as u16,
                        data_format: f,
                        data_len: u32_le(s.subrange(at + 4, at + 8)) as u32,
                        data_max_len: u32_le(s.subrange(at + 8, at + 12)) as u32,
                        data_offset: u32_le(s.subrange(at + 12, at + 16)) as u32,
                    },
                )
            },
        }
    }
}

/// The first `n` descriptors that stand in `s`, one after the other from
/// its start; the error of the first that cannot be read.
pub open spec fn entries_of(s: Seq<u8>, n: nat) -> Result<Seq<IndexTableEntry>, ReadErr>
    decreases n,
{
    if n == 0 {
        Ok(Seq::empty())
    } else {
        match entries_of(s, (n - 1) as nat) {
            Err(e) => Err(e),
            Ok(es) => match entry_at(s, 16 * (n - 1)) {
                Err(e) => Err(e),
                Ok(x) => Ok(es.push(x)),
            },
        }
    }
}

/// The bytes of the descriptors of `t`, one after the other.
pub open spec fn table_bytes(t: Seq<IndexTableEntry>) -> Seq<u8>
    decreases t.len(),
{
    if t.len() == 0 {
        Seq::empty()
    } else {
        table_bytes(t.drop_last()) + t.last().bytes()
    }
}

/// Where the slots that `t` describes end, counted from the start of the
/// value table, if they stand one after the other.
pub open spec fn slots_end(t: Seq<IndexTableEntry>) -> int {
    if t.len() == 0 {
        0
    } else {
        t.last().data_offset + t.last().data_max_len
    }
}

/// The bytes that the first `n` slots take, by the descriptors of `t`.
pub open spec fn slots_len_upto(t: Seq<IndexTableEntry>, n: int) -> int
    decreases n,
{
    if n <= 0 {
        0
    } else {
        slots_len_upto(t, n - 1) + t[n - 1].data_max_len
    }
}

/// `t` with the offsets of every descriptor from position `from` on moved
/// by `keys` and by `data`.
pub open spec fn shift_from(t: Seq<IndexTableEntry>, from: int, keys: int, data: int) -> Seq<
    IndexTableEntry,
> {
    Seq::new(
        t.len(),
        |j: int|
            if j >= from {
                t[j].shifted(keys, data)
            } else {
                t[j]
            },
    )
}

/// `t` with a descriptor for `value` at position `idx`. The new descriptor
/// takes the offsets of the one that stood there, or, at the end of the
/// table, `keys_end` and the end of the last slot. The descriptors behind
/// it make room for a key of `key_len` bytes and for the new slot.
pub open spec fn table_insert(
    t: Seq<IndexTableEntry>,
    idx: int,
    key_len: int,
    value: DataView,
    keys_end: int,
) -> Seq<IndexTableEntry> {
    let key_offset = if idx < t.len() {
        t[idx].key_offset as int
    } else {
        keys_end
    };
    let data_offset = if idx < t.len() {
        t[idx].data_offset as int
    } else {
        slots_end(t)
    };
    shift_from(
        t.insert(idx, IndexTableEntry::for_value(value, key_offset as u16, data_offset as u32)),
        idx + 1,
        key_len,
        value.slot_len() as int,
    )
}

/// `t` with the descriptor at `idx` made anew for `value`, its slot as
/// large as the value needs, and the slots behind it moved by what the
/// slot grew or shrank.
pub open spec fn table_edit(t: Seq<IndexTableEntry>, idx: int, value: DataView) -> Seq<
    IndexTableEntry,
> {
    shift_from(
        t.update(idx, IndexTableEntry::for_value(value, t[idx].key_offset, t[idx].data_offset)),
        idx + 1,
        0,
        value.slot_len() - t[idx].data_max_len,
    )
}

/// `t` without the descriptor at `idx`, and the descriptors behind it
/// moved up by a key of `key_len` bytes and by the slot that went out.
pub open spec fn table_delete(t: Seq<IndexTableEntry>, idx: int, key_len: int) -> Seq<
    IndexTableEntry,
> {
    shift_from(t.remove(idx), idx, -key_len, -(t[idx].data_max_len as int))
}

/// Whether every descriptor of `t` from position `from` on can be moved
/// by `keys` and by `data` without an offset leaving its field.
pub open spec fn can_shift_from(t: Seq<IndexTableEntry>, from: int, keys: int, data: int) -> bool {
    forall|j: int| from <= j < t.len() ==> (#[trigger] t[j]).can_shift(keys, data)
}

impl IndexTableEntry {
    /// The sixteen bytes of the descriptor.
    pub open spec fn bytes(self) -> Seq<u8> {
        u16_bytes(self.key_offset) + self.data_format.tag() + u32_bytes(self.data_len) + u32_bytes(
            self.data_max_len,
        ) + u32_bytes(self.data_offset)
    }

    /// The descriptor of a slot that is made for `value`.
    pub open spec fn for_value(value: DataView, key_offset: u16, data_offset: u32) -> Self {
        IndexTableEntry {
            key_offset,
            data_format: value.format(),
            data_len: value.slot_len() as u32,
            data_max_len: value.slot_len() as u32,
            data_offset,
        }
    }

    /// Whether the offsets can be moved by `keys` and by `data` without
    /// leaving their fields.
    pub open spec fn can_shift(self, keys: int, data: int) -> bool {
        &&& 0 <= self.key_offset + keys <= u16::MAX
        &&& 0 <= self.data_offset + data <= u32::MAX
    }

    /// The descriptor with its offsets moved by `keys` and by `data`.
    pub open spec fn shifted(self, keys: int, data: int) -> Self {
        IndexTableEntry {
            key_offset: (self.key_offset + keys) as u16,
            data_format: self.data_format,
            data_len: self.data_len,
            data_max_len: self.data_max_len,
            data_offset: (self.data_offset + data) as u32,
        }
    }

    /// Reads the descriptor that stands in `reader` at `at`.
    pub fn read_at(reader: &[u8], at: usize) -> (r: Result<IndexTableEntry, ReadErr>)
        requires
            at <= reader@.len(),
        ensures
            r == entry_at(reader@, at as int),
    {
        let left: usize = reader.len() - at;
        if left < 4 {
            return Err(ReadErr::TruncatedRead);
        }
        let key_offset: u16 = read_u16(reader, at);
        let tag: [u8; 2] = [reader[at + 2], reader[at + 3]];
        let data_format: Format = match Format::try_from(&tag) {
            Ok(f) => f,
            Err(FormatErr::BadTag(b)) => {
                return Err(ReadErr::BadFormatTag(b));
            },
            Err(FormatErr::UnknownFormat(b)) => {
                return Err(ReadErr::UnknownFormatCode(b));
            },
        };
        if left < ENTRY_SIZE {
            return Err(ReadErr::TruncatedRead);
        }
        let data_len: u32 = read_u32(reader, at + 4);
        let data_max_len: u32 = read_u32(reader, at + 8);
        let data_offset: u32 = read_u32(reader, at + 12);
        Ok(IndexTableEntry { key_offset, data_format, data_len, data_max_len, data_offset })
    }

    /// Reads the descriptor that stands at the start of `reader`.
    pub fn new(reader: &[u8]) -> (r: Result<IndexTableEntry, ReadErr>)
        ensures
            r == entry_at(reader@, 0),
    {
        IndexTableEntry::read_at(reader, 0)
    }

    /// The descriptor of a slot that is made for `data_field`: the slot
    /// is as large as the value needs, and all of it is in use.
    pub fn for_data_field(data_field: &DataField, key_offset: u16, data_offset: u32) -> (r: Self)
        requires
            data_field@.slot_len() <= u32::MAX,
        ensures
            r == IndexTableEntry::for_value(data_field@, key_offset, data_offset),
    {
        let len: u32 = data_field.len();
        IndexTableEntry {
            key_offset,
            data_format: data_field.format(),
            data_len: len,
            data_max_len: len,
            data_offset,
        }
    }

    /// Appends the sixteen bytes of the descriptor.
    pub fn export(&self, writer: &mut Vec<u8>)
        ensures
            final(writer)@ == old(writer)@ + self.bytes(),
    {
        write_u16(writer, self.key_offset);
        let tag: [u8; 2] = self.data_format.export();
        writer.push(tag[0]);
        writer.push(tag[1]);
        write_u32(writer, self.data_len);
        write_u32(writer, self.data_max_len);
        write_u32(writer, self.data_offset);
        assert(writer@ =~= old(writer)@ + self.bytes());
    }
}

/// The descriptors of a container, in the order of its entries.
#[derive(Debug)]
pub struct IndexTable {
    pub entries: Vec<IndexTableEntry>,
}

impl View for IndexTable {
    type V = Seq<IndexTableEntry>;

    open spec fn view(&self) -> Seq<IndexTableEntry> {
        self.entries@
    }
}

/// Once a descriptor cannot be read, reading further gives the same
/// error.
pub proof fn lemma_entries_err_stays(s: Seq<u8>, m: nat, n: nat)
    requires
        m <= n,
        entries_of(s, m) is Err,
    ensures
        entries_of(s, n) == entries_of(s, m),
    decreases n,
{
    if m < n {
        lemma_entries_err_stays(s, m, (n - 1) as nat);
    }
}

/// Descriptors that were read are as many as were asked for, and the
/// image holds them all.
pub proof fn lemma_entries_len(s: Seq<u8>, n: nat)
    requires
        entries_of(s, n) is Ok,
    ensures
        entries_of(s, n)->Ok_0.len() == n,
        16 * n <= s.len(),
    decreases n,
{
    if n > 0 {
        lemma_entries_len(s, (n - 1) as nat);
    }
}

impl IndexTable {
    /// Reads as many descriptors as the header counts, one after the
    /// other from the start of `reader`.
    pub fn new(reader: &[u8], header: &Header) -> (r: Result<IndexTable, ReadErr>)
        ensures
            match r {
                Ok(t) => entries_of(reader@, header.table_entries as nat) == Ok::<
                    Seq<IndexTableEntry>,
                    ReadErr,
                >(t@),
                Err(e) => entries_of(reader@, header.table_entries as nat) == Err::<
                    Seq<IndexTableEntry>,
                    ReadErr,
                >(e),
            },
    {
        let mut entries: Vec<IndexTableEntry> = Vec::new();
        let mut i: u32 = 0;
        let mut at: usize = 0;
        let size: usize = reader.len();
        while i < header.table_entries
            invariant
                size == reader@.len(),
                i <= header.table_entries,
                at == 16 * i,
                at <= reader@.len(),
                entries_of(reader@, i as nat) == Ok::<Seq<IndexTableEntry>, ReadErr>(entries@),
            decreases header.table_entries - i,
        {
            match IndexTableEntry::read_at(reader, at) {
                Ok(entry) => {
                    assert(at + 16 <= reader@.len());
                    entries.push(entry);
                },
                Err(e) => {
                    proof {
                        lemma_entries_err_stays(
                            reader@,
                            (i + 1) as nat,
                            header.table_entries as nat,
                        );
                    }
                    return Err(e);
                },
            }
            i = i + 1;
            at = at + ENTRY_SIZE;
        }
        Ok(IndexTable { entries })
    }

    /// Appends the bytes of every descriptor, in order.
    pub fn export(&self, writer: &mut Vec<u8>)
        ensures
            final(writer)@ == old(writer)@ + table_bytes(self@),
    {
        let mut i: usize = 0;
        while i < self.entries.len()
            invariant
                i <= self.entries@.len(),
                writer@ == old(writer)@ + table_bytes(self@.subrange(0, i as int)),
            decreases self.entries@.len() - i,
        {
            self.entries[i].export(writer);
            proof {
                let next = self@.subrange(0, i + 1);
                assert(next.drop_last() =~= self@.subrange(0, i as int));
                assert(next.last() == self@[i as int]);
            }
            i = i + 1;
        }
        assert(self@.subrange(0, i as int) =~= self@);
    }

    /// Moves the offsets of every descriptor from position `from` on.
    fn shift(&mut self, from: usize, keys: i64, data: i64)
        requires
            can_shift_from(old(self)@, from as int, keys as int, data as int),
        ensures
            final(self)@ == shift_from(old(self)@, from as int, keys as int, data as int),
    {
        let mut j: usize = from;
        while j < self.entries.len()
            invariant
                from <= j,
                self@.len() == old(self)@.len(),
                can_shift_from(old(self)@, from as int, keys as int, data as int),
                forall|k: int|
                    0 <= k < self@.len() ==> self@[k] == if from <= k < j {
                        old(self)@[k].shifted(keys as int, data as int)
                    } else {
                        old(self)@[k]
                    },
            decreases self.entries@.len() - j,
        {
            let e: IndexTableEntry = self.entries[j];
            assert(old(self)@[j as int].can_shift(keys as int, data as int));
            let moved: IndexTableEntry = IndexTableEntry {
                key_offset: (e.key_offset as i64 + keys) as u16,
                data_format: e.data_format,
                data_len: e.data_len,
                data_max_len: e.data_max_len,
                data_offset: (e.data_offset as i64 + data) as u32,
            };
            self.entries[j] = moved;
            j = j + 1;
        }
        assert(self@ =~= shift_from(old(self)@, from as int, keys as int, data as int));
    }

    /// Puts a descriptor for `data_field` at position `idx`. It takes the
    /// offsets of the descriptor that stood there; at the end of the
    /// table it takes `keys_end`, where the key table ends, and the end
    /// of the last slot. The descriptors behind it make room for a key of
    /// `key_len` bytes and for the new slot.
    pub fn add(&mut self, idx: usize, key_len: u16, data_field: &DataField, keys_end: u16)
        requires
            idx <= old(self)@.len(),
            data_field@.slot_len() <= u32::MAX,
            idx == old(self)@.len() ==> slots_end(old(self)@) <= u32::MAX,
            can_shift_from(
                old(self)@,
                idx as int,
                key_len as int,
                data_field@.slot_len() as int,
            ),
        ensures
            final(self)@ == table_insert(
                old(self)@,
                idx as int,
                key_len as int,
                data_field@,
                keys_end as int,
            ),
    {
        let n: usize = self.entries.len();
        let key_offset: u16 = if idx < n {
            self.entries[idx].key_offset
        } else {
            keys_end
        };
        let data_offset: u32 = if idx < n {
            self.entries[idx].data_offset
        } else if n == 0 {
            0
        } else {
            self.entries[n - 1].data_offset + self.entries[n - 1].data_max_len
        };
        let slot: u32 = data_field.len();
        let entry: IndexTableEntry = IndexTableEntry::for_data_field(
            data_field,
            key_offset,
            data_offset,
        );
        self.entries.insert(idx, entry);
        assert(idx < self.entries.len());
        proof {
            let t = old(self)@;
            assert forall|j: int| idx + 1 <= j < self@.len() implies (#[trigger] self@[j]).can_shift(
                key_len as int,
                slot as int,
            ) by {
                assert(self@[j] == t[j - 1]);
                assert(t[j - 1].can_shift(key_len as int, slot as int));
            }
        }
        self.shift(idx + 1, key_len as i64, slot as i64);
    }

    /// Makes the descriptor at `idx` anew for `data_field`: the slot
    /// becomes as large as the value needs, with no room to spare, and
    /// the slots behind it move by what it grew or shrank. What it was
    /// before is its whole size, `data_max_len`, so that each slot keeps
    /// starting where the one before it ends. Without such a descriptor
    /// nothing changes.
    pub fn edit(&mut self, idx: usize, data_field: &DataField) -> (r: Result<(), NotFound>)
        requires
            data_field@.slot_len() <= u32::MAX,
            idx < old(self)@.len() ==> can_shift_from(
                old(self)@,
                idx + 1,
                0,
                data_field@.slot_len() - old(self)@[idx as int].data_max_len,
            ),
        ensures
            r is Ok <==> idx < old(self)@.len(),
            r is Ok ==> final(self)@ == table_edit(old(self)@, idx as int, data_field@),
            r is Err ==> *final(self) == *old(self),
    {
        if idx >= self.entries.len() {
            return Err(NotFound);
        }
        let prev: IndexTableEntry = self.entries[idx];
        let entry: IndexTableEntry = IndexTableEntry::for_data_field(
            data_field,
            prev.key_offset,
            prev.data_offset,
        );
        self.entries[idx] = entry;
        proof {
            let t = old(self)@;
            let delta = data_field@.slot_len() - t[idx as int].data_max_len;
            assert forall|j: int| idx + 1 <= j < self@.len() implies (#[trigger] self@[j]).can_shift(
                0,
                delta,
            ) by {
                assert(self@[j] == t[j]);
                assert(t[j].can_shift(0, delta));
            }
        }
        self.shift(idx + 1, 0, entry.data_max_len as i64 - prev.data_max_len as i64);
        Ok(())
    }

    /// Takes out the descriptor at `idx`. The descriptors behind it move
    /// up by a key of `key_len` bytes and by the whole size of the slot
    /// that went out, `data_max_len`, so that each slot keeps starting
    /// where the one before it ends.
    pub fn delete(&mut self, idx: usize, key_len: u16)
        requires
            idx < old(self)@.len(),
            can_shift_from(
                old(self)@,
                idx + 1,
                -(key_len as int),
                -(old(self)@[idx as int].data_max_len as int),
            ),
        ensures
            final(self)@ == table_delete(old(self)@, idx as int, key_len as int),
    {
        let removed: IndexTableEntry = self.entries.remove(idx);
        proof {
            let t = old(self)@;
            assert forall|j: int| idx <= j < self@.len() implies (#[trigger] self@[j]).can_shift(
                -(key_len as int),
                -(removed.data_max_len as int),
            ) by {
                assert(self@[j] == t[j + 1]);
                assert(t[j + 1].can_shift(-(key_len as int), -(removed.data_max_len as int)));
            }
        }
        self.shift(idx, -(key_len as i64), -(removed.data_max_len as i64));
    }
}

/// A descriptor that was read from sixteen bytes is written as those
/// sixteen bytes.
pub proof fn lemma_entry_at_bytes(s: Seq<u8>, at: int)
    requires
        0 <= at,
        entry_at(s, at) is Ok,
    ensures
        at + 16 <= s.len(),
        entry_at(s, at)->Ok_0.bytes() == s.subrange(at, at + 16),
{
    let e = entry_at(s, at)->Ok_0;
    crate::wire::lemma_u16_read_bytes(s.subrange(at, at + 2));
    crate::wire::lemma_u32_read_bytes(s.subrange(at + 4, at + 8));
    crate::wire::lemma_u32_read_bytes(s.subrange(at + 8, at + 12));
    crate::wire::lemma_u32_read_bytes(s.subrange(at + 12, at + 16));
    crate::format::lemma_format_read_tag(s[at + 2], s[at + 3]);
    assert(e.bytes() =~= s.subrange(at, at + 16));
}

/// Descriptors that were read from the start of an image are written as
/// the bytes they were read from.
pub proof fn lemma_entries_bytes(s: Seq<u8>, n: nat)
    requires
        entries_of(s, n) is Ok,
    ensures
        16 * n <= s.len(),
        table_bytes(entries_of(s, n)->Ok_0) == s.subrange(0, 16 * (n as int)),
    decreases n,
{
    if n == 0 {
        assert(table_bytes(entries_of(s, n)->Ok_0) =~= s.subrange(0, 0));
    } else {
        let m = (n - 1) as nat;
        let at = 16 * (m as int);
        lemma_entries_bytes(s, m);
        lemma_entry_at_bytes(s, at);
        let t = entries_of(s, n)->Ok_0;
        assert(t.drop_last() =~= entries_of(s, m)->Ok_0);
        assert(s.subrange(0, at) + s.subrange(at, at + 16) =~= s.subrange(0, at + 16));
    }
}

/// A table is written as sixteen bytes for each descriptor.
pub proof fn lemma_table_bytes_len(t: Seq<IndexTableEntry>)
    ensures
        table_bytes(t).len() == 16 * t.len(),
    decreases t.len(),
{
    if t.len() > 0 {
        lemma_table_bytes_len(t.drop_last());
    }
}

/// The sixteen bytes that a descriptor is written as are read back as
/// that descriptor.
pub proof fn lemma_entry_bytes_read(s: Seq<u8>, at: int, e: IndexTableEntry)
    requires
        0 <= at,
        at + 16 <= s.len(),
        s.subrange(at, at + 16) == e.bytes(),
    ensures
        entry_at(s, at) == Ok::<IndexTableEntry, ReadErr>(e),
{
    let b = e.bytes();
    let part = s.subrange(at, at + 16);
    assert(b.len() == 16);
    assert(s[at + 2] == part[2] && s[at + 3] == part[3]);
    assert(b[2] == 0x04 && b[3] == e.data_format.code());
    crate::format::lemma_format_tag_read(e.data_format);
    assert(s.subrange(at, at + 2) =~= part.subrange(0, 2));
    assert(s.subrange(at + 4, at + 8) =~= part.subrange(4, 8));
    assert(s.subrange(at + 8, at + 12) =~= part.subrange(8, 12));
    assert(s.subrange(at + 12, at + 16) =~= part.subrange(12, 16));
    assert(b.subrange(0, 2) =~= u16_bytes(e.key_offset));
    assert(b.subrange(4, 8) =~= u32_bytes(e.data_len));
    assert(b.subrange(8, 12) =~= u32_bytes(e.data_max_len));
    assert(b.subrange(12, 16) =~= u32_bytes(e.data_offset));
    crate::wire::lemma_u16_bytes_read(e.key_offset);
    crate::wire::lemma_u32_bytes_read(e.data_len);
    crate::wire::lemma_u32_bytes_read(e.data_max_len);
    crate::wire::lemma_u32_bytes_read(e.data_offset);
}

/// The bytes that a table is written as are read back as that table.
pub proof fn lemma_table_bytes_read(s: Seq<u8>, t: Seq<IndexTableEntry>)
    requires
        16 * t.len() <= s.len(),
        s.subrange(0, 16 * (t.len() as int)) == table_bytes(t),
    ensures
        entries_of(s, t.len()) == Ok::<Seq<IndexTableEntry>, ReadErr>(t),
    decreases t.len(),
{
    if t.len() == 0 {
        assert(t =~= Seq::empty());
    } else {
        let m = t.len() - 1;
        let head = t.drop_last();
        lemma_table_bytes_len(head);
        lemma_table_bytes_len(t);
        let whole = s.subrange(0, 16 * (t.len() as int));
        assert(s.subrange(0, 16 * m) =~= whole.subrange(0, 16 * m));
        assert(whole.subrange(0, 16 * m) =~= table_bytes(head));
        lemma_table_bytes_read(s, head);
        assert(s.subrange(16 * m, 16 * m + 16) =~= whole.subrange(16 * m, 16 * m + 16));
        assert(whole.subrange(16 * m, 16 * m + 16) =~= t.last().bytes());
        lemma_entry_bytes_read(s, 16 * m, t.last());
        assert(head.push(t.last()) =~= t);
    }
}

} // verus!
