//! The container: header, descriptors, keys and values as one value that
//! is read, changed and written as a whole.

use vstd::prelude::*;
use crate::error::{ChangeErr, MappingErr, NotFound, ReadErr, SfoParseErr};
use crate::header::{header_of, Header};
use crate::index_table::{
    can_shift_from, entries_of, lemma_entries_len, slots_end, slots_len_upto, table_bytes,
    table_delete, table_edit, table_insert, IndexTable, IndexTableEntry,
};
use crate::keys::Keys;
use crate::laws::{
    lemma_appended_faithful, lemma_appended_wf, lemma_replaced_faithful, lemma_replaced_wf,
    lemma_sfo_of_faithful, lemma_without_faithful, lemma_without_wf,
};
use crate::mapping::{
    keys_bytes_upto, keys_len, keys_len_upto, lemma_keys_len_grows, lemma_padding_for,
    lemma_position_some, mapping_of, padding_for, position_of, slots_bytes_upto, DataField,
    DataView, Mapping, MappingIter, MappingView,
};
use crate::reading::{
    lemma_key_offsets, lemma_key_table_padded, lemma_keys_have_no_nul, lemma_slot_offsets,
    lemma_values_fit, lemma_values_of_each,
};
use crate::sums::lemma_slots_len_grows;
use crate::text::{has_no_nul, holds_no_nul, is_utf8};
use crate::wire::zeros;

verus! {

/// The four bytes that every image starts with.
pub const UNCONTAINED_PARAM_SFO_MAGIC: [u8; 4] = [0x00, 0x50, 0x53, 0x46];

/// The key table ends on a multiple of this many bytes.
pub const KEY_TABLE_PADDING_ALIGNMENT_BYTES: u32 = 4;

/// The four bytes that every image starts with.
pub open spec fn magic_bytes() -> Seq<u8> {
    seq![0x00u8, 0x50u8, 0x53u8, 0x46u8]
}

/// A container as plain values.
pub struct SfoView {
    pub header: Header,
    pub table: Seq<IndexTableEntry>,
    pub mapping: MappingView,
    /// The zero bytes between the last key and the value table.
    pub padding: nat,
}

impl SfoView {
    /// The number of entries.
    pub open spec fn len(self) -> nat {
        self.table.len()
    }

    /// Whether the parts of the container agree with one another:
    /// - the header's count, the descriptors, the keys and the values are
    ///   equally many;
    /// - the key table starts behind the header and the descriptors;
    /// - the value table starts behind the keys and the padding, and the
    ///   padding brings the keys up to a multiple of four bytes;
    /// - every key starts where the keys before it end, and every slot
    ///   where the slots before it end;
    /// - every value has room in its slot, and no key holds a zero byte.
    pub open spec fn wf(self) -> bool {
        let n = self.table.len() as int;
        &&& self.mapping.keys.len() == n
        &&& self.mapping.values.len() == n
        &&& self.header.table_entries == n
        &&& self.header.key_table_start == 20 + 16 * n
        &&& self.header.data_table_start == self.header.key_table_start + keys_len(
            self.mapping.keys,
        ) + self.padding
        &&& self.padding == padding_for(keys_len(self.mapping.keys))
        &&& forall|i: int| 0 <= i < n ==> #[trigger] self.entry_wf(i)
    }

    /// Whether entry `i` agrees with the entries before it: its key
    /// starts where their keys end and its slot where their slots end,
    /// its value has room in its slot, and its key holds no zero byte.
    pub open spec fn entry_wf(self, i: int) -> bool {
        &&& self.table[i].key_offset == keys_len_upto(self.mapping.keys, i)
        &&& self.table[i].data_offset == slots_len_upto(self.table, i)
        &&& self.mapping.values[i].payload().len() <= self.table[i].data_max_len
        &&& has_no_nul(self.mapping.keys[i])
    }

    /// Whether entry `i` is read back as it is once it was written out:
    /// its key is UTF-8, and its value is read back by the format of its
    /// descriptor.
    pub open spec fn entry_faithful(self, i: int) -> bool {
        &&& is_utf8(self.mapping.keys[i])
        &&& self.mapping.values[i].reads_as(
            self.table[i].data_format,
            self.table[i].data_max_len as int,
        )
    }

    /// Whether the container is read back as it is once it was written
    /// out: every key is UTF-8, and every value is read back by the
    /// format of its descriptor.
    pub open spec fn faithful(self) -> bool {
        forall|i: int| 0 <= i < self.len() ==> #[trigger] self.entry_faithful(i)
    }

    /// Whether an entry with `key` and `value` can be put behind the
    /// others: the key is UTF-8 and holds no zero byte, the value can be
    /// written and read back, and every offset and length that comes out
    /// has room in its field.
    pub open spec fn can_append(self, key: Seq<u8>, value: DataView) -> bool {
        let total = keys_len(self.mapping.keys);
        &&& is_utf8(key)
        &&& value.is_valid()
        &&& value.is_writable()
        &&& has_no_nul(key)
        &&& key.len() + 1 <= u16::MAX
        &&& total <= u16::MAX
        &&& value.slot_len() <= u32::MAX
        &&& slots_len_upto(self.table, self.len() as int) <= u32::MAX
        &&& self.header.key_table_start + 16 + total + key.len() + 1 + padding_for(
            total + key.len() + 1,
        ) <= u32::MAX
    }

    /// With an entry with `key` and `value` behind the others. Its key
    /// starts where the keys end, and its slot, made for the value,
    /// where the slots end.
    pub open spec fn appended(self, key: Seq<u8>, value: DataView) -> SfoView {
        let total = keys_len(self.mapping.keys);
        let key_len = key.len() as int + 1;
        let padding = padding_for(total + key_len);
        SfoView {
            header: self.header.with_entry(key_len, self.padding as int, padding),
            table: table_insert(self.table, self.len() as int, key_len, value, total),
            mapping: self.mapping.pushed(key, value),
            padding: padding as nat,
        }
    }

    /// Whether the entry at `idx` can take `value`: the value can be
    /// written and read back, and the new slot and the offsets of the
    /// slots behind it have room in their fields.
    pub open spec fn can_replace(self, idx: int, value: DataView) -> bool {
        &&& value.is_valid()
        &&& value.is_writable()
        &&& value.slot_len() <= u32::MAX
        &&& can_shift_from(
            self.table,
            idx + 1,
            0,
            value.slot_len() - self.table[idx].data_max_len,
        )
    }

    /// With `value` as the value of the entry at `idx`, in a slot made
    /// for it.
    pub open spec fn replaced(self, idx: int, value: DataView) -> SfoView {
        SfoView {
            header: self.header,
            table: table_edit(self.table, idx, value),
            mapping: MappingView {
                keys: self.mapping.keys,
                values: self.mapping.values.update(idx, value),
            },
            padding: self.padding,
        }
    }

    /// Without the entry at `idx`.
    pub open spec fn without(self, idx: int) -> SfoView {
        let key_len = self.mapping.keys[idx].len() as int + 1;
        let padding = padding_for(keys_len(self.mapping.keys) - key_len);
        SfoView {
            header: self.header.without_entry(key_len, self.padding as int, padding),
            table: table_delete(self.table, idx, key_len),
            mapping: self.mapping.removed(idx),
            padding: padding as nat,
        }
    }

    /// Whether `add` can be called with `key` and `value`.
    pub open spec fn can_add(self, key: Seq<u8>, value: DataView) -> bool {
        match position_of(self.mapping.keys, key) {
            Some(i) => self.can_replace(i, value),
            None => self.can_append(key, value),
        }
    }

    /// What `add` with `key` and `value` makes of the container: the
    /// first entry with that key gets the value; without such an entry,
    /// a new one comes behind the others.
    pub open spec fn added(self, key: Seq<u8>, value: DataView) -> SfoView {
        match position_of(self.mapping.keys, key) {
            Some(i) => self.replaced(i, value),
            None => self.appended(key, value),
        }
    }

    /// Whether `edit` can be called with `key` and `value`.
    pub open spec fn can_edit(self, key: Seq<u8>, value: DataView) -> bool {
        match position_of(self.mapping.keys, key) {
            Some(i) => self.can_replace(i, value),
            None => true,
        }
    }

    /// What `edit` with `key` and `value` makes of the container: the
    /// first entry with that key gets the value; without such an entry,
    /// nothing changes.
    pub open spec fn edited(self, key: Seq<u8>, value: DataView) -> SfoView {
        match position_of(self.mapping.keys, key) {
            Some(i) => self.replaced(i, value),
            None => self,
        }
    }

    /// What `delete` with `key` makes of the container: the first entry
    /// with that key goes out; without such an entry, nothing changes.
    pub open spec fn deleted(self, key: Seq<u8>) -> SfoView {
        match position_of(self.mapping.keys, key) {
            Some(i) => self.without(i),
            None => self,
        }
    }

    /// The image of the container: the magic, the header, the
    /// descriptors, the keys, the padding, and the slots.
    pub open spec fn image(self) -> Seq<u8> {
        magic_bytes() + self.header.bytes() + table_bytes(self.table) + keys_bytes_upto(
            self.mapping.keys,
            self.len() as int,
        ) + zeros(self.padding) + slots_bytes_upto(
            self.mapping.values,
            self.table,
            self.len() as int,
        )
    }
}

/// The container that the image `s` holds, or why it holds none.
///
/// The magic is read first, then the header, then as many descriptors as
/// the header counts. The key table must start right behind them. Then
/// the keys and the values are read.
pub open spec fn sfo_of(s: Seq<u8>) -> Result<SfoView, SfoParseErr> {
    if s.len() < 4 {
        Err(SfoParseErr::MagicReadErr(ReadErr::TruncatedRead))
    } else if s.subrange(0, 4) != magic_bytes() {
        Err(SfoParseErr::UnknownMagic([s[0], s[1], s[2], s[3]]))
    } else {
        match header_of(s.subrange(4, s.len() as int)) {
            Err(e) => Err(SfoParseErr::HeaderReadErr(e)),
            Ok(header) => match entries_of(
                s.subrange(20, s.len() as int),
                header.table_entries as nat,
            ) {
                Err(e) => Err(SfoParseErr::IndexTableReadErr(e)),
                Ok(table) => if header.key_table_start != 20 + 16 * table.len() {
                    Err(SfoParseErr::EntriesMappingReadErr(MappingErr::Layout))
                } else {
                    match mapping_of(
                        s.subrange(header.key_table_start as int, s.len() as int),
                        table,
                        header,
                    ) {
                        Err(e) => Err(SfoParseErr::EntriesMappingReadErr(e)),
                        Ok(mapping) => Ok(
                            SfoView {
                                header,
                                table,
                                mapping,
                                padding: padding_for(keys_len(mapping.keys)) as nat,
                            },
                        ),
                    }
                },
            },
        }
    }
}

/// A container in memory.
#[derive(Debug)]
pub struct Sfo {
    pub magic: [u8; 4],
    pub header: Header,
    pub index_table: IndexTable,
    pub entries_mapping: Mapping,
    /// The zero bytes between the last key and the value table.
    pub padding: usize,
}

impl View for Sfo {
    type V = SfoView;

    open spec fn view(&self) -> SfoView {
        SfoView {
            header: self.header,
            table: self.index_table@,
            mapping: self.entries_mapping@,
            padding: self.padding as nat,
        }
    }
}

impl Sfo {
    /// Whether the container starts with the magic and its parts agree
    /// with one another.
    pub open spec fn wf(&self) -> bool {
        &&& self.magic@ == magic_bytes()
        &&& self@.wf()
    }

    /// Whether every key is the catalogue's own where the catalogue has
    /// one of its name.
    pub open spec fn keys_resolved(&self) -> bool {
        self.entries_mapping.keys_resolved()
    }
}

/// A container that was read from an image is well-formed.
pub proof fn lemma_sfo_of_wf(s: Seq<u8>)
    requires
        sfo_of(s) is Ok,
    ensures
        sfo_of(s)->Ok_0.wf(),
{
    let c = sfo_of(s)->Ok_0;
    let n = c.table.len() as int;
    let rest = s.subrange(c.header.key_table_start as int, s.len() as int);
    lemma_entries_len(s.subrange(20, s.len() as int), c.header.table_entries as nat);
    lemma_key_table_padded(rest, c.table, c.header, c.mapping.keys);
    lemma_keys_len_grows(c.mapping.keys, 0, n);
    lemma_padding_for(keys_len(c.mapping.keys));
    lemma_values_of_each(rest, c.table, c.header, c.table.len());
    assert forall|i: int| 0 <= i < n implies #[trigger] c.entry_wf(i) by {
        lemma_key_offsets(rest, c.table, c.header, c.mapping.keys, i);
        lemma_slot_offsets(c.table, c.header, i);
        lemma_values_fit(rest, c.table, c.header, c.mapping.values, i);
        lemma_keys_have_no_nul(rest, c.table, c.header, c.mapping.keys, i);
    }
}

impl Sfo {
    /// Reads a container from an image: the magic, the header, the
    /// descriptors, then the keys and the values. The container that
    /// comes out is well-formed and faithful; an image that contradicts
    /// itself is refused.
    pub fn new(reader: &[u8]) -> (r: Result<Sfo, SfoParseErr>)
        ensures
            match r {
                Ok(c) => c.wf() && c@.faithful() && c.keys_resolved() && sfo_of(reader@) == Ok::<
                    SfoView,
                    SfoParseErr,
                >(c@),
                Err(e) => sfo_of(reader@) == Err::<SfoView, SfoParseErr>(e),
            },
    {
        let size: usize = reader.len();
        if size < 4 {
            return Err(SfoParseErr::MagicReadErr(ReadErr::TruncatedRead));
        }
        let magic: [u8; 4] = [reader[0], reader[1], reader[2], reader[3]];
        if magic[0] != UNCONTAINED_PARAM_SFO_MAGIC[0] || magic[1] != UNCONTAINED_PARAM_SFO_MAGIC[1]
            || magic[2] != UNCONTAINED_PARAM_SFO_MAGIC[2] || magic[3]
            != UNCONTAINED_PARAM_SFO_MAGIC[3] {
            assert(reader@.subrange(0, 4) != magic_bytes()) by {
                let m = reader@.subrange(0, 4);
                assert(m[0] == reader@[0] && m[1] == reader@[1] && m[2] == reader@[2] && m[3]
                    == reader@[3]);
            }
            return Err(SfoParseErr::UnknownMagic(magic));
        }
        assert(reader@.subrange(0, 4) =~= magic_bytes());
        assert(magic@ =~= magic_bytes());
        let header: Header = match Header::new(vstd::slice::slice_subrange(reader, 4, size)) {
            Ok(h) => h,
            Err(e) => {
                return Err(SfoParseErr::HeaderReadErr(e));
            },
        };
        let index_table: IndexTable = match IndexTable::new(
            vstd::slice::slice_subrange(reader, 20, size),
            &header,
        ) {
            Ok(t) => t,
            Err(e) => {
                return Err(SfoParseErr::IndexTableReadErr(e));
            },
        };
        proof {
            lemma_entries_len(reader@.subrange(20, size as int), header.table_entries as nat);
        }
        let n: usize = index_table.entries.len();
        if header.key_table_start as u64 != 20 + 16 * (n as u64) {
            return Err(SfoParseErr::EntriesMappingReadErr(MappingErr::Layout));
        }
        let entries_mapping: Mapping = match Mapping::new(
            vstd::slice::slice_subrange(reader, header.key_table_start as usize, size),
            &index_table,
            &header,
        ) {
            Ok(m) => m,
            Err(e) => {
                return Err(SfoParseErr::EntriesMappingReadErr(e));
            },
        };
        proof {
            lemma_sfo_of_wf(reader@);
            lemma_sfo_of_faithful(reader@);
        }
        let sum_of_keys: usize = entries_mapping.keys_len();
        let padding: usize = (4 - sum_of_keys % 4) % 4;
        proof {
            reveal(padding_for);
        }
        Ok(Sfo { magic, header, index_table, entries_mapping, padding })
    }

    /// Appends the image of the container: the magic, the header, the
    /// descriptors, the keys, the padding, and the slots.
    pub fn export(&self, writer: &mut Vec<u8>)
        requires
            self.wf(),
        ensures
            final(writer)@ == old(writer)@ + self@.image(),
    {
        writer.push(self.magic[0]);
        writer.push(self.magic[1]);
        writer.push(self.magic[2]);
        writer.push(self.magic[3]);
        assert(writer@ =~= old(writer)@ + magic_bytes());
        proof {
            crate::reread::lemma_wf_values_fit(self@);
        }
        self.header.export(writer);
        self.index_table.export(writer);
        self.entries_mapping.export(writer, &self.index_table, self.padding);
        assert(writer@ =~= old(writer)@ + self@.image());
    }
}

impl Sfo {
    /// The position of the first entry whose key is `key`.
    pub fn get_idx(&self, key: &Keys) -> (r: Result<usize, NotFound>)
        ensures
            match r {
                Ok(i) => position_of(self@.mapping.keys, key@) == Some(i as int),
                Err(_) => position_of(self@.mapping.keys, key@) is None,
            },
    {
        match self.entries_mapping.position(key) {
            Some(i) => Ok(i),
            None => Err(NotFound),
        }
    }

    /// The zero bytes that bring the keys up to a multiple of four bytes.
    pub fn calculate_padding(&self) -> (r: u32)
        requires
            keys_len(self@.mapping.keys) <= usize::MAX,
        ensures
            r == padding_for(keys_len(self@.mapping.keys)),
    {
        let sum_of_keys: usize = self.entries_mapping.keys_len();
        let rest: u32 = (sum_of_keys % 4) as u32;
        proof {
            reveal(padding_for);
        }
        (KEY_TABLE_PADDING_ALIGNMENT_BYTES - rest) % KEY_TABLE_PADDING_ALIGNMENT_BYTES
    }

    /// Gives the entry at `idx`, whose key is `key`, the value
    /// `data_field`.
    fn replace_at(&mut self, idx: usize, key: &Keys, data_field: DataField)
        requires
            old(self).wf(),
            position_of(old(self)@.mapping.keys, key@) == Some(idx as int),
            old(self)@.can_replace(idx as int, data_field@),
        ensures
            final(self).wf(),
            final(self)@ == old(self)@.replaced(idx as int, data_field@),
            old(self)@.faithful() ==> final(self)@.faithful(),
            final(self).keys_resolved() == old(self).keys_resolved(),
    {
        proof {
            lemma_position_some(self@.mapping.keys, key@);
            lemma_replaced_wf(self@, idx as int, data_field@);
            if self@.faithful() {
                lemma_replaced_faithful(self@, idx as int, data_field@);
            }
        }
        let edited: Result<(), NotFound> = self.index_table.edit(idx, &data_field);
        self.entries_mapping.edit(key, data_field);
        let new_padding: u32 = self.calculate_padding();
        self.header.edit_entry(self.padding as u32, new_padding);
        self.padding = new_padding as usize;
    }

    /// Puts an entry with `key` and `data_field` into the container. A
    /// new key comes behind the others; where the key is there already,
    /// its first entry gets the value.
    pub fn add(&mut self, key: Keys, data_field: DataField)
        requires
            old(self).wf(),
            old(self)@.can_add(key@, data_field@),
        ensures
            final(self).wf(),
            final(self)@ == old(self)@.added(key@, data_field@),
            old(self)@.faithful() ==> final(self)@.faithful(),
            old(self).keys_resolved() && key.is_resolved() ==> final(self).keys_resolved(),
    {
        match self.get_idx(&key) {
            Ok(idx) => {
                self.replace_at(idx, &key, data_field);
            },
            Err(_) => {
                proof {
                    lemma_appended_wf(self@, key@, data_field@);
                    if self@.faithful() {
                        lemma_appended_faithful(self@, key@, data_field@);
                    }
                    lemma_slots_len_grows(self@.table, 0, self@.len() as int);
                    if self@.len() > 0 {
                        assert(self@.entry_wf(self@.len() - 1));
                    }
                }
                let sorted_idx: usize = self.entries_mapping.get_sorted_idx(&key);
                let key_len: usize = key.len();
                let keys_end: usize = self.entries_mapping.keys_len();
                self.index_table.add(sorted_idx, key_len as u16, &data_field, keys_end as u16);
                self.entries_mapping.add(key, data_field);
                let new_padding: u32 = self.calculate_padding();
                self.header.add_entry(key_len as u32, self.padding as u32, new_padding);
                self.padding = new_padding as usize;
            },
        }
    }

    /// Gives the first entry whose key is `key` the value `data_field`,
    /// in a slot made for it. Without such an entry the container stays
    /// as it is.
    pub fn edit(&mut self, key: &Keys, data_field: DataField) -> (r: Result<(), NotFound>)
        requires
            old(self).wf(),
            old(self)@.can_edit(key@, data_field@),
        ensures
            final(self).wf(),
            r is Ok <==> position_of(old(self)@.mapping.keys, key@) is Some,
            final(self)@ == old(self)@.edited(key@, data_field@),
            r is Err ==> *final(self) == *old(self),
            old(self)@.faithful() ==> final(self)@.faithful(),
            final(self).keys_resolved() == old(self).keys_resolved(),
    {
        match self.get_idx(key) {
            Ok(idx) => {
                self.replace_at(idx, key, data_field);
                Ok(())
            },
            Err(e) => Err(e),
        }
    }

    /// Takes out the first entry whose key is `key`. Without such an
    /// entry the container stays as it is.
    pub fn delete(&mut self, key: &Keys) -> (r: Result<(), NotFound>)
        requires
            old(self).wf(),
        ensures
            final(self).wf(),
            r is Ok <==> position_of(old(self)@.mapping.keys, key@) is Some,
            final(self)@ == old(self)@.deleted(key@),
            r is Err ==> *final(self) == *old(self),
            old(self)@.faithful() ==> final(self)@.faithful(),
            old(self).keys_resolved() ==> final(self).keys_resolved(),
    {
        let idx: usize = match self.get_idx(key) {
            Ok(idx) => idx,
            Err(e) => {
                return Err(e);
            },
        };
        proof {
            let c = self@;
            let n = c.len() as int;
            lemma_position_some(c.mapping.keys, key@);
            lemma_without_wf(c, idx as int);
            if c.faithful() {
                lemma_without_faithful(c, idx as int);
            }
            lemma_keys_len_grows(c.mapping.keys, idx + 1, n);
            lemma_keys_len_grows(c.mapping.keys, 0, idx as int);
            assert(c.entry_wf(idx as int));
            assert forall|j: int| idx + 1 <= j < n implies (#[trigger] c.table[j]).can_shift(
                -(key@.len() + 1),
                -(c.table[idx as int].data_max_len as int),
            ) by {
                assert(c.entry_wf(j));
                lemma_keys_len_grows(c.mapping.keys, idx + 1, j);
                lemma_slots_len_grows(c.table, idx + 1, j);
                lemma_slots_len_grows(c.table, 0, idx as int);
            }
            if idx + 1 < n {
                assert(c.entry_wf(idx + 1));
            }
        }
        let key_len: usize = key.len();
        let short_len: u16 = if key_len <= 0xffff {
            key_len as u16
        } else {
            0
        };
        self.index_table.delete(idx, short_len);
        self.entries_mapping.delete(idx, key);
        let new_padding: u32 = self.calculate_padding();
        self.header.delete_entry(key_len as u32, self.padding as u32, new_padding);
        self.padding = new_padding as usize;
        assert(self@.table =~= old(self)@.without(idx as int).table);
        Ok(())
    }
}

/// An entry of the container: its value and its descriptor.
pub struct SfoEntry<'a> {
    pub data: &'a DataField,
    pub index_table_entry: &'a IndexTableEntry,
}

/// A walk through the entries of a container, from the first on.
pub struct SfoEntryIter<'a> {
    index_table: &'a IndexTable,
    mapping_iter: MappingIter<'a>,
}

impl<'a> SfoEntryIter<'a> {
    /// The number of entries that the walk has passed.
    pub closed spec fn position(&self) -> nat {
        self.mapping_iter.position()
    }

    /// The descriptors that the walk goes through.
    pub closed spec fn table(&self) -> Seq<IndexTableEntry> {
        self.index_table@
    }

    /// The keys and values that the walk goes through.
    pub closed spec fn mapping(&self) -> MappingView {
        self.mapping_iter.source()@
    }

    /// Whether every key that the walk goes through is the catalogue's
    /// own where the catalogue has one of its name.
    pub closed spec fn keys_resolved(&self) -> bool {
        self.mapping_iter.source().keys_resolved()
    }

    /// Whether the walk has an entry left: a key, a value and a
    /// descriptor at its position.
    pub open spec fn has_next(&self) -> bool {
        &&& self.position() < self.mapping().keys.len()
        &&& self.position() < self.mapping().values.len()
        &&& self.position() < self.table().len()
    }

    fn new(index_table: &'a IndexTable, mapping_iter: MappingIter<'a>) -> (it: Self)
        ensures
            it.position() == mapping_iter.position(),
            it.table() == index_table@,
            it.mapping() == mapping_iter.source()@,
            it.keys_resolved() == mapping_iter.source().keys_resolved(),
    {
        Self { index_table, mapping_iter }
    }

    /// The next entry, if one is left: its key, its value and its
    /// descriptor.
    pub fn next(&mut self) -> (r: Option<(&'a Keys, SfoEntry<'a>)>)
        ensures
            final(self).table() == old(self).table(),
            final(self).mapping() == old(self).mapping(),
            final(self).keys_resolved() == old(self).keys_resolved(),
            r is Some <==> old(self).has_next(),
            match r {
                Some((key, entry)) => {
                    let i = old(self).position() as int;
                    &&& old(self).keys_resolved() ==> key.is_resolved()
                    &&& key@ == old(self).mapping().keys[i]
                    &&& entry.data@ == old(self).mapping().values[i]
                    &&& *entry.index_table_entry == old(self).table()[i]
                    &&& final(self).position() == i + 1
                },
                None => final(self).position() == old(self).position(),
            },
    {
        let idx: usize = self.mapping_iter.idx();
        if idx >= self.index_table.entries.len() {
            return None;
        }
        match self.mapping_iter.next() {
            Some((key, data)) => {
                Some((key, SfoEntry { data, index_table_entry: &self.index_table.entries[idx] }))
            },
            None => None,
        }
    }
}

impl Sfo {
    /// Goes through the entries from the first on.
    pub fn iter<'a>(&'a self) -> (it: SfoEntryIter<'a>)
        ensures
            it.position() == 0,
            it.table() == self@.table,
            it.mapping() == self@.mapping,
            it.keys_resolved() == self.keys_resolved(),
    {
        SfoEntryIter::new(&self.index_table, self.entries_mapping.iter())
    }
}

impl Sfo {
    /// Whether the entry at `idx` can take the value `data_field`.
    pub fn can_replace(&self, idx: usize, data_field: &DataField) -> (r: bool)
        requires
            self.wf(),
            idx < self@.len(),
        ensures
            r == self@.can_replace(idx as int, data_field@),
    {
        if !data_field.is_writable() || !data_field.fits() {
            return false;
        }
        let n: usize = self.index_table.entries.len();
        let slot: u64 = data_field.len() as u64;
        let prev: u64 = self.index_table.entries[idx].data_max_len as u64;
        proof {
            let c = self@;
            let delta = slot - prev;
            assert forall|j: int| idx + 1 <= j < n implies {
                &&& 0 <= (#[trigger] c.table[j]).data_offset + delta
                &&& c.table[j].data_offset <= c.table[n - 1].data_offset
            } by {
                assert(c.entry_wf(j));
                assert(c.entry_wf(n - 1));
                lemma_slots_len_grows(c.table, idx + 1, j);
                lemma_slots_len_grows(c.table, 0, idx as int);
                lemma_slots_len_grows(c.table, j, n - 1);
            }
        }
        if idx + 1 < n {
            let last: u64 = self.index_table.entries[n - 1].data_offset as u64;
            let fits: bool = last + slot <= 0xffff_ffff + prev;
            proof {
                if !fits {
                    assert(!self@.table[n - 1].can_shift(0, slot - prev));
                }
            }
            fits
        } else {
            true
        }
    }

    /// Whether an entry with `key` and `data_field` can be put behind the
    /// others.
    pub fn can_append(&self, key: &Keys, data_field: &DataField) -> (r: bool)
        requires
            self.wf(),
        ensures
            r == self@.can_append(key@, data_field@),
    {
        let name: &[u8] = key.as_str().as_bytes();
        proof {
            crate::text::lemma_string_is_utf8(key.text());
        }
        if !data_field.is_writable() || !holds_no_nul(name) || name.len() >= 0xffff
            || !data_field.fits() {
            return false;
        }
        let n: usize = self.index_table.entries.len();
        let total: u64 = self.entries_mapping.keys_len() as u64;
        if total > 0xffff {
            return false;
        }
        proof {
            lemma_slots_len_grows(self@.table, 0, n as int);
            if n > 0 {
                assert(self@.entry_wf(n - 1));
            }
        }
        if n > 0 {
            let last: IndexTableEntry = self.index_table.entries[n - 1];
            if last.data_offset as u64 + last.data_max_len as u64 > 0xffff_ffff {
                return false;
            }
        }
        let keys_end: u64 = total + name.len() as u64 + 1;
        let padding: u64 = (4 - keys_end % 4) % 4;
        proof {
            reveal(padding_for);
        }
        self.header.key_table_start as u64 + 16 + keys_end + padding <= 0xffff_ffff
    }

    /// Whether `add` can be called with `key` and `data_field`.
    pub fn can_add(&self, key: &Keys, data_field: &DataField) -> (r: bool)
        requires
            self.wf(),
        ensures
            r == self@.can_add(key@, data_field@),
    {
        match self.get_idx(key) {
            Ok(idx) => {
                proof {
                    lemma_position_some(self@.mapping.keys, key@);
                }
                self.can_replace(idx, data_field)
            },
            Err(_) => self.can_append(key, data_field),
        }
    }

    /// Whether `edit` can be called with `key` and `data_field`.
    pub fn can_edit(&self, key: &Keys, data_field: &DataField) -> (r: bool)
        requires
            self.wf(),
        ensures
            r == self@.can_edit(key@, data_field@),
    {
        match self.get_idx(key) {
            Ok(idx) => {
                proof {
                    lemma_position_some(self@.mapping.keys, key@);
                }
                self.can_replace(idx, data_field)
            },
            Err(_) => true,
        }
    }
}

impl Sfo {
    /// Whether the container starts with the magic and its parts agree
    /// with one another.
    pub fn is_wf(&self) -> (r: bool)
        ensures
            r == self.wf(),
    {
        if self.magic[0] != UNCONTAINED_PARAM_SFO_MAGIC[0] || self.magic[1]
            != UNCONTAINED_PARAM_SFO_MAGIC[1] || self.magic[2] != UNCONTAINED_PARAM_SFO_MAGIC[2]
            || self.magic[3] != UNCONTAINED_PARAM_SFO_MAGIC[3] {
            assert(self.magic@ != magic_bytes()) by {
                let m = magic_bytes();
                assert(m[0] == 0x00 && m[1] == 0x50 && m[2] == 0x53 && m[3] == 0x46);
            }
            return false;
        }
        assert(self.magic@ =~= magic_bytes());
        let n: usize = self.index_table.entries.len();
        if !self.entries_mapping.is_wf() || self.entries_mapping.len() != n {
            return false;
        }
        if self.header.table_entries as u64 != n as u64 || self.header.key_table_start as u64
            != 20 + 16 * (n as u64) {
            return false;
        }
        let ghost c = self@;
        let mut keys_end: u64 = 0;
        let mut slots_end: u64 = 0;
        let mut i: usize = 0;
        while i < n
            invariant
                c == self@,
                n == c.table.len(),
                n == c.mapping.keys.len(),
                n == c.mapping.values.len(),
                n <= u32::MAX,
                i <= n,
                keys_end == keys_len_upto(c.mapping.keys, i as int),
                slots_end == slots_len_upto(c.table, i as int),
                keys_end <= u32::MAX,
                slots_end <= 0x1_0000_0000 * i,
                forall|j: int| 0 <= j < i ==> #[trigger] c.entry_wf(j),
            decreases n - i,
        {
            let entry: IndexTableEntry = self.index_table.entries[i];
            let key: &[u8] = self.entries_mapping.key(i).as_str().as_bytes();
            if entry.key_offset as u64 != keys_end || entry.data_offset as u64 != slots_end {
                assert(!c.entry_wf(i as int));
                return false;
            }
            if !holds_no_nul(key) {
                assert(!c.entry_wf(i as int));
                return false;
            }
            if self.entries_mapping.value(i).payload_len() as u64 > entry.data_max_len as u64 {
                assert(!c.entry_wf(i as int));
                return false;
            }
            if key.len() as u64 >= 0xffff_ffff - keys_end {
                proof {
                    lemma_keys_len_grows(c.mapping.keys, i + 1, n as int);
                }
                return false;
            }
            assert(c.entry_wf(i as int));
            keys_end = keys_end + key.len() as u64 + 1;
            slots_end = slots_end + entry.data_max_len as u64;
            i = i + 1;
        }
        let padding: u64 = (4 - keys_end % 4) % 4;
        proof {
            reveal(padding_for);
        }
        self.padding as u64 == padding && self.header.data_table_start as u64
            == self.header.key_table_start as u64 + keys_end + padding
    }
}

impl Sfo {
    /// Does what `add` does where the container can hold the entry, and
    /// leaves the container as it is where it cannot.
    pub fn try_add(&mut self, key: Keys, data_field: DataField) -> (r: Result<(), ChangeErr>)
        requires
            old(self).wf(),
        ensures
            final(self).wf(),
            r is Ok <==> old(self)@.can_add(key@, data_field@),
            r is Ok ==> final(self)@ == old(self)@.added(key@, data_field@),
            r is Err ==> r == Err::<(), ChangeErr>(ChangeErr::NotStorable) && *final(self) == *old(
                self,
            ),
            old(self)@.faithful() ==> final(self)@.faithful(),
            old(self).keys_resolved() && key.is_resolved() ==> final(self).keys_resolved(),
    {
        if !self.can_add(&key, &data_field) {
            return Err(ChangeErr::NotStorable);
        }
        self.add(key, data_field);
        Ok(())
    }

    /// Does what `edit` does where the container can hold the value, and
    /// leaves the container as it is where it cannot or where it has no
    /// entry with the key.
    pub fn try_edit(&mut self, key: &Keys, data_field: DataField) -> (r: Result<(), ChangeErr>)
        requires
            old(self).wf(),
        ensures
            final(self).wf(),
            match r {
                Ok(_) => {
                    &&& position_of(old(self)@.mapping.keys, key@) is Some
                    &&& old(self)@.can_edit(key@, data_field@)
                    &&& final(self)@ == old(self)@.edited(key@, data_field@)
                },
                Err(ChangeErr::NotFound) => {
                    &&& position_of(old(self)@.mapping.keys, key@) is None
                    &&& *final(self) == *old(self)
                },
                Err(ChangeErr::NotStorable) => {
                    &&& position_of(old(self)@.mapping.keys, key@) is Some
                    &&& !old(self)@.can_edit(key@, data_field@)
                    &&& *final(self) == *old(self)
                },
            },
            old(self)@.faithful() ==> final(self)@.faithful(),
            final(self).keys_resolved() == old(self).keys_resolved(),
    {
        if !self.can_edit(key, &data_field) {
            return Err(ChangeErr::NotStorable);
        }
        match self.edit(key, data_field) {
            Ok(_) => Ok(()),
            Err(_) => Err(ChangeErr::NotFound),
        }
    }
}

} // verus!
