//! What holds of the container's operations, whatever the container.

use vstd::prelude::*;
use crate::container::{lemma_sfo_of_wf, magic_bytes, sfo_of, SfoView};
use crate::error::{MappingErr, ReadErr, SfoParseErr};
use crate::format::{format_of, Format, FormatErr};
use crate::header::{header_of, lemma_header_read_bytes, Header};
use crate::index_table::{
    entries_of, entry_at, lemma_entries_bytes, lemma_entries_len, slots_len_upto, table_bytes,
    IndexTableEntry,
};
use crate::mapping::{
    is_first_at, key_at, key_table_len, keys_bytes_upto, keys_len, keys_of, layout_ok,
    lemma_keys_len_grows, lemma_padding_for, lemma_position_is, position_of, slot_at,
    slots_bytes_upto, value_of, values_of, DataView,
};
use crate::reading::{
    lemma_key_at_run, lemma_keys_bytes, lemma_keys_of_each, lemma_slot_offsets, lemma_slots_bytes,
    lemma_values_of_each, zero_behind,
};
use crate::sums::{
    lemma_keys_len_prefix, lemma_keys_len_remove, lemma_slots_len_grows, lemma_slots_len_prefix,
    lemma_slots_len_remove, lemma_slots_len_update,
};
use crate::text::lemma_text_end_exists;
use crate::wire::zeros;

verus! {

/// In a well-formed container the header counts as many entries as there
/// are descriptors, keys and values.
pub proof fn lemma_counts_agree(c: SfoView)
    requires
        c.wf(),
    ensures
        c.header.table_entries == c.table.len(),
        c.table.len() == c.mapping.keys.len(),
        c.table.len() == c.mapping.values.len(),
{
}

/// In a well-formed container the key table is as long as its keys and
/// its padding; the padding is at most three bytes and brings the keys
/// up to a multiple of four.
pub proof fn lemma_key_table_span(c: SfoView)
    requires
        c.wf(),
    ensures
        c.header.data_table_start - c.header.key_table_start == keys_len(c.mapping.keys)
            + c.padding,
        0 <= c.padding <= 3,
        (keys_len(c.mapping.keys) + c.padding) % 4 == 0,
{
    lemma_keys_len_grows(c.mapping.keys, 0, c.mapping.keys.len() as int);
    lemma_padding_for(keys_len(c.mapping.keys));
}

/// A well-formed container stays well-formed when an entry is put behind
/// the others; its keys take the new key's bytes more.
pub proof fn lemma_appended_wf(c: SfoView, key: Seq<u8>, value: DataView)
    requires
        c.wf(),
        c.can_append(key, value),
    ensures
        c.appended(key, value).wf(),
        c.appended(key, value).len() == c.len() + 1,
        keys_len(c.appended(key, value).mapping.keys) == keys_len(c.mapping.keys) + key.len() + 1,
        0 <= keys_len(c.mapping.keys),
        0 <= c.padding <= 3,
        0 <= c.appended(key, value).padding <= 3,
{
    let d = c.appended(key, value);
    let n = c.len() as int;
    let keys = c.mapping.keys;
    let total = keys_len(keys);
    assert(d.table.len() == n + 1);
    lemma_keys_len_prefix(d.mapping.keys, keys, n);
    lemma_slots_len_grows(c.table, 0, n);
    lemma_keys_len_grows(keys, 0, n);
    lemma_padding_for(total);
    lemma_padding_for(total + key.len() + 1);
    assert(keys_len(d.mapping.keys) == total + key.len() + 1);
    assert forall|i: int| 0 <= i < n + 1 implies #[trigger] d.entry_wf(i) by {
        if i < n {
            assert(c.entry_wf(i));
            assert(d.table[i] == c.table[i]);
            assert(d.mapping.values[i] == c.mapping.values[i]);
            assert(d.mapping.keys[i] == keys[i]);
            lemma_keys_len_prefix(d.mapping.keys, keys, i);
            lemma_slots_len_prefix(d.table, c.table, i);
        } else {
            lemma_slots_len_prefix(d.table, c.table, n);
            if n > 0 {
                assert(c.entry_wf(n - 1));
            }
        }
    }
}

/// A well-formed container stays well-formed when an entry gets another
/// value, and keeps its keys, its header and its padding.
pub proof fn lemma_replaced_wf(c: SfoView, idx: int, value: DataView)
    requires
        c.wf(),
        0 <= idx < c.len(),
        c.can_replace(idx, value),
    ensures
        c.replaced(idx, value).wf(),
        c.replaced(idx, value).len() == c.len(),
{
    let d = c.replaced(idx, value);
    let n = c.len() as int;
    assert(d.table.len() == n);
    assert forall|i: int| 0 <= i < n implies #[trigger] d.entry_wf(i) by {
        assert(c.entry_wf(i));
        assert(d.table[i].key_offset == c.table[i].key_offset);
        if i <= idx {
            lemma_slots_len_prefix(d.table, c.table, i);
        } else {
            assert(c.table[i].can_shift(0, value.slot_len() - c.table[idx].data_max_len));
            lemma_slots_len_update(c.table, d.table, idx, i);
        }
        if i != idx {
            assert(d.mapping.values[i] == c.mapping.values[i]);
            assert(d.table[i].data_max_len == c.table[i].data_max_len);
        }
    }
}

/// A well-formed container stays well-formed when an entry goes out;
/// its keys take that entry's key less.
pub proof fn lemma_without_wf(c: SfoView, idx: int)
    requires
        c.wf(),
        0 <= idx < c.len(),
    ensures
        c.without(idx).wf(),
        c.without(idx).len() == c.len() - 1,
        keys_len(c.without(idx).mapping.keys) == keys_len(c.mapping.keys)
            - c.mapping.keys[idx].len() - 1,
        0 <= keys_len(c.without(idx).mapping.keys),
        0 <= c.padding <= 3,
        0 <= c.without(idx).padding <= 3,
{
    let d = c.without(idx);
    let n = c.len() as int;
    let keys = c.mapping.keys;
    let key_len = keys[idx].len() as int + 1;
    assert(d.table.len() == n - 1);
    lemma_keys_len_remove(keys, idx, n - 1);
    lemma_keys_len_grows(keys, idx + 1, n);
    lemma_keys_len_grows(keys, 0, idx);
    lemma_keys_len_grows(keys, 0, n);
    lemma_padding_for(keys_len(keys));
    lemma_padding_for(keys_len(keys) - key_len);
    assert(keys_len(d.mapping.keys) == keys_len(keys) - key_len);
    assert(c.entry_wf(idx));
    assert forall|i: int| 0 <= i < n - 1 implies #[trigger] d.entry_wf(i) by {
        if i < idx {
            assert(c.entry_wf(i));
            assert(d.table[i] == c.table[i]);
            assert(d.mapping.values[i] == c.mapping.values[i]);
            assert(d.mapping.keys[i] == keys[i]);
            lemma_keys_len_prefix(d.mapping.keys, keys, i);
            lemma_slots_len_prefix(d.table, c.table, i);
        } else {
            assert(c.entry_wf(i + 1));
            assert(d.mapping.values[i] == c.mapping.values[i + 1]);
            assert(d.mapping.keys[i] == keys[i + 1]);
            assert(d.table[i].data_max_len == c.table[i + 1].data_max_len);
            lemma_keys_len_remove(keys, idx, i);
            lemma_keys_len_grows(keys, idx + 1, i + 1);
            lemma_slots_len_remove(c.table, d.table, idx, i);
            lemma_slots_len_grows(c.table, idx + 1, i + 1);
            lemma_slots_len_grows(c.table, 0, idx);
        }
    }
}

/// Deleting a key that was just added, and was not there before, gives
/// back the container as it was, and so the image as it was.
pub proof fn lemma_delete_undoes_add(c: SfoView, key: Seq<u8>, value: DataView)
    requires
        c.wf(),
        position_of(c.mapping.keys, key) is None,
        c.can_add(key, value),
    ensures
        c.added(key, value).deleted(key) == c,
        c.added(key, value).deleted(key).image() == c.image(),
{
    let n = c.len() as int;
    let d = c.appended(key, value);
    lemma_appended_last(c, key, value);
    let e = d.without(n);
    lemma_append_then_remove(c, key, value);
}

/// The entry that was put behind the others is the first with its key,
/// where the key was not there before.
proof fn lemma_appended_last(c: SfoView, key: Seq<u8>, value: DataView)
    requires
        c.wf(),
        position_of(c.mapping.keys, key) is None,
    ensures
        position_of(c.appended(key, value).mapping.keys, key) == Some(c.len() as int),
{
    let n = c.len() as int;
    let keys = c.appended(key, value).mapping.keys;
    assert forall|j: int| 0 <= j < n implies keys[j] != key by {
        if c.mapping.keys[j] == key {
            lemma_found_has_position(c.mapping.keys, key, j);
        }
    }
    assert(is_first_at(keys, key, n));
    lemma_position_is(keys, key, n);
}

/// Taking out the entry that was put behind the others gives back the
/// container as it was.
proof fn lemma_append_then_remove(c: SfoView, key: Seq<u8>, value: DataView)
    requires
        c.wf(),
        c.can_append(key, value),
    ensures
        c.appended(key, value).without(c.len() as int) == c,
{
    let n = c.len() as int;
    let d = c.appended(key, value);
    let e = d.without(n);
    let total = keys_len(c.mapping.keys);
    let key_len = key.len() as int + 1;
    lemma_keys_len_prefix(d.mapping.keys, c.mapping.keys, n);
    lemma_keys_len_grows(c.mapping.keys, 0, n);
    lemma_padding_for(total);
    lemma_padding_for(total + key_len);
    assert(keys_len(d.mapping.keys) == total + key_len);
    assert(d.mapping.keys[n] == key);
    assert(e.padding == c.padding);
    assert(e.header == c.header) by {
        crate::header::lemma_header_entry_in_and_out(
            c.header,
            key_len,
            c.padding as int,
            d.padding as int,
        );
    }
    assert(e.mapping.keys =~= c.mapping.keys);
    assert(e.mapping.values =~= c.mapping.values);
    assert(e.table =~= c.table);
}

/// A key that stands somewhere has a first position.
pub proof fn lemma_found_has_position(keys: Seq<Seq<u8>>, key: Seq<u8>, j: int)
    requires
        0 <= j < keys.len(),
        keys[j] == key,
    ensures
        position_of(keys, key) is Some,
    decreases j,
{
    if exists|i: int| 0 <= i < j && keys[i] == key {
        let i = choose|i: int| 0 <= i < j && keys[i] == key;
        lemma_found_has_position(keys, key, i);
    } else {
        assert(is_first_at(keys, key, j));
    }
}

/// Editing a key that is not there changes nothing.
pub proof fn lemma_edit_of_absent_key(c: SfoView, key: Seq<u8>, value: DataView)
    requires
        position_of(c.mapping.keys, key) is None,
    ensures
        c.edited(key, value) == c,
        c.edited(key, value).image() == c.image(),
{
}

/// Whether the image `s` holds a container and nothing besides: it can
/// be read, it ends with its last slot, its padding is zero, and every
/// slot holds zeros behind its value.
pub open spec fn is_tidy(s: Seq<u8>) -> bool {
    &&& sfo_of(s) is Ok
    &&& {
        let c = sfo_of(s)->Ok_0;
        let keys_start = c.header.key_table_start as int;
        let data_start = c.header.data_table_start as int;
        &&& s.len() == data_start + slots_len_upto(c.table, c.len() as int)
        &&& zero_behind(s.subrange(keys_start, data_start), keys_len(c.mapping.keys))
        &&& forall|i: int|
            0 <= i < c.len() ==> zero_behind(
                #[trigger] s.subrange(
                    data_start + c.table[i].data_offset,
                    data_start + c.table[i].data_offset + c.table[i].data_max_len,
                ),
                c.mapping.values[i].payload().len() as int,
            )
    }
}

/// What it means that an image was read: each part of the container is
/// what the matching part of the image holds.
pub proof fn lemma_sfo_of_parts(s: Seq<u8>)
    requires
        sfo_of(s) is Ok,
    ensures
        ({
            let c = sfo_of(s)->Ok_0;
            let keys_start = c.header.key_table_start as int;
            let rest = s.subrange(keys_start, s.len() as int);
            &&& 20 <= keys_start <= s.len()
            &&& keys_start == 20 + 16 * c.table.len()
            &&& s.subrange(0, 4) == magic_bytes()
            &&& header_of(s.subrange(4, s.len() as int)) == Ok::<Header, ReadErr>(c.header)
            &&& entries_of(s.subrange(20, s.len() as int), c.header.table_entries as nat) == Ok::<
                Seq<IndexTableEntry>,
                ReadErr,
            >(c.table)
            &&& layout_ok(c.table, c.header)
            &&& keys_of(rest, c.table, c.header, c.table.len()) == Ok::<Seq<Seq<u8>>, MappingErr>(
                c.mapping.keys,
            )
            &&& values_of(rest, c.table, c.header, c.table.len()) == Ok::<
                Seq<DataView>,
                MappingErr,
            >(c.mapping.values)
        }),
{
    let c = sfo_of(s)->Ok_0;
    lemma_entries_len(s.subrange(20, s.len() as int), c.header.table_entries as nat);
}

/// An image that was read starts with what the container's magic,
/// header and descriptors are written as.
pub proof fn lemma_image_head(s: Seq<u8>)
    requires
        sfo_of(s) is Ok,
    ensures
        ({
            let c = sfo_of(s)->Ok_0;
            let keys_start = c.header.key_table_start as int;
            &&& 20 <= keys_start <= s.len()
            &&& magic_bytes() + c.header.bytes() + table_bytes(c.table) == s.subrange(
                0,
                keys_start,
            )
        }),
{
    let c = sfo_of(s)->Ok_0;
    let keys_start = c.header.key_table_start as int;
    lemma_sfo_of_parts(s);
    let after_magic = s.subrange(4, s.len() as int);
    let after_header = s.subrange(20, s.len() as int);
    lemma_header_read_bytes(after_magic);
    lemma_entries_bytes(after_header, c.header.table_entries as nat);
    lemma_entries_len(after_header, c.header.table_entries as nat);
    lemma_tail_prefix(s, 4, 20);
    lemma_tail_prefix(s, 20, keys_start);
    lemma_three_parts(s, 4, 20, keys_start);
}

/// The start of what stands behind a place is what stands between the
/// place and a later one.
proof fn lemma_tail_prefix(s: Seq<u8>, from: int, to: int)
    requires
        0 <= from <= to <= s.len(),
    ensures
        s.subrange(from, s.len() as int).subrange(0, to - from) == s.subrange(from, to),
{
    assert(s.subrange(from, s.len() as int).subrange(0, to - from) =~= s.subrange(from, to));
}

/// The start of a sequence is its first three parts, one after the
/// other.
proof fn lemma_three_parts(s: Seq<u8>, first: int, second: int, third: int)
    requires
        0 <= first <= second <= third <= s.len(),
    ensures
        s.subrange(0, first) + s.subrange(first, second) + s.subrange(second, third) == s.subrange(0, third),
{
    assert(s.subrange(0, first) + s.subrange(first, second) + s.subrange(second, third) =~= s.subrange(0, third));
}

/// The key table of an image that was read starts with what the
/// container's keys are written as, and ends where the header says.
pub proof fn lemma_image_keys(s: Seq<u8>)
    requires
        sfo_of(s) is Ok,
    ensures
        ({
            let c = sfo_of(s)->Ok_0;
            let keys_start = c.header.key_table_start as int;
            let data_start = c.header.data_table_start as int;
            let total = keys_len(c.mapping.keys);
            &&& 0 <= total
            &&& keys_start + total + c.padding == data_start
            &&& data_start <= s.len()
            &&& keys_bytes_upto(c.mapping.keys, c.len() as int) == s.subrange(
                keys_start,
                keys_start + total,
            )
        }),
{
    let c = sfo_of(s)->Ok_0;
    let n = c.len() as int;
    let keys_start = c.header.key_table_start as int;
    let total = keys_len(c.mapping.keys);
    let rest = s.subrange(keys_start, s.len() as int);
    lemma_sfo_of_parts(s);
    lemma_sfo_of_wf(s);
    lemma_keys_bytes(rest, c.table, c.header, c.mapping.keys, n);
    assert(rest.subrange(0, total) =~= s.subrange(keys_start, keys_start + total));
    if n > 0 {
        lemma_keys_of_each(rest, c.table, c.header, c.table.len());
        assert(crate::mapping::key_at(rest, c.table, c.header, n - 1) == Ok::<Seq<u8>, ReadErr>(
            c.mapping.keys[n - 1],
        ));
        lemma_key_at_run(rest, c.table, c.header, n - 1);
    }
}

/// The value table of a tidy image is what the container's slots are
/// written as.
pub proof fn lemma_image_slots(s: Seq<u8>)
    requires
        is_tidy(s),
    ensures
        ({
            let c = sfo_of(s)->Ok_0;
            let data_start = c.header.data_table_start as int;
            &&& data_start <= s.len()
            &&& slots_bytes_upto(c.mapping.values, c.table, c.len() as int) == s.subrange(
                data_start,
                s.len() as int,
            )
        }),
{
    let c = sfo_of(s)->Ok_0;
    let n = c.len() as int;
    let keys_start = c.header.key_table_start as int;
    let data_start = c.header.data_table_start as int;
    let rest = s.subrange(keys_start, s.len() as int);
    let k = key_table_len(c.header);
    lemma_sfo_of_parts(s);
    lemma_image_keys(s);
    lemma_slots_len_grows(c.table, 0, n);
    assert forall|i: int| 0 <= i < n implies zero_behind(
        #[trigger] rest.subrange(
            k + c.table[i].data_offset,
            k + c.table[i].data_offset + c.table[i].data_max_len,
        ),
        c.mapping.values[i].payload().len() as int,
    ) by {
        lemma_slot_offsets(c.table, c.header, i);
        lemma_slots_len_grows(c.table, i + 1, n);
        lemma_slots_len_grows(c.table, 0, i);
        let from = data_start + c.table[i].data_offset;
        let slot = s.subrange(from, from + c.table[i].data_max_len);
        assert(zero_behind(slot, c.mapping.values[i].payload().len() as int));
        assert(rest.subrange(
            k + c.table[i].data_offset,
            k + c.table[i].data_offset + c.table[i].data_max_len,
        ) =~= slot);
    }
    lemma_slots_bytes(rest, c.table, c.header, c.mapping.values, n);
    assert(rest.subrange(k, k + slots_len_upto(c.table, n)) =~= s.subrange(
        data_start,
        s.len() as int,
    ));
}

/// Bytes that are zero behind the first `used` of them end with as many
/// zeros as are left.
proof fn lemma_zero_tail(s: Seq<u8>, from: int, to: int, used: int)
    requires
        0 <= from <= to <= s.len(),
        0 <= used <= to - from,
        zero_behind(s.subrange(from, to), used),
    ensures
        zeros((to - from - used) as nat) == s.subrange(from + used, to),
{
    let part = s.subrange(from, to);
    let tail = s.subrange(from + used, to);
    assert forall|j: int| 0 <= j < to - from - used implies #[trigger] tail[j] == 0 by {
        assert(part[used + j] == 0);
    }
    assert(zeros((to - from - used) as nat) =~= tail);
}

/// The padding of a tidy image is what the container's padding is
/// written as.
pub proof fn lemma_image_padding(s: Seq<u8>)
    requires
        is_tidy(s),
    ensures
        ({
            let c = sfo_of(s)->Ok_0;
            let keys_start = c.header.key_table_start as int;
            let data_start = c.header.data_table_start as int;
            zeros(c.padding) == s.subrange(keys_start + keys_len(c.mapping.keys), data_start)
        }),
{
    let c = sfo_of(s)->Ok_0;
    let keys_start = c.header.key_table_start as int;
    let data_start = c.header.data_table_start as int;
    lemma_image_head(s);
    lemma_image_keys(s);
    lemma_zero_tail(s, keys_start, data_start, keys_len(c.mapping.keys));
}

/// A sequence is its four parts, one after the other.
proof fn lemma_four_parts(s: Seq<u8>, first: int, second: int, third: int)
    requires
        0 <= first <= second <= third <= s.len(),
    ensures
        s.subrange(0, first) + s.subrange(first, second) + s.subrange(second, third) + s.subrange(
            third,
            s.len() as int,
        ) == s,
{
    assert(s.subrange(0, first) + s.subrange(first, second) + s.subrange(second, third) + s.subrange(
        third,
        s.len() as int,
    ) =~= s);
}

/// Reading a tidy image and writing the container out again gives the
/// image back, byte for byte.
pub proof fn lemma_parse_export_round_trip(s: Seq<u8>)
    requires
        is_tidy(s),
    ensures
        sfo_of(s)->Ok_0.image() == s,
{
    let c = sfo_of(s)->Ok_0;
    let keys_start = c.header.key_table_start as int;
    let data_start = c.header.data_table_start as int;
    let total = keys_len(c.mapping.keys);
    lemma_image_head(s);
    lemma_image_keys(s);
    lemma_image_padding(s);
    lemma_image_slots(s);
    lemma_four_parts(s, keys_start, keys_start + total, data_start);
}

/// A container that was read from an image is faithful: written out and
/// read again, it would be the same.
pub proof fn lemma_sfo_of_faithful(s: Seq<u8>)
    requires
        sfo_of(s) is Ok,
    ensures
        sfo_of(s)->Ok_0.faithful(),
{
    let c = sfo_of(s)->Ok_0;
    let rest = s.subrange(c.header.key_table_start as int, s.len() as int);
    let k = key_table_len(c.header);
    lemma_sfo_of_parts(s);
    lemma_keys_of_each(rest, c.table, c.header, c.table.len());
    lemma_values_of_each(rest, c.table, c.header, c.table.len());
    assert forall|i: int| 0 <= i < c.len() implies #[trigger] c.entry_faithful(i) by {
        assert(key_at(rest, c.table, c.header, i) == Ok::<Seq<u8>, ReadErr>(c.mapping.keys[i]));
        assert(slot_at(rest, c.table, c.header, i) == Ok::<DataView, ReadErr>(
            c.mapping.values[i],
        ));
        let from = k + c.table[i].data_offset;
        let slot = rest.subrange(from, from + c.table[i].data_max_len);
        lemma_slot_offsets(c.table, c.header, i);
        lemma_slots_len_grows(c.table, 0, i);
        lemma_text_end_exists(slot);
        assert(value_of(c.table[i].data_format, slot) == Ok::<DataView, ReadErr>(
            c.mapping.values[i],
        ));
    }
}

/// A faithful container stays faithful when an entry is put behind the
/// others.
pub proof fn lemma_appended_faithful(c: SfoView, key: Seq<u8>, value: DataView)
    requires
        c.wf(),
        c.faithful(),
        c.can_append(key, value),
    ensures
        c.appended(key, value).faithful(),
{
    let d = c.appended(key, value);
    let n = c.len() as int;
    assert forall|i: int| 0 <= i < d.len() implies #[trigger] d.entry_faithful(i) by {
        if i < n {
            assert(c.entry_faithful(i));
            assert(d.mapping.keys[i] == c.mapping.keys[i]);
            assert(d.mapping.values[i] == c.mapping.values[i]);
            assert(d.table[i] == c.table[i]);
        }
    }
}

/// A faithful container stays faithful when an entry gets another value.
pub proof fn lemma_replaced_faithful(c: SfoView, idx: int, value: DataView)
    requires
        c.wf(),
        c.faithful(),
        0 <= idx < c.len(),
        c.can_replace(idx, value),
    ensures
        c.replaced(idx, value).faithful(),
{
    let d = c.replaced(idx, value);
    assert forall|i: int| 0 <= i < d.len() implies #[trigger] d.entry_faithful(i) by {
        assert(c.entry_faithful(i));
        if i != idx {
            assert(d.mapping.values[i] == c.mapping.values[i]);
            assert(d.table[i].data_format == c.table[i].data_format);
            assert(d.table[i].data_max_len == c.table[i].data_max_len);
        }
    }
}

/// A faithful container stays faithful when an entry goes out.
pub proof fn lemma_without_faithful(c: SfoView, idx: int)
    requires
        c.wf(),
        c.faithful(),
        0 <= idx < c.len(),
    ensures
        c.without(idx).faithful(),
{
    let d = c.without(idx);
    assert forall|i: int| 0 <= i < d.len() implies #[trigger] d.entry_faithful(i) by {
        let j = if i < idx { i } else { i + 1 };
        assert(c.entry_faithful(j));
        assert(d.mapping.keys[i] == c.mapping.keys[j]);
        assert(d.mapping.values[i] == c.mapping.values[j]);
        assert(d.table[i].data_format == c.table[j].data_format);
        assert(d.table[i].data_max_len == c.table[j].data_max_len);
    }
}

/// An image that was read and is written out unchanged is tidy.
pub proof fn lemma_round_trip_needs_tidy(s: Seq<u8>)
    requires
        sfo_of(s) is Ok,
        sfo_of(s)->Ok_0.image() == s,
    ensures
        is_tidy(s),
{
    let c = sfo_of(s)->Ok_0;
    let keys_start = c.header.key_table_start as int;
    let data_start = c.header.data_table_start as int;
    let total = keys_len(c.mapping.keys);
    lemma_sfo_of_wf(s);
    crate::reread::lemma_image_parts(c);
    assert(zero_behind(s.subrange(keys_start, data_start), total)) by {
        let part = s.subrange(keys_start, data_start);
        let tail = s.subrange(keys_start + total, data_start);
        assert forall|j: int| total <= j < part.len() implies part[j] == 0 by {
            assert(part[j] == tail[j - total]);
        }
    }
    assert forall|i: int| 0 <= i < c.len() implies zero_behind(
        #[trigger] s.subrange(
            data_start + c.table[i].data_offset,
            data_start + c.table[i].data_offset + c.table[i].data_max_len,
        ),
        c.mapping.values[i].payload().len() as int,
    ) by {
        crate::reread::lemma_written_slot(c, i);
    }
}

/// An image that can be read is written out unchanged exactly where it
/// is tidy.
pub proof fn lemma_round_trip_iff_tidy(s: Seq<u8>)
    requires
        sfo_of(s) is Ok,
    ensures
        is_tidy(s) <==> sfo_of(s)->Ok_0.image() == s,
{
    if is_tidy(s) {
        lemma_parse_export_round_trip(s);
    }
    if sfo_of(s)->Ok_0.image() == s {
        lemma_round_trip_needs_tidy(s);
    }
}

/// The image of a well-formed, faithful container is tidy: whatever this
/// library writes, it reads back and writes again unchanged.
pub proof fn lemma_image_is_tidy(c: SfoView)
    requires
        c.wf(),
        c.faithful(),
    ensures
        is_tidy(c.image()),
        sfo_of(c.image())->Ok_0.image() == c.image(),
{
    crate::reread::lemma_export_parse_round_trip(c);
    lemma_round_trip_needs_tidy(c.image());
}

/// Two bytes of which the first is not the marker are no format tag,
/// whatever the second is.
pub proof fn lemma_bad_marker(marker: u8, code: u8)
    requires
        marker != 0x04,
    ensures
        format_of(marker, code) == Err::<Format, FormatErr>(FormatErr::BadTag(marker)),
{
}

/// A descriptor whose format tag does not start with the marker is
/// refused for that, whatever else it holds and even where it is cut
/// short behind the tag.
pub proof fn lemma_bad_marker_in_descriptor(s: Seq<u8>, at: int)
    requires
        0 <= at,
        at + 4 <= s.len(),
        s[at + 2] != 0x04,
    ensures
        entry_at(s, at) == Err::<IndexTableEntry, ReadErr>(ReadErr::BadFormatTag(s[at + 2])),
{
}

/// An image whose first descriptor has a format tag that does not start
/// with the marker is refused for that.
pub proof fn lemma_bad_marker_in_image(s: Seq<u8>)
    requires
        s.len() >= 24,
        s.subrange(0, 4) == magic_bytes(),
        header_of(s.subrange(4, s.len() as int))->Ok_0.table_entries >= 1,
        s[22] != 0x04,
    ensures
        sfo_of(s) == Err::<SfoView, SfoParseErr>(
            SfoParseErr::IndexTableReadErr(ReadErr::BadFormatTag(s[22])),
        ),
{
    let rest = s.subrange(20, s.len() as int);
    let count = header_of(s.subrange(4, s.len() as int))->Ok_0.table_entries as nat;
    assert(rest[2] == s[22]);
    lemma_bad_marker_in_descriptor(rest, 0);
    assert(entries_of(rest, 1) == Err::<Seq<IndexTableEntry>, ReadErr>(
        ReadErr::BadFormatTag(s[22]),
    )) by {
        assert(entries_of(rest, 0) is Ok);
    }
    crate::index_table::lemma_entries_err_stays(rest, 1, count);
}

} // verus!
