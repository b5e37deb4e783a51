//! What follows from keys and values having been read: how they agree
//! with the layout, and which bytes they are written as.

use vstd::prelude::*;
use crate::error::{MappingErr, ReadErr};
use crate::format::Format;
use crate::header::Header;
use crate::index_table::{slots_len_upto, IndexTableEntry};
use crate::mapping::{
    follows_on, key_at, key_run_end, key_table_len, keys_bytes_upto, keys_len, keys_len_upto,
    keys_of, layout_ok, lemma_keys_len_grows, lemma_padding_is, padding_for, slack_allowed,
    slot_at, slots_bytes_upto, value_of, values_of, DataView,
};
use crate::text::{has_no_nul, lemma_text_end_exists, text_of};

verus! {

/// Keys that were read are as many as were asked for, and each is what
/// stands at its place.
pub proof fn lemma_keys_of_each(
    s: Seq<u8>,
    table: Seq<IndexTableEntry>,
    header: Header,
    n: nat,
)
    requires
        keys_of(s, table, header, n) is Ok,
    ensures
        keys_of(s, table, header, n)->Ok_0.len() == n,
        forall|i: int|
            0 <= i < n ==> key_at(s, table, header, i) == Ok::<Seq<u8>, ReadErr>(
                #[trigger] keys_of(s, table, header, n)->Ok_0[i],
            ),
    decreases n,
{
    if n > 0 {
        lemma_keys_of_each(s, table, header, (n - 1) as nat);
    }
}

/// Values that were read are as many as were asked for, and each is what
/// stands in its slot.
pub proof fn lemma_values_of_each(
    s: Seq<u8>,
    table: Seq<IndexTableEntry>,
    header: Header,
    n: nat,
)
    requires
        values_of(s, table, header, n) is Ok,
    ensures
        values_of(s, table, header, n)->Ok_0.len() == n,
        forall|i: int|
            0 <= i < n ==> slot_at(s, table, header, i) == Ok::<DataView, ReadErr>(
                #[trigger] values_of(s, table, header, n)->Ok_0[i],
            ),
    decreases n,
{
    if n > 0 {
        lemma_values_of_each(s, table, header, (n - 1) as nat);
    }
}

/// A key that was read has no zero byte, and its run holds it, its
/// terminating zero, and no more than the slack allowed.
pub proof fn lemma_key_at_run(s: Seq<u8>, table: Seq<IndexTableEntry>, header: Header, i: int)
    requires
        0 <= i < table.len(),
        layout_ok(table, header),
        key_at(s, table, header, i) is Ok,
    ensures
        has_no_nul(key_at(s, table, header, i)->Ok_0),
        table[i].key_offset < key_run_end(table, header, i) <= s.len(),
        ({
            let key = key_at(s, table, header, i)->Ok_0;
            let run_len = key_run_end(table, header, i) - table[i].key_offset;
            key.len() + 1 <= run_len <= key.len() + 1 + slack_allowed(table, i)
        }),
        ({
            let key = key_at(s, table, header, i)->Ok_0;
            let start = table[i].key_offset as int;
            s.subrange(start, start + key.len() + 1) == key + seq![0u8]
        }),
{
    let start = table[i].key_offset as int;
    let end = key_run_end(table, header, i);
    if i + 1 < table.len() {
        assert(follows_on(table, i));
    }
    let run = s.subrange(start, end);
    lemma_text_end_exists(run);
    let key = text_of(run);
    assert(s.subrange(start, start + key.len() + 1) =~= key + seq![0u8]);
}

/// Keys that were read start where the keys before them end.
pub proof fn lemma_key_offsets(
    s: Seq<u8>,
    table: Seq<IndexTableEntry>,
    header: Header,
    keys: Seq<Seq<u8>>,
    i: int,
)
    requires
        layout_ok(table, header),
        keys_of(s, table, header, table.len()) == Ok::<Seq<Seq<u8>>, MappingErr>(keys),
        0 <= i < table.len(),
    ensures
        table[i].key_offset == keys_len_upto(keys, i),
    decreases i,
{
    lemma_keys_of_each(s, table, header, table.len());
    if i > 0 {
        lemma_key_offsets(s, table, header, keys, i - 1);
        assert(key_at(s, table, header, i - 1) == Ok::<Seq<u8>, ReadErr>(keys[i - 1]));
        lemma_key_at_run(s, table, header, i - 1);
    }
}

/// Slots that follow on one another start where the slots before them
/// end.
pub proof fn lemma_slot_offsets(table: Seq<IndexTableEntry>, header: Header, i: int)
    requires
        layout_ok(table, header),
        0 <= i < table.len(),
    ensures
        table[i].data_offset == slots_len_upto(table, i),
    decreases i,
{
    if i > 0 {
        lemma_slot_offsets(table, header, i - 1);
        assert(follows_on(table, i - 1));
    }
}

/// A value that was read has room in the slot it was read from.
pub proof fn lemma_value_of_fits(format: Format, slot: Seq<u8>)
    requires
        value_of(format, slot) is Ok,
    ensures
        value_of(format, slot)->Ok_0.payload().len() <= slot.len(),
{
    lemma_text_end_exists(slot);
}

/// The key table that was read ends with as much padding as brings the
/// keys up to a multiple of four bytes.
pub proof fn lemma_key_table_padded(
    s: Seq<u8>,
    table: Seq<IndexTableEntry>,
    header: Header,
    keys: Seq<Seq<u8>>,
)
    requires
        layout_ok(table, header),
        keys_of(s, table, header, table.len()) == Ok::<Seq<Seq<u8>>, MappingErr>(keys),
    ensures
        keys.len() == table.len(),
        key_table_len(header) == keys_len(keys) + padding_for(keys_len(keys)),
{
    let n = table.len() as int;
    lemma_keys_of_each(s, table, header, table.len());
    if n > 0 {
        lemma_key_offsets(s, table, header, keys, n - 1);
        assert(key_at(s, table, header, n - 1) == Ok::<Seq<u8>, ReadErr>(keys[n - 1]));
        lemma_key_at_run(s, table, header, n - 1);
        let total = keys_len(keys);
        let k = key_table_len(header);
        assert(total == keys_len_upto(keys, n - 1) + keys[n - 1].len() + 1);
        assert(total <= k <= total + 3);
        lemma_keys_len_grows(keys, 0, n);
        lemma_padding_is(total, k - total);
    } else {
        lemma_padding_is(0, 0);
    }
}

/// Values that were read have room in their slots.
pub proof fn lemma_values_fit(
    s: Seq<u8>,
    table: Seq<IndexTableEntry>,
    header: Header,
    values: Seq<DataView>,
    i: int,
)
    requires
        layout_ok(table, header),
        values_of(s, table, header, table.len()) == Ok::<Seq<DataView>, MappingErr>(values),
        0 <= i < table.len(),
    ensures
        values.len() == table.len(),
        values[i].payload().len() <= table[i].data_max_len,
{
    lemma_values_of_each(s, table, header, table.len());
    assert(slot_at(s, table, header, i) == Ok::<DataView, ReadErr>(values[i]));
    let start = key_table_len(header) + table[i].data_offset;
    lemma_value_of_fits(table[i].data_format, s.subrange(start, start + table[i].data_max_len));
}

/// Keys that were read hold no zero byte.
pub proof fn lemma_keys_have_no_nul(
    s: Seq<u8>,
    table: Seq<IndexTableEntry>,
    header: Header,
    keys: Seq<Seq<u8>>,
    i: int,
)
    requires
        layout_ok(table, header),
        keys_of(s, table, header, table.len()) == Ok::<Seq<Seq<u8>>, MappingErr>(keys),
        0 <= i < table.len(),
    ensures
        has_no_nul(keys[i]),
{
    lemma_keys_of_each(s, table, header, table.len());
    assert(key_at(s, table, header, i) == Ok::<Seq<u8>, ReadErr>(keys[i]));
    lemma_key_at_run(s, table, header, i);
}

/// Whether the slot holds zeros behind the first `used` bytes.
pub open spec fn zero_behind(slot: Seq<u8>, used: int) -> bool {
    forall|j: int| used <= j < slot.len() ==> slot[j] == 0
}

/// A value that was read from a slot which holds zeros behind it is
/// written as that slot.
pub proof fn lemma_value_of_slot(format: Format, slot: Seq<u8>)
    requires
        value_of(format, slot) is Ok,
        zero_behind(slot, value_of(format, slot)->Ok_0.payload().len() as int),
    ensures
        value_of(format, slot)->Ok_0.slot(slot.len()) == slot,
{
    let v = value_of(format, slot)->Ok_0;
    lemma_text_end_exists(slot);
    match format {
        Format::U32 => {
            crate::wire::lemma_u32_read_bytes(slot.subrange(0, 4));
        },
        _ => {},
    }
    assert(v.slot(slot.len()) =~= slot);
}

/// Keys that were read are written as the start of the key table they
/// were read from.
pub proof fn lemma_keys_bytes(
    s: Seq<u8>,
    table: Seq<IndexTableEntry>,
    header: Header,
    keys: Seq<Seq<u8>>,
    i: int,
)
    requires
        layout_ok(table, header),
        keys_of(s, table, header, table.len()) == Ok::<Seq<Seq<u8>>, MappingErr>(keys),
        0 <= i <= table.len(),
    ensures
        0 <= keys_len_upto(keys, i) <= s.len(),
        keys_bytes_upto(keys, i) == s.subrange(0, keys_len_upto(keys, i)),
    decreases i,
{
    lemma_keys_of_each(s, table, header, table.len());
    if i == 0 {
        assert(keys_bytes_upto(keys, i) =~= s.subrange(0, 0));
    } else {
        lemma_keys_bytes(s, table, header, keys, i - 1);
        lemma_key_offsets(s, table, header, keys, i - 1);
        assert(key_at(s, table, header, i - 1) == Ok::<Seq<u8>, ReadErr>(keys[i - 1]));
        lemma_key_at_run(s, table, header, i - 1);
        let a = keys_len_upto(keys, i - 1);
        let b = keys_len_upto(keys, i);
        assert(s.subrange(0, a) + s.subrange(a, b) =~= s.subrange(0, b));
    }
}

/// Values that were read from slots which hold zeros behind them are
/// written as the start of the value table they were read from.
pub proof fn lemma_slots_bytes(
    s: Seq<u8>,
    table: Seq<IndexTableEntry>,
    header: Header,
    values: Seq<DataView>,
    i: int,
)
    requires
        layout_ok(table, header),
        values_of(s, table, header, table.len()) == Ok::<Seq<DataView>, MappingErr>(values),
        0 <= i <= table.len(),
        key_table_len(header) <= s.len(),
        forall|k: int|
            0 <= k < table.len() ==> zero_behind(
                #[trigger] s.subrange(
                    key_table_len(header) + table[k].data_offset,
                    key_table_len(header) + table[k].data_offset + table[k].data_max_len,
                ),
                values[k].payload().len() as int,
            ),
    ensures
        0 <= slots_len_upto(table, i),
        key_table_len(header) + slots_len_upto(table, i) <= s.len(),
        slots_bytes_upto(values, table, i) == s.subrange(
            key_table_len(header),
            key_table_len(header) + slots_len_upto(table, i),
        ),
    decreases i,
{
    lemma_values_of_each(s, table, header, table.len());
    let k = key_table_len(header);
    if i == 0 {
        assert(slots_bytes_upto(values, table, i) =~= s.subrange(k, k));
    } else {
        lemma_slots_bytes(s, table, header, values, i - 1);
        lemma_slot_offsets(table, header, i - 1);
        assert(slot_at(s, table, header, i - 1) == Ok::<DataView, ReadErr>(values[i - 1]));
        let a = k + slots_len_upto(table, i - 1);
        let b = k + slots_len_upto(table, i);
        let slot = s.subrange(a, b);
        assert(zero_behind(slot, values[i - 1].payload().len() as int));
        lemma_value_of_slot(table[i - 1].data_format, slot);
        assert(s.subrange(k, a) + s.subrange(a, b) =~= s.subrange(k, b));
    }
}

} // verus!
