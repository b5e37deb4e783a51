//! What a container that was written out is read back as.

use vstd::prelude::*;
use crate::container::{magic_bytes, sfo_of, SfoView};
use crate::error::{MappingErr, ReadErr, SfoParseErr};
use crate::format::Format;
use crate::header::{header_of, lemma_header_bytes_read, lemma_header_of_prefix, Header};
use crate::index_table::{
    entries_of, lemma_table_bytes_len, lemma_table_bytes_read, slots_len_upto, table_bytes,
    IndexTableEntry,
};
use crate::mapping::{
    follows_on, key_at, key_run_end, key_table_len, keys_bytes_upto, keys_len, keys_len_upto,
    keys_of, layout_ok, lemma_keys_len_grows, lemma_padding_for, mapping_of, slot_at,
    slots_bytes_upto, value_of, values_of, DataView, MappingView,
};
use crate::reading::zero_behind;
use crate::sums::lemma_slots_len_grows;
use crate::text::{lemma_text_of_terminated, lemma_text_of_unterminated};
use crate::wire::zeros;

verus! {

/// The first keys are written as as many bytes as they take.
pub proof fn lemma_keys_bytes_len(keys: Seq<Seq<u8>>, n: int)
    requires
        0 <= n <= keys.len(),
    ensures
        keys_bytes_upto(keys, n).len() == keys_len_upto(keys, n),
    decreases n,
{
    if n > 0 {
        lemma_keys_bytes_len(keys, n - 1);
    }
}

/// In what the first keys are written as, each key stands at the sum
/// of the lengths before it, followed by its terminating zero.
pub proof fn lemma_keys_bytes_at(keys: Seq<Seq<u8>>, n: int, i: int)
    requires
        0 <= i < n <= keys.len(),
    ensures
        0 <= keys_len_upto(keys, i),
        keys_len_upto(keys, i + 1) <= keys_bytes_upto(keys, n).len(),
        keys_bytes_upto(keys, n).subrange(keys_len_upto(keys, i), keys_len_upto(keys, i + 1))
            == keys[i] + seq![0u8],
    decreases n,
{
    let whole = keys_bytes_upto(keys, n);
    let head = keys_bytes_upto(keys, n - 1);
    lemma_keys_bytes_len(keys, n);
    lemma_keys_bytes_len(keys, n - 1);
    lemma_keys_len_grows(keys, 0, i);
    lemma_keys_len_grows(keys, i + 1, n);
    if i == n - 1 {
        assert(whole.subrange(keys_len_upto(keys, i), keys_len_upto(keys, i + 1)) =~= keys[i]
            + seq![0u8]);
    } else {
        lemma_keys_bytes_at(keys, n - 1, i);
        assert(whole.subrange(keys_len_upto(keys, i), keys_len_upto(keys, i + 1))
            =~= head.subrange(keys_len_upto(keys, i), keys_len_upto(keys, i + 1)));
    }
}

/// Whether the first `n` values have room in their slots.
pub open spec fn values_fit(values: Seq<DataView>, table: Seq<IndexTableEntry>, n: int) -> bool {
    forall|i: int|
        0 <= i < n ==> (#[trigger] values[i]).payload().len() <= table[i].data_max_len
}

/// The first slots are written as as many bytes as their descriptors
/// say.
pub proof fn lemma_slots_bytes_len(values: Seq<DataView>, table: Seq<IndexTableEntry>, n: int)
    requires
        0 <= n <= values.len(),
        n <= table.len(),
        values_fit(values, table, n),
    ensures
        slots_bytes_upto(values, table, n).len() == slots_len_upto(table, n),
    decreases n,
{
    if n > 0 {
        assert(values[n - 1].payload().len() <= table[n - 1].data_max_len);
        lemma_slots_bytes_len(values, table, n - 1);
    }
}

/// In what the first slots are written as, each slot stands at the sum
/// of the sizes before it.
pub proof fn lemma_slots_bytes_at(
    values: Seq<DataView>,
    table: Seq<IndexTableEntry>,
    n: int,
    i: int,
)
    requires
        0 <= i < n <= values.len(),
        n <= table.len(),
        values_fit(values, table, n),
    ensures
        0 <= slots_len_upto(table, i),
        slots_len_upto(table, i + 1) <= slots_bytes_upto(values, table, n).len(),
        slots_bytes_upto(values, table, n).subrange(
            slots_len_upto(table, i),
            slots_len_upto(table, i + 1),
        ) == values[i].slot(table[i].data_max_len as nat),
    decreases n,
{
    let whole = slots_bytes_upto(values, table, n);
    let head = slots_bytes_upto(values, table, n - 1);
    lemma_slots_bytes_len(values, table, n);
    lemma_slots_bytes_len(values, table, n - 1);
    lemma_slots_len_grows(table, 0, i);
    lemma_slots_len_grows(table, i + 1, n);
    assert(values[n - 1].payload().len() <= table[n - 1].data_max_len);
    if i == n - 1 {
        assert(whole.subrange(slots_len_upto(table, i), slots_len_upto(table, i + 1))
            =~= values[i].slot(table[i].data_max_len as nat));
    } else {
        lemma_slots_bytes_at(values, table, n - 1, i);
        assert(whole.subrange(slots_len_upto(table, i), slots_len_upto(table, i + 1))
            =~= head.subrange(slots_len_upto(table, i), slots_len_upto(table, i + 1)));
    }
}

/// A slot that a value was written into is read back as that value,
/// where the format is one that reads the value back.
pub proof fn lemma_slot_reads_back(value: DataView, format: Format, slot_len: nat)
    requires
        value.payload().len() <= slot_len,
        value.reads_as(format, slot_len as int),
    ensures
        value_of(format, value.slot(slot_len)) == Ok::<DataView, ReadErr>(value),
        zero_behind(value.slot(slot_len), value.payload().len() as int),
{
    let slot = value.slot(slot_len);
    let fill = zeros((slot_len - value.payload().len()) as nat);
    match value {
        DataView::Number(n) => {
            crate::wire::lemma_u32_bytes_read(n);
            assert(slot.subrange(0, 4) =~= crate::wire::u32_bytes(n));
        },
        DataView::Text(t) => {
            match format {
                Format::Utf8 => {
                    if t.len() < slot_len {
                        let rest = zeros((slot_len - t.len() - 1) as nat);
                        assert(slot =~= t + seq![0u8] + rest);
                        lemma_text_of_terminated(t, rest);
                    } else {
                        assert(slot =~= t);
                        lemma_text_of_unterminated(t);
                    }
                },
                _ => {
                    assert(slot =~= t);
                },
            }
        },
    }
}

/// In a well-formed container the header and the descriptors agree on
/// where the keys and the slots stand.
pub proof fn lemma_wf_layout_ok(c: SfoView)
    requires
        c.wf(),
    ensures
        layout_ok(c.table, c.header),
        key_table_len(c.header) == keys_len(c.mapping.keys) + c.padding,
        0 <= keys_len(c.mapping.keys),
        0 <= c.padding <= 3,
{
    let n = c.table.len() as int;
    let keys = c.mapping.keys;
    lemma_keys_len_grows(keys, 0, n);
    lemma_padding_for(keys_len(keys));
    if n == 0 {
        crate::mapping::lemma_padding_is(0, 0);
    } else {
        lemma_keys_len_grows(keys, n - 1, n);
        assert(c.entry_wf(n - 1));
        assert(c.entry_wf(0));
    }
    assert forall|i: int| 0 <= i < n - 1 implies #[trigger] follows_on(c.table, i) by {
        assert(c.entry_wf(i));
        assert(c.entry_wf(i + 1));
    }
}

/// In a well-formed container every value has room in its slot.
pub proof fn lemma_wf_values_fit(c: SfoView)
    requires
        c.wf(),
    ensures
        values_fit(c.mapping.values, c.table, c.len() as int),
{
    assert forall|i: int| 0 <= i < c.len() implies (#[trigger] c.mapping.values[i]).payload().len()
        <= c.table[i].data_max_len by {
        assert(c.entry_wf(i));
    }
}

/// The parts of an image, as a reader meets them: the magic, the header,
/// the descriptors, and then, from where the key table starts, the keys,
/// the padding and the slots.
pub proof fn lemma_image_parts(c: SfoView)
    requires
        c.wf(),
    ensures
        ({
            let s = c.image();
            let n = c.len() as int;
            let keys_start = c.header.key_table_start as int;
            let data_start = c.header.data_table_start as int;
            let total = keys_len(c.mapping.keys);
            &&& keys_start == 20 + 16 * n
            &&& data_start == keys_start + total + c.padding
            &&& 0 <= total
            &&& 0 <= slots_len_upto(c.table, n)
            &&& s.len() == data_start + slots_len_upto(c.table, n)
            &&& s.subrange(0, 4) == magic_bytes()
            &&& s.subrange(4, 20) == c.header.bytes()
            &&& s.subrange(20, keys_start) == table_bytes(c.table)
            &&& s.subrange(keys_start, keys_start + total) == keys_bytes_upto(c.mapping.keys, n)
            &&& s.subrange(keys_start + total, data_start) == zeros(c.padding)
            &&& s.subrange(data_start, s.len() as int) == slots_bytes_upto(
                c.mapping.values,
                c.table,
                n,
            )
        }),
{
    let s = c.image();
    let n = c.len() as int;
    let total = keys_len(c.mapping.keys);
    let a = magic_bytes();
    let b = c.header.bytes();
    let t = table_bytes(c.table);
    let ks = keys_bytes_upto(c.mapping.keys, n);
    let z = zeros(c.padding);
    let vs = slots_bytes_upto(c.mapping.values, c.table, n);
    lemma_table_bytes_len(c.table);
    lemma_keys_bytes_len(c.mapping.keys, n);
    lemma_wf_values_fit(c);
    lemma_slots_bytes_len(c.mapping.values, c.table, n);
    lemma_keys_len_grows(c.mapping.keys, 0, n);
    lemma_slots_len_grows(c.table, 0, n);
    assert(a.len() == 4);
    assert(b.len() == 16);
    assert(s == a + b + t + ks + z + vs);
    lemma_six_parts(a, b, t, ks, z, vs);
}

/// Six sequences, one after the other, can be cut apart again.
proof fn lemma_six_parts(
    a: Seq<u8>,
    b: Seq<u8>,
    c: Seq<u8>,
    d: Seq<u8>,
    e: Seq<u8>,
    f: Seq<u8>,
)
    ensures
        ({
            let s = a + b + c + d + e + f;
            let first = a.len() as int;
            let second = first + b.len();
            let third = second + c.len();
            let fourth = third + d.len();
            let fifth = fourth + e.len();
            &&& s.len() == fifth + f.len()
            &&& s.subrange(0, first) == a
            &&& s.subrange(first, second) == b
            &&& s.subrange(second, third) == c
            &&& s.subrange(third, fourth) == d
            &&& s.subrange(fourth, fifth) == e
            &&& s.subrange(fifth, s.len() as int) == f
        }),
{
    let s = a + b + c + d + e + f;
    let first = a.len() as int;
    let second = first + b.len();
    let third = second + c.len();
    let fourth = third + d.len();
    let fifth = fourth + e.len();
    assert(s.subrange(0, first) =~= a);
    assert(s.subrange(first, second) =~= b);
    assert(s.subrange(second, third) =~= c);
    assert(s.subrange(third, fourth) =~= d);
    assert(s.subrange(fourth, fifth) =~= e);
    assert(s.subrange(fifth, s.len() as int) =~= f);
}

/// What stands behind the descriptors of a written image: the keys, the
/// padding, and the slots.
pub open spec fn is_body_of(rest: Seq<u8>, c: SfoView) -> bool {
    let n = c.len() as int;
    let total = keys_len(c.mapping.keys);
    let k = total + c.padding;
    &&& rest.len() == k + slots_len_upto(c.table, n)
    &&& rest.subrange(0, total) == keys_bytes_upto(c.mapping.keys, n)
    &&& rest.subrange(total, k) == zeros(c.padding)
    &&& rest.subrange(k, rest.len() as int) == slots_bytes_upto(c.mapping.values, c.table, n)
}

/// A key of a faithful container is read back from the written key
/// table.
pub proof fn lemma_key_reads_back(c: SfoView, rest: Seq<u8>, i: int)
    requires
        c.wf(),
        c.faithful(),
        is_body_of(rest, c),
        0 <= i < c.len(),
    ensures
        key_at(rest, c.table, c.header, i) == Ok::<Seq<u8>, ReadErr>(c.mapping.keys[i]),
{
    let n = c.len() as int;
    let keys = c.mapping.keys;
    let total = keys_len(keys);
    let k = total + c.padding;
    let key = keys[i];
    lemma_wf_layout_ok(c);
    lemma_keys_bytes_at(keys, n, i);
    lemma_keys_bytes_len(keys, n);
    lemma_slots_len_grows(c.table, 0, n);
    assert(c.entry_wf(i));
    assert(c.entry_faithful(i));
    let start = c.table[i].key_offset as int;
    let end = key_run_end(c.table, c.header, i);
    assert(start == keys_len_upto(keys, i));
    let run = rest.subrange(start, end);
    let written = rest.subrange(0, total);
    assert(rest.subrange(start, start + key.len() + 1) =~= written.subrange(
        start,
        start + key.len() + 1,
    ));
    if i + 1 < n {
        assert(c.entry_wf(i + 1));
        assert(run =~= key + seq![0u8] + Seq::<u8>::empty());
        lemma_text_of_terminated(key, Seq::<u8>::empty());
    } else {
        let pad = rest.subrange(total, k);
        assert(run =~= key + seq![0u8] + pad);
        lemma_text_of_terminated(key, pad);
    }
}

/// The keys of a faithful container are read back from the written key
/// table.
pub proof fn lemma_keys_read_back(c: SfoView, rest: Seq<u8>, m: int)
    requires
        c.wf(),
        c.faithful(),
        is_body_of(rest, c),
        0 <= m <= c.len(),
    ensures
        keys_of(rest, c.table, c.header, m as nat) == Ok::<Seq<Seq<u8>>, MappingErr>(
            c.mapping.keys.subrange(0, m),
        ),
    decreases m,
{
    if m == 0 {
        assert(c.mapping.keys.subrange(0, 0) =~= Seq::empty());
    } else {
        lemma_keys_read_back(c, rest, m - 1);
        lemma_key_reads_back(c, rest, m - 1);
        assert(c.mapping.keys.subrange(0, m - 1).push(c.mapping.keys[m - 1])
            =~= c.mapping.keys.subrange(0, m));
    }
}

/// A value of a faithful container is read back from the written value
/// table.
pub proof fn lemma_value_reads_back(c: SfoView, rest: Seq<u8>, i: int)
    requires
        c.wf(),
        c.faithful(),
        is_body_of(rest, c),
        0 <= i < c.len(),
    ensures
        slot_at(rest, c.table, c.header, i) == Ok::<DataView, ReadErr>(c.mapping.values[i]),
        ({
            let from = key_table_len(c.header) + c.table[i].data_offset;
            zero_behind(
                rest.subrange(from, from + c.table[i].data_max_len),
                c.mapping.values[i].payload().len() as int,
            )
        }),
{
    let n = c.len() as int;
    let k = key_table_len(c.header);
    let value = c.mapping.values[i];
    let slot_len = c.table[i].data_max_len as nat;
    lemma_wf_layout_ok(c);
    lemma_wf_values_fit(c);
    lemma_slots_bytes_at(c.mapping.values, c.table, n, i);
    lemma_slots_bytes_len(c.mapping.values, c.table, n);
    assert(c.entry_wf(i));
    assert(c.entry_faithful(i));
    let from = k + c.table[i].data_offset;
    let written = rest.subrange(k, rest.len() as int);
    assert(rest.subrange(from, from + slot_len) =~= written.subrange(
        slots_len_upto(c.table, i),
        slots_len_upto(c.table, i + 1),
    ));
    lemma_slot_reads_back(value, c.table[i].data_format, slot_len);
}

/// The values of a faithful container are read back from the written
/// value table.
pub proof fn lemma_values_read_back(c: SfoView, rest: Seq<u8>, m: int)
    requires
        c.wf(),
        c.faithful(),
        is_body_of(rest, c),
        0 <= m <= c.len(),
    ensures
        values_of(rest, c.table, c.header, m as nat) == Ok::<Seq<DataView>, MappingErr>(
            c.mapping.values.subrange(0, m),
        ),
    decreases m,
{
    if m == 0 {
        assert(c.mapping.values.subrange(0, 0) =~= Seq::empty());
    } else {
        lemma_values_read_back(c, rest, m - 1);
        lemma_value_reads_back(c, rest, m - 1);
        assert(c.mapping.values.subrange(0, m - 1).push(c.mapping.values[m - 1])
            =~= c.mapping.values.subrange(0, m));
    }
}

/// The keys and values of a faithful container are read back from what
/// was written behind the descriptors.
pub proof fn lemma_mapping_reads_back(c: SfoView, rest: Seq<u8>)
    requires
        c.wf(),
        c.faithful(),
        is_body_of(rest, c),
    ensures
        mapping_of(rest, c.table, c.header) == Ok::<MappingView, MappingErr>(c.mapping),
{
    let n = c.len() as int;
    lemma_wf_layout_ok(c);
    lemma_keys_read_back(c, rest, n);
    lemma_values_read_back(c, rest, n);
    assert(c.mapping.keys.subrange(0, n) =~= c.mapping.keys);
    assert(c.mapping.values.subrange(0, n) =~= c.mapping.values);
}

/// What stands in a written image from the start of the key table on is
/// the keys, the padding, and the slots.
pub proof fn lemma_image_body(c: SfoView)
    requires
        c.wf(),
    ensures
        c.header.key_table_start <= c.image().len(),
        is_body_of(
            c.image().subrange(c.header.key_table_start as int, c.image().len() as int),
            c,
        ),
{
    let s = c.image();
    let keys_start = c.header.key_table_start as int;
    let data_start = c.header.data_table_start as int;
    let total = keys_len(c.mapping.keys);
    let k = total + c.padding;
    let rest = s.subrange(keys_start, s.len() as int);
    lemma_image_parts(c);
    assert(rest.subrange(0, total) =~= s.subrange(keys_start, keys_start + total));
    assert(rest.subrange(total, k) =~= s.subrange(keys_start + total, data_start));
    assert(rest.subrange(k, rest.len() as int) =~= s.subrange(data_start, s.len() as int));
}

/// The start of what stands behind a place is what stands between the
/// place and a later one.
proof fn lemma_tail_prefix(s: Seq<u8>, from: int, to: int)
    requires
        0 <= from <= to <= s.len(),
    ensures
        s.subrange(from, s.len() as int).subrange(0, to - from) == s.subrange(from, to),
{
    assert(s.subrange(from, s.len() as int).subrange(0, to - from) =~= s.subrange(from, to));
}

/// A sequence is its own start, taken to its end.
proof fn lemma_whole(s: Seq<u8>)
    ensures
        s.subrange(0, s.len() as int) == s,
{
    assert(s.subrange(0, s.len() as int) =~= s);
}

/// The header and the descriptors of a well-formed container are read
/// back from its image.
pub proof fn lemma_image_head_reads_back(c: SfoView)
    requires
        c.wf(),
    ensures
        ({
            let s = c.image();
            &&& 20 <= s.len()
            &&& s.subrange(0, 4) == magic_bytes()
            &&& header_of(s.subrange(4, s.len() as int)) == Ok::<Header, ReadErr>(c.header)
            &&& entries_of(s.subrange(20, s.len() as int), c.header.table_entries as nat) == Ok::<
                Seq<IndexTableEntry>,
                ReadErr,
            >(c.table)
        }),
{
    let s = c.image();
    let n = c.len() as int;
    let keys_start = c.header.key_table_start as int;
    lemma_image_parts(c);
    let x = s.subrange(4, s.len() as int);
    let y = s.subrange(20, s.len() as int);
    lemma_header_bytes_read(c.header);
    lemma_tail_prefix(s, 4, 20);
    lemma_whole(c.header.bytes());
    lemma_header_of_prefix(x, c.header.bytes());
    lemma_tail_prefix(s, 20, keys_start);
    lemma_table_bytes_read(y, c.table);
}

/// Writing out a well-formed, faithful container and reading the image
/// gives the container back.
pub proof fn lemma_export_parse_round_trip(c: SfoView)
    requires
        c.wf(),
        c.faithful(),
    ensures
        sfo_of(c.image()) == Ok::<SfoView, SfoParseErr>(c),
{
    let s = c.image();
    let rest = s.subrange(c.header.key_table_start as int, s.len() as int);
    lemma_image_head_reads_back(c);
    lemma_image_body(c);
    lemma_mapping_reads_back(c, rest);
    lemma_wf_layout_ok(c);
}

/// In the image of a well-formed container every slot stands where the
/// header and its descriptor say, and holds its value and then zeros.
pub proof fn lemma_written_slot(c: SfoView, i: int)
    requires
        c.wf(),
        0 <= i < c.len(),
    ensures
        ({
            let s = c.image();
            let from = c.header.data_table_start + c.table[i].data_offset;
            let slot_len = c.table[i].data_max_len as nat;
            &&& from + slot_len <= s.len()
            &&& s.subrange(from, from + slot_len) == c.mapping.values[i].slot(slot_len)
            &&& zero_behind(
                s.subrange(from, from + slot_len),
                c.mapping.values[i].payload().len() as int,
            )
        }),
{
    let s = c.image();
    let n = c.len() as int;
    let data_start = c.header.data_table_start as int;
    let from = data_start + c.table[i].data_offset;
    let slot_len = c.table[i].data_max_len as nat;
    let written = s.subrange(data_start, s.len() as int);
    lemma_image_parts(c);
    lemma_wf_values_fit(c);
    lemma_slots_bytes_at(c.mapping.values, c.table, n, i);
    lemma_slots_bytes_len(c.mapping.values, c.table, n);
    assert(c.entry_wf(i));
    assert(s.subrange(from, from + slot_len) =~= written.subrange(
        slots_len_upto(c.table, i),
        slots_len_upto(c.table, i + 1),
    ));
}

} // verus!
