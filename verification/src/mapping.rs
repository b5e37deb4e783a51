//! The keys and the values of a container, in the order of the image.

use vstd::prelude::*;
use vstd::utf8::encode_utf8;
use crate::error::{MappingErr, ReadErr};
use crate::format::Format;
use crate::header::Header;
use crate::index_table::{IndexTable, IndexTableEntry};
use crate::keys::Keys;
use crate::text::{find_text_end, is_utf8, text_end, text_of, utf8_str};
use crate::wire::{read_u32, u32_bytes, u32_le, write_all, write_u32, write_zeros, zeros};

verus! {

/// A value of the container.
#[derive(Clone, Debug)]
pub enum DataField {
    /// Text.
    Utf8String(String),
    /// A number.
    U32(u32),
}

/// What a value is, apart from how it is held in memory: the bytes of a
/// text, or a number.
pub enum DataView {
    Text(Seq<u8>),
    Number(u32),
}

impl DataView {
    /// The bytes that stand for the value at the start of its slot.
    pub open spec fn payload(self) -> Seq<u8> {
        match self {
            DataView::Text(t) => t,
            DataView::Number(n) => u32_bytes(n),
        }
    }

    /// The size of a slot that is made for this value: a text and its
    /// terminating zero, or the four bytes of a number.
    pub open spec fn slot_len(self) -> nat {
        match self {
            DataView::Text(t) => t.len() + 1,
            DataView::Number(_) => 4,
        }
    }

    /// The format that this value is written with.
    pub open spec fn format(self) -> Format {
        match self {
            DataView::Text(_) => Format::Utf8,
            DataView::Number(_) => Format::U32,
        }
    }

    /// Whether the value can be written into a slot made for it and be
    /// read back: a text holds no zero byte, since its slot ends the
    /// text at the first one.
    pub open spec fn is_writable(self) -> bool {
        match self {
            DataView::Text(t) => crate::text::has_no_nul(t),
            DataView::Number(_) => true,
        }
    }

    /// Whether a text is UTF-8. A number always is what it is.
    pub open spec fn is_valid(self) -> bool {
        match self {
            DataView::Text(t) => is_utf8(t),
            DataView::Number(_) => true,
        }
    }

    /// Whether a slot of `slot_len` bytes with this value in it is read
    /// back by `format` as this value: a number by `Format::U32`; a text
    /// without a zero byte by `Format::Utf8`; a text that fills its slot
    /// by `Format::Utf8Special`.
    pub open spec fn reads_as(self, format: Format, slot_len: int) -> bool {
        match self {
            DataView::Number(_) => format == Format::U32,
            DataView::Text(t) => is_utf8(t) && match format {
                Format::Utf8 => crate::text::has_no_nul(t),
                Format::Utf8Special => t.len() == slot_len,
                Format::U32 => false,
            },
        }
    }

    /// The bytes of a slot of `slot_len` bytes that holds this value: the
    /// payload, then zeros.
    pub open spec fn slot(self, slot_len: nat) -> Seq<u8>
        recommends
            self.payload().len() <= slot_len,
    {
        self.payload() + zeros((slot_len - self.payload().len()) as nat)
    }
}

/// The value that a slot holds, read by the slot's format.
pub open spec fn value_of(format: Format, slot: Seq<u8>) -> Result<DataView, ReadErr> {
    match format {
        Format::U32 => if slot.len() < 4 {
            Err(ReadErr::TruncatedRead)
        } else {
            Ok(DataView::Number(u32_le(slot.subrange(0, 4)) as u32))
        },
        Format::Utf8 => if is_utf8(text_of(slot)) {
            Ok(DataView::Text(text_of(slot)))
        } else {
            Err(ReadErr::InvalidUtf8)
        },
        Format::Utf8Special => if is_utf8(slot) {
            Ok(DataView::Text(slot))
        } else {
            Err(ReadErr::InvalidUtf8)
        },
    }
}

impl View for DataField {
    type V = DataView;

    open spec fn view(&self) -> DataView {
        match self {
            DataField::Utf8String(s) => DataView::Text(encode_utf8(s@)),
            DataField::U32(n) => DataView::Number(*n),
        }
    }
}

impl DataField {
    /// The size of a slot that is made for this value.
    pub fn len(&self) -> (n: u32)
        requires
            self@.slot_len() <= u32::MAX,
        ensures
            n == self@.slot_len(),
    {
        match self {
            DataField::Utf8String(s) => (s.as_str().as_bytes().len() + 1) as u32,
            DataField::U32(_) => 4,
        }
    }

    /// Whether a slot that is made for this value has a size that a
    /// descriptor can hold.
    pub fn fits(&self) -> (r: bool)
        ensures
            r == (self@.slot_len() <= u32::MAX),
    {
        match self {
            DataField::Utf8String(s) => s.as_str().as_bytes().len() < 0xffff_ffff,
            DataField::U32(_) => true,
        }
    }

    /// The bytes that stand for the value at the start of its slot.
    pub fn payload_len(&self) -> (n: usize)
        ensures
            n == self@.payload().len(),
    {
        match self {
            DataField::Utf8String(s) => s.as_str().as_bytes().len(),
            DataField::U32(_) => 4,
        }
    }

    /// Whether the value can be written into a slot made for it and be
    /// read back.
    pub fn is_writable(&self) -> (r: bool)
        ensures
            r == self@.is_writable(),
            self@.is_valid(),
    {
        proof {
            if let DataField::Utf8String(s) = self {
                crate::text::lemma_string_is_utf8(s@);
            }
        }
        match self {
            DataField::Utf8String(s) => crate::text::holds_no_nul(s.as_str().as_bytes()),
            DataField::U32(_) => true,
        }
    }

    /// The format that this value is written with.
    pub fn format(&self) -> (f: Format)
        ensures
            f == self@.format(),
    {
        match self {
            DataField::Utf8String(_) => Format::Utf8,
            DataField::U32(_) => Format::U32,
        }
    }

    /// Reads the value that `slot` holds: by `Format::U32` the number in
    /// its first four bytes, by `Format::Utf8` the text before its first
    /// zero byte, by `Format::Utf8Special` all of it as text. What stands
    /// behind the number or behind the zero byte is not looked at.
    pub fn from_slot(format: Format, slot: &[u8]) -> (r: Result<DataField, ReadErr>)
        ensures
            match r {
                Ok(v) => value_of(format, slot@) == Ok::<DataView, ReadErr>(v@),
                Err(e) => value_of(format, slot@) == Err::<DataView, ReadErr>(e),
            },
    {
        match format {
            Format::U32 => {
                if slot.len() < 4 {
                    Err(ReadErr::TruncatedRead)
                } else {
                    Ok(DataField::U32(read_u32(slot, 0)))
                }
            },
            Format::Utf8 => {
                proof {
                    reveal(is_utf8);
                }
                let end: usize = find_text_end(slot);
                let text: &[u8] = vstd::slice::slice_subrange(slot, 0, end);
                match utf8_str(text) {
                    Some(s) => Ok(DataField::Utf8String(s.to_owned())),
                    None => Err(ReadErr::InvalidUtf8),
                }
            },
            Format::Utf8Special => {
                proof {
                    reveal(is_utf8);
                }
                match utf8_str(slot) {
                    Some(s) => Ok(DataField::Utf8String(s.to_owned())),
                    None => Err(ReadErr::InvalidUtf8),
                }
            },
        }
    }

    /// Appends a slot of `slot_len` bytes that holds this value.
    pub fn export(&self, writer: &mut Vec<u8>, slot_len: u32)
        requires
            self@.payload().len() <= slot_len,
        ensures
            final(writer)@ == old(writer)@ + self@.slot(slot_len as nat),
    {
        match self {
            DataField::Utf8String(s) => {
                let bytes: &[u8] = s.as_str().as_bytes();
                write_all(writer, bytes);
                write_zeros(writer, slot_len as usize - bytes.len());
            },
            DataField::U32(n) => {
                write_u32(writer, *n);
                write_zeros(writer, slot_len as usize - 4);
            },
        }
        assert(writer@ =~= old(writer)@ + self@.slot(slot_len as nat));
    }
}

impl PartialEq for DataField {
    /// Two values are equal where both are the same text or both are the
    /// same number.
    fn eq(&self, other: &Self) -> (r: bool) {
        match (self, other) {
            (DataField::Utf8String(a), DataField::Utf8String(b)) => {
                proof {
                    vstd::utf8::encode_utf8_decode_utf8(a@);
                    vstd::utf8::encode_utf8_decode_utf8(b@);
                }
                crate::keys::same_text(a.as_str(), b.as_str())
            },
            (DataField::U32(a), DataField::U32(b)) => *a == *b,
            _ => false,
        }
    }
}

impl vstd::std_specs::cmp::PartialEqSpecImpl for DataField {
    open spec fn obeys_eq_spec() -> bool {
        true
    }

    open spec fn eq_spec(&self, other: &Self) -> bool {
        self@ == other@
    }
}

impl Eq for DataField {

}

/// Reads the key at the start of `buff`: the text before the first zero
/// byte, as the catalogue's entry of that name where it has one.
pub fn key_from_buff(buff: &[u8]) -> (r: Result<Keys, ReadErr>)
    ensures
        r is Ok <==> is_utf8(text_of(buff@)),
        r is Ok ==> r->Ok_0@ == text_of(buff@),
        r is Ok ==> r->Ok_0.is_resolved(),
        r is Err ==> r->Err_0 == ReadErr::InvalidUtf8,
{
    let end: usize = find_text_end(buff);
    let text: &[u8] = vstd::slice::slice_subrange(buff, 0, end);
    proof {
        reveal(is_utf8);
    }
    match utf8_str(text) {
        Some(s) => Ok(Keys::from_str(s)),
        None => Err(ReadErr::InvalidUtf8),
    }
}

/// The keys and the values of a container, as plain sequences: `keys[i]`
/// holds the bytes of the name of entry `i`, and `values[i]` its value.
pub struct MappingView {
    pub keys: Seq<Seq<u8>>,
    pub values: Seq<DataView>,
}

/// The bytes that the first `n` keys take in the key table, each with
/// its terminating zero.
pub open spec fn keys_len_upto(keys: Seq<Seq<u8>>, n: int) -> int
    decreases n,
{
    if n <= 0 {
        0
    } else {
        keys_len_upto(keys, n - 1) + keys[n - 1].len() + 1
    }
}

/// The bytes that all the keys take in the key table.
pub open spec fn keys_len(keys: Seq<Seq<u8>>) -> int {
    keys_len_upto(keys, keys.len() as int)
}

/// The first `n` keys as they stand in the key table: each name and its
/// terminating zero, one after the other.
pub open spec fn keys_bytes_upto(keys: Seq<Seq<u8>>, n: int) -> Seq<u8>
    decreases n,
{
    if n <= 0 {
        Seq::empty()
    } else {
        keys_bytes_upto(keys, n - 1) + keys[n - 1] + seq![0u8]
    }
}

/// The first `n` slots as they stand in the value table: each as large
/// as its descriptor says, one after the other.
pub open spec fn slots_bytes_upto(
    values: Seq<DataView>,
    table: Seq<IndexTableEntry>,
    n: int,
) -> Seq<u8>
    decreases n,
{
    if n <= 0 {
        Seq::empty()
    } else {
        slots_bytes_upto(values, table, n - 1) + values[n - 1].slot(
            table[n - 1].data_max_len as nat,
        )
    }
}

/// Whether `i` is the first position at which `key` stands in `keys`.
pub open spec fn is_first_at(keys: Seq<Seq<u8>>, key: Seq<u8>, i: int) -> bool {
    &&& 0 <= i < keys.len()
    &&& keys[i] == key
    &&& forall|j: int| 0 <= j < i ==> keys[j] != key
}

/// The first position at which `key` stands in `keys`, if it stands
/// there at all.
pub open spec fn position_of(keys: Seq<Seq<u8>>, key: Seq<u8>) -> Option<int> {
    if exists|i: int| is_first_at(keys, key, i) {
        Some(choose|i: int| is_first_at(keys, key, i))
    } else {
        None
    }
}

/// The first position of a key is where `i` says, and nowhere else.
pub proof fn lemma_position_is(keys: Seq<Seq<u8>>, key: Seq<u8>, i: int)
    requires
        is_first_at(keys, key, i),
    ensures
        position_of(keys, key) == Some(i),
{
    let c = choose|c: int| is_first_at(keys, key, c);
    assert(is_first_at(keys, key, c));
    if c < i {
        assert(keys[c] != key);
    } else if i < c {
        assert(keys[i] != key);
    }
}

/// A key that stands nowhere has no position.
pub proof fn lemma_position_none(keys: Seq<Seq<u8>>, key: Seq<u8>)
    requires
        forall|j: int| 0 <= j < keys.len() ==> keys[j] != key,
    ensures
        position_of(keys, key) is None,
{
    assert forall|i: int| !is_first_at(keys, key, i) by {
        if 0 <= i < keys.len() {
            assert(keys[i] != key);
        }
    }
}

/// A position that was found is in range and holds the key.
pub proof fn lemma_position_some(keys: Seq<Seq<u8>>, key: Seq<u8>)
    requires
        position_of(keys, key) is Some,
    ensures
        is_first_at(keys, key, position_of(keys, key)->0),
{
}

impl MappingView {
    /// Whether there are as many values as keys.
    pub open spec fn wf(self) -> bool {
        self.keys.len() == self.values.len()
    }

    /// The number of entries.
    pub open spec fn len(self) -> nat {
        self.keys.len()
    }

    /// With one entry more, at the end.
    pub open spec fn pushed(self, key: Seq<u8>, value: DataView) -> MappingView {
        MappingView { keys: self.keys.push(key), values: self.values.push(value) }
    }

    /// With `value` in place of the value of the first entry whose key is
    /// `key`; unchanged where there is no such entry.
    pub open spec fn edited(self, key: Seq<u8>, value: DataView) -> MappingView {
        match position_of(self.keys, key) {
            Some(i) => MappingView { keys: self.keys, values: self.values.update(i, value) },
            None => self,
        }
    }

    /// Without the entry at `idx`.
    pub open spec fn removed(self, idx: int) -> MappingView {
        MappingView { keys: self.keys.remove(idx), values: self.values.remove(idx) }
    }
}

/// The zero bytes that bring `total` bytes up to a multiple of four.
#[verifier::opaque]
pub open spec fn padding_for(total: int) -> int {
    (4 - total % 4) % 4
}

/// The padding for a number of bytes is at most three bytes, and brings
/// the number up to a multiple of four.
pub proof fn lemma_padding_for(total: int)
    requires
        0 <= total,
    ensures
        0 <= padding_for(total) <= 3,
        (total + padding_for(total)) % 4 == 0,
{
    reveal(padding_for);
    let r = total % 4;
    assert(0 <= r < 4);
    assert(total == 4 * (total / 4) + r);
    if r == 0 {
        assert(padding_for(total) == 0);
    } else {
        assert(padding_for(total) == 4 - r);
        assert(total + (4 - r) == 4 * (total / 4 + 1));
    }
}

/// At most three bytes that bring a number of bytes up to a multiple of
/// four are the padding for it.
pub proof fn lemma_padding_is(total: int, p: int)
    requires
        0 <= total,
        0 <= p <= 3,
        (total + p) % 4 == 0,
    ensures
        p == padding_for(total),
{
    reveal(padding_for);
    let r = total % 4;
    assert(0 <= r < 4);
    assert(total + p == 4 * (total / 4) + (r + p));
    assert((r + p) % 4 == 0);
}

/// The size of the key table, padding included, as the header gives it.
pub open spec fn key_table_len(header: Header) -> int {
    header.data_table_start - header.key_table_start
}

/// Whether descriptor `i + 1` follows descriptor `i`: its key starts
/// further on, and its slot starts where the slot of `i` ends.
pub open spec fn follows_on(table: Seq<IndexTableEntry>, i: int) -> bool {
    &&& table[i].key_offset < table[i + 1].key_offset
    &&& table[i + 1].data_offset == table[i].data_offset + table[i].data_max_len
}

/// Whether the header and the descriptors agree on where the keys and
/// the slots stand: the key table is a whole number of four-byte words;
/// the first key and the first slot start at 0; the keys start one
/// behind the other, the last one inside the key table; and each slot
/// starts where the one before it ends.
pub open spec fn layout_ok(table: Seq<IndexTableEntry>, header: Header) -> bool {
    let n = table.len() as int;
    let k = key_table_len(header);
    &&& k >= 0
    &&& k % 4 == 0
    &&& n == 0 ==> k == 0
    &&& n > 0 ==> {
        &&& table[0].key_offset == 0
        &&& table[0].data_offset == 0
        &&& table[n - 1].key_offset < k
    }
    &&& forall|i: int| 0 <= i < n - 1 ==> #[trigger] follows_on(table, i)
}

/// Where the run of key `i` ends in the key table: at the start of the
/// next key, or for the last key at the end of the key table.
pub open spec fn key_run_end(table: Seq<IndexTableEntry>, header: Header, i: int) -> int {
    if i + 1 < table.len() {
        table[i + 1].key_offset as int
    } else {
        key_table_len(header)
    }
}

/// The zero bytes that may follow the terminator of key `i`: none, but
/// for the last key up to three, which pad the key table.
pub open spec fn slack_allowed(table: Seq<IndexTableEntry>, i: int) -> int {
    if i + 1 < table.len() {
        0
    } else {
        3
    }
}

/// The key of entry `i`, read from `s`, which starts with the key table.
/// The key is the text before the first zero byte of its run; the run
/// must hold that zero, and behind it no more than the slack allowed.
pub open spec fn key_at(s: Seq<u8>, table: Seq<IndexTableEntry>, header: Header, i: int) -> Result<
    Seq<u8>,
    ReadErr,
> {
    let start = table[i].key_offset as int;
    let end = key_run_end(table, header, i);
    if s.len() < end {
        Err(ReadErr::TruncatedRead)
    } else {
        let run = s.subrange(start, end);
        let p = text_end(run);
        if !is_utf8(text_of(run)) {
            Err(ReadErr::InvalidUtf8)
        } else if p + 1 <= run.len() <= p + 1 + slack_allowed(table, i) {
            Ok(text_of(run))
        } else {
            Err(ReadErr::BadLayout)
        }
    }
}

/// The keys of the first `n` entries; the error of the first that cannot
/// be read.
pub open spec fn keys_of(s: Seq<u8>, table: Seq<IndexTableEntry>, header: Header, n: nat) -> Result<
    Seq<Seq<u8>>,
    MappingErr,
>
    decreases n,
{
    if n == 0 {
        Ok(Seq::empty())
    } else {
        match keys_of(s, table, header, (n - 1) as nat) {
            Err(e) => Err(e),
            Ok(ks) => match key_at(s, table, header, n - 1) {
                Err(e) => Err(MappingErr::Key((n - 1) as usize, e)),
                Ok(k) => Ok(ks.push(k)),
            },
        }
    }
}

/// The value of entry `i`, read from `s`, which starts with the key
/// table: what the slot holds, by the descriptor's format.
pub open spec fn slot_at(s: Seq<u8>, table: Seq<IndexTableEntry>, header: Header, i: int) -> Result<
    DataView,
    ReadErr,
> {
    let start = key_table_len(header) + table[i].data_offset;
    let end = start + table[i].data_max_len;
    if s.len() < end {
        Err(ReadErr::TruncatedRead)
    } else {
        value_of(table[i].data_format, s.subrange(start, end))
    }
}

/// The values of the first `n` entries; the error of the first that
/// cannot be read.
pub open spec fn values_of(
    s: Seq<u8>,
    table: Seq<IndexTableEntry>,
    header: Header,
    n: nat,
) -> Result<Seq<DataView>, MappingErr>
    decreases n,
{
    if n == 0 {
        Ok(Seq::empty())
    } else {
        match values_of(s, table, header, (n - 1) as nat) {
            Err(e) => Err(e),
            Ok(vs) => match slot_at(s, table, header, n - 1) {
                Err(e) => Err(MappingErr::Value((n - 1) as usize, e)),
                Ok(v) => Ok(vs.push(v)),
            },
        }
    }
}

/// The keys and values that `s` holds, where `s` starts with the key
/// table: first the layout is checked, then every key is read, then
/// every value.
pub open spec fn mapping_of(s: Seq<u8>, table: Seq<IndexTableEntry>, header: Header) -> Result<
    MappingView,
    MappingErr,
> {
    if !layout_ok(table, header) {
        Err(MappingErr::Layout)
    } else {
        match keys_of(s, table, header, table.len()) {
            Err(e) => Err(e),
            Ok(keys) => match values_of(s, table, header, table.len()) {
                Err(e) => Err(e),
                Ok(values) => Ok(MappingView { keys, values }),
            },
        }
    }
}

/// Once a key cannot be read, reading further gives the same error.
pub proof fn lemma_keys_err_stays(
    s: Seq<u8>,
    table: Seq<IndexTableEntry>,
    header: Header,
    m: nat,
    n: nat,
)
    requires
        m <= n,
        keys_of(s, table, header, m) is Err,
    ensures
        keys_of(s, table, header, n) == keys_of(s, table, header, m),
    decreases n,
{
    if m < n {
        lemma_keys_err_stays(s, table, header, m, (n - 1) as nat);
    }
}

/// Once a value cannot be read, reading further gives the same error.
pub proof fn lemma_values_err_stays(
    s: Seq<u8>,
    table: Seq<IndexTableEntry>,
    header: Header,
    m: nat,
    n: nat,
)
    requires
        m <= n,
        values_of(s, table, header, m) is Err,
    ensures
        values_of(s, table, header, n) == values_of(s, table, header, m),
    decreases n,
{
    if m < n {
        lemma_values_err_stays(s, table, header, m, (n - 1) as nat);
    }
}

/// Whether the header and the descriptors agree on where the keys and
/// the slots stand.
pub fn check_layout(index_table: &IndexTable, header: &Header) -> (r: bool)
    ensures
        r == layout_ok(index_table@, *header),
{
    let n: usize = index_table.entries.len();
    if header.data_table_start < header.key_table_start {
        return false;
    }
    let k: u32 = header.data_table_start - header.key_table_start;
    if k % 4 != 0 {
        return false;
    }
    if n == 0 {
        return k == 0;
    }
    if index_table.entries[0].key_offset != 0 || index_table.entries[0].data_offset != 0 {
        return false;
    }
    if index_table.entries[n - 1].key_offset as u32 >= k {
        return false;
    }
    let mut i: usize = 0;
    while i < n - 1
        invariant
            n == index_table@.len(),
            n > 0,
            i <= n - 1,
            forall|j: int| 0 <= j < i ==> #[trigger] follows_on(index_table@, j),
        decreases n - i,
    {
        let a: IndexTableEntry = index_table.entries[i];
        let b: IndexTableEntry = index_table.entries[i + 1];
        if a.key_offset >= b.key_offset {
            assert(!follows_on(index_table@, i as int));
            return false;
        }
        if b.data_offset as u64 != a.data_offset as u64 + a.data_max_len as u64 {
            assert(!follows_on(index_table@, i as int));
            return false;
        }
        assert(follows_on(index_table@, i as int));
        i = i + 1;
    }
    true
}

/// The names of `v`, as bytes.
pub open spec fn keys_view(v: Seq<Keys>) -> Seq<Seq<u8>> {
    Seq::new(v.len(), |i: int| v[i]@)
}

/// The values of `v`, as plain values.
pub open spec fn values_view(v: Seq<DataField>) -> Seq<DataView> {
    Seq::new(v.len(), |i: int| v[i]@)
}

/// The keys and the values of a container. Entry `i` has the key at
/// position `i` and the value at position `i`.
#[derive(Debug)]
pub struct Mapping {
    keys_order: Vec<Keys>,
    entries: Vec<DataField>,
}

impl View for Mapping {
    type V = MappingView;

    closed spec fn view(&self) -> MappingView {
        MappingView { keys: keys_view(self.keys_order@), values: values_view(self.entries@) }
    }
}

impl Mapping {
    /// Whether every key is the catalogue's own where the catalogue has
    /// one of its name.
    pub closed spec fn keys_resolved(&self) -> bool {
        forall|i: int|
            0 <= i < self.keys_order@.len() ==> (#[trigger] self.keys_order@[i]).is_resolved()
    }

    /// Reads the keys and the values from `reader`, which starts with the
    /// key table. The layout that the header and the descriptors give is
    /// checked first; then the keys are read, each from the start of its
    /// own to the start of the next, the last one to the end of the key
    /// table; then the values, each from its slot.
    pub fn new(reader: &[u8], index_table: &IndexTable, header: &Header) -> (r: Result<
        Mapping,
        MappingErr,
    >)
        ensures
            match r {
                Ok(m) => m.keys_resolved() && mapping_of(reader@, index_table@, *header) == Ok::<
                    MappingView,
                    MappingErr,
                >(m@),
                Err(e) => mapping_of(reader@, index_table@, *header) == Err::<
                    MappingView,
                    MappingErr,
                >(e),
            },
    {
        if !check_layout(index_table, header) {
            return Err(MappingErr::Layout);
        }
        let n: usize = index_table.entries.len();
        let size: usize = reader.len();
        let k: u32 = header.data_table_start - header.key_table_start;
        let mut keys_order: Vec<Keys> = Vec::new();
        assert(keys_view(keys_order@) =~= Seq::empty());
        let mut i: usize = 0;
        while i < n
            invariant
                n == index_table@.len(),
                size == reader@.len(),
                i <= n,
                layout_ok(index_table@, *header),
                k == key_table_len(*header),
                keys_of(reader@, index_table@, *header, i as nat) == Ok::<
                    Seq<Seq<u8>>,
                    MappingErr,
                >(keys_view(keys_order@)),
                forall|j: int| 0 <= j < keys_order@.len() ==> (#[trigger] keys_order@[j]).is_resolved(),
            decreases n - i,
        {
            let start: usize = index_table.entries[i].key_offset as usize;
            let end: usize = if i + 1 < n {
                index_table.entries[i + 1].key_offset as usize
            } else {
                k as usize
            };
            let slack: usize = if i + 1 < n {
                0
            } else {
                3
            };
            proof {
                if i + 1 < n {
                    assert(follows_on(index_table@, i as int));
                }
                assert(start < end);
                assert(end == key_run_end(index_table@, *header, i as int));
                assert(slack == slack_allowed(index_table@, i as int));
            }
            if size < end {
                proof {
                    lemma_keys_err_stays(reader@, index_table@, *header, (i + 1) as nat, n as nat);
                }
                return Err(MappingErr::Key(i, ReadErr::TruncatedRead));
            }
            let run: &[u8] = vstd::slice::slice_subrange(reader, start, end);
            let p: usize = find_text_end(run);
            match key_from_buff(run) {
                Err(e) => {
                    proof {
                        lemma_keys_err_stays(
                            reader@,
                            index_table@,
                            *header,
                            (i + 1) as nat,
                            n as nat,
                        );
                    }
                    return Err(MappingErr::Key(i, e));
                },
                Ok(key) => {
                    if p >= run.len() || run.len() - (p + 1) > slack {
                        proof {
                            lemma_keys_err_stays(
                                reader@,
                                index_table@,
                                *header,
                                (i + 1) as nat,
                                n as nat,
                            );
                        }
                        return Err(MappingErr::Key(i, ReadErr::BadLayout));
                    }
                    let ghost before = keys_order@;
                    keys_order.push(key);
                    assert(keys_view(keys_order@) =~= keys_view(before).push(key@));
                },
            }
            i = i + 1;
        }
        let mut entries: Vec<DataField> = Vec::new();
        assert(values_view(entries@) =~= Seq::empty());
        let mut i: usize = 0;
        while i < n
            invariant
                n == index_table@.len(),
                size == reader@.len(),
                i <= n,
                k == key_table_len(*header),
                layout_ok(index_table@, *header),
                keys_of(reader@, index_table@, *header, n as nat) == Ok::<
                    Seq<Seq<u8>>,
                    MappingErr,
                >(keys_view(keys_order@)),
                forall|j: int| 0 <= j < keys_order@.len() ==> (#[trigger] keys_order@[j]).is_resolved(),
                values_of(reader@, index_table@, *header, i as nat) == Ok::<
                    Seq<DataView>,
                    MappingErr,
                >(values_view(entries@)),
            decreases n - i,
        {
            let e: IndexTableEntry = index_table.entries[i];
            let start: u64 = k as u64 + e.data_offset as u64;
            let end: u64 = start + e.data_max_len as u64;
            if (size as u64) < end {
                proof {
                    lemma_values_err_stays(
                        reader@,
                        index_table@,
                        *header,
                        (i + 1) as nat,
                        n as nat,
                    );
                }
                return Err(MappingErr::Value(i, ReadErr::TruncatedRead));
            }
            let slot: &[u8] = vstd::slice::slice_subrange(reader, start as usize, end as usize);
            match DataField::from_slot(e.data_format, slot) {
                Err(err) => {
                    proof {
                        lemma_values_err_stays(
                            reader@,
                            index_table@,
                            *header,
                            (i + 1) as nat,
                            n as nat,
                        );
                    }
                    return Err(MappingErr::Value(i, err));
                },
                Ok(value) => {
                    let ghost before = entries@;
                    entries.push(value);
                    assert(values_view(entries@) =~= values_view(before).push(value@));
                },
            }
            i = i + 1;
        }
        Ok(Mapping { keys_order, entries })
    }
}

/// The bytes of the first keys are no more than the bytes of more of them.
pub proof fn lemma_keys_len_grows(keys: Seq<Seq<u8>>, m: int, n: int)
    requires
        0 <= m <= n,
    ensures
        0 <= keys_len_upto(keys, m) <= keys_len_upto(keys, n),
    decreases n,
{
    if m < n {
        lemma_keys_len_grows(keys, m, n - 1);
    } else if n > 0 {
        lemma_keys_len_grows(keys, m - 1, n - 1);
    }
}

impl Mapping {
    /// Whether there are as many values as keys.
    pub fn is_wf(&self) -> (r: bool)
        ensures
            r == self@.wf(),
    {
        self.keys_order.len() == self.entries.len()
    }

    /// The number of entries.
    pub fn len(&self) -> (n: usize)
        ensures
            n == self@.len(),
    {
        self.keys_order.len()
    }

    /// The key of entry `idx`.
    pub fn key(&self, idx: usize) -> (k: &Keys)
        requires
            idx < self@.keys.len(),
        ensures
            k@ == self@.keys[idx as int],
            self.keys_resolved() ==> k.is_resolved(),
    {
        &self.keys_order[idx]
    }

    /// The value of entry `idx`.
    pub fn value(&self, idx: usize) -> (v: &DataField)
        requires
            idx < self@.values.len(),
        ensures
            v@ == self@.values[idx as int],
    {
        &self.entries[idx]
    }

    /// The first position at which `key` stands, if it stands anywhere.
    pub fn position(&self, key: &Keys) -> (r: Option<usize>)
        ensures
            match r {
                Some(i) => position_of(self@.keys, key@) == Some(i as int),
                None => position_of(self@.keys, key@) is None,
            },
    {
        let mut i: usize = 0;
        while i < self.keys_order.len()
            invariant
                i <= self.keys_order@.len(),
                forall|j: int| 0 <= j < i ==> self@.keys[j] != key@,
            decreases self.keys_order@.len() - i,
        {
            if self.keys_order[i].same(key) {
                proof {
                    lemma_position_is(self@.keys, key@, i as int);
                }
                return Some(i);
            }
            i = i + 1;
        }
        proof {
            lemma_position_none(self@.keys, key@);
        }
        None
    }

    /// The position at which a new entry comes in: behind the others,
    /// whatever its key.
    pub fn get_sorted_idx(&self, key: &Keys) -> (idx: usize)
        ensures
            idx == self@.len(),
    {
        self.keys_order.len()
    }

    /// Puts a new entry behind the others.
    pub fn add(&mut self, key: Keys, data_field: DataField)
        ensures
            final(self)@ == old(self)@.pushed(key@, data_field@),
            old(self).keys_resolved() && key.is_resolved() ==> final(self).keys_resolved(),
    {
        self.keys_order.push(key);
        self.entries.push(data_field);
        assert(self@.keys =~= old(self)@.keys.push(key@));
        assert(self@.values =~= old(self)@.values.push(data_field@));
    }

    /// Gives the first entry whose key is `key` the value `data_field`.
    /// Without such an entry nothing changes.
    pub fn edit(&mut self, key: &Keys, data_field: DataField)
        requires
            old(self)@.wf(),
        ensures
            final(self)@ == old(self)@.edited(key@, data_field@),
            final(self).keys_resolved() == old(self).keys_resolved(),
    {
        match self.position(key) {
            Some(i) => {
                self.entries[i] = data_field;
                assert(self@.values =~= old(self)@.values.update(i as int, data_field@));
            },
            None => {},
        }
    }

    /// Takes out the entry at `idx`, whose key is `key`.
    pub fn delete(&mut self, idx: usize, key: &Keys)
        requires
            old(self)@.wf(),
            idx < old(self)@.len(),
            old(self)@.keys[idx as int] == key@,
        ensures
            final(self)@ == old(self)@.removed(idx as int),
            old(self).keys_resolved() ==> final(self).keys_resolved(),
    {
        self.keys_order.remove(idx);
        self.entries.remove(idx);
        assert(self@.keys =~= old(self)@.keys.remove(idx as int));
        assert(self@.values =~= old(self)@.values.remove(idx as int));
    }

    /// The bytes that all the keys take in the key table, each with its
    /// terminating zero.
    pub fn keys_len(&self) -> (n: usize)
        requires
            keys_len(self@.keys) <= usize::MAX,
        ensures
            n == keys_len(self@.keys),
    {
        let mut sum: usize = 0;
        let mut i: usize = 0;
        while i < self.keys_order.len()
            invariant
                i <= self.keys_order@.len(),
                sum == keys_len_upto(self@.keys, i as int),
                keys_len(self@.keys) <= usize::MAX,
            decreases self.keys_order@.len() - i,
        {
            proof {
                lemma_keys_len_grows(self@.keys, i + 1, self@.keys.len() as int);
            }
            sum = sum + self.keys_order[i].len();
            i = i + 1;
        }
        sum
    }

    /// Goes through the entries from the first on.
    pub fn iter<'a>(&'a self) -> (it: MappingIter<'a>)
        ensures
            it.position() == 0,
            it.source() == self,
    {
        MappingIter::new(self)
    }

    /// Appends the key table, then `padding` zero bytes, then the value
    /// table: every key with its terminating zero, and every value in a
    /// slot as large as its descriptor says, filled up with zeros.
    pub fn export(&self, writer: &mut Vec<u8>, index_table: &IndexTable, padding: usize)
        requires
            self@.wf(),
            index_table@.len() == self@.len(),
            forall|i: int|
                0 <= i < self@.len() ==> (#[trigger] self@.values[i]).payload().len()
                    <= index_table@[i].data_max_len,
        ensures
            final(writer)@ == old(writer)@ + keys_bytes_upto(self@.keys, self@.len() as int)
                + zeros(padding as nat) + slots_bytes_upto(
                self@.values,
                index_table@,
                self@.len() as int,
            ),
    {
        let n: usize = self.keys_order.len();
        let mut i: usize = 0;
        while i < n
            invariant
                n == self@.len(),
                n == self.keys_order@.len(),
                i <= n,
                writer@ == old(writer)@ + keys_bytes_upto(self@.keys, i as int),
            decreases n - i,
        {
            write_all(writer, self.keys_order[i].as_str().as_bytes());
            writer.push(0u8);
            assert(writer@ =~= old(writer)@ + keys_bytes_upto(self@.keys, i + 1));
            i = i + 1;
        }
        write_zeros(writer, padding);
        let ghost keys_done = writer@;
        let mut i: usize = 0;
        while i < n
            invariant
                n == self@.len(),
                n == self.entries@.len(),
                n == index_table@.len(),
                self@.wf(),
                i <= n,
                forall|j: int|
                    0 <= j < self@.len() ==> (#[trigger] self@.values[j]).payload().len()
                        <= index_table@[j].data_max_len,
                writer@ == keys_done + slots_bytes_upto(self@.values, index_table@, i as int),
            decreases n - i,
        {
            assert(self@.values[i as int].payload().len() <= index_table@[i as int].data_max_len);
            self.entries[i].export(writer, index_table.entries[i].data_max_len);
            assert(writer@ =~= keys_done + slots_bytes_upto(self@.values, index_table@, i + 1));
            i = i + 1;
        }
        assert(writer@ =~= old(writer)@ + keys_bytes_upto(self@.keys, self@.len() as int) + zeros(
            padding as nat,
        ) + slots_bytes_upto(self@.values, index_table@, self@.len() as int));
    }
}

/// A walk through the entries of a mapping, from the first on.
pub struct MappingIter<'a> {
    idx: usize,
    mapping: &'a Mapping,
}

impl<'a> MappingIter<'a> {
    /// The number of entries that the walk has passed.
    pub closed spec fn position(&self) -> nat {
        self.idx as nat
    }

    /// The mapping that the walk goes through.
    pub closed spec fn source(&self) -> &Mapping {
        self.mapping
    }

    fn new(mapping: &'a Mapping) -> (it: Self)
        ensures
            it.position() == 0,
            it.source() == mapping,
    {
        Self { idx: 0, mapping }
    }

    /// The number of entries that the walk has passed.
    pub fn idx(&self) -> (i: usize)
        ensures
            i == self.position(),
    {
        self.idx
    }

    /// The next entry, if one is left.
    pub fn next(&mut self) -> (r: Option<(&'a Keys, &'a DataField)>)
        ensures
            final(self).source() == old(self).source(),
            match r {
                Some((key, value)) => {
                    &&& old(self).position() < old(self).source()@.keys.len()
                    &&& old(self).position() < old(self).source()@.values.len()
                    &&& old(self).source().keys_resolved() ==> key.is_resolved()
                    &&& key@ == old(self).source()@.keys[old(self).position() as int]
                    &&& value@ == old(self).source()@.values[old(self).position() as int]
                    &&& final(self).position() == old(self).position() + 1
                },
                None => {
                    &&& (old(self).position() >= old(self).source()@.keys.len() || old(
                        self,
                    ).position() >= old(self).source()@.values.len())
                    &&& final(self).position() == old(self).position()
                },
            },
    {
        let idx: usize = self.idx;
        if idx >= self.mapping.keys_order.len() || idx >= self.mapping.entries.len() {
            return None;
        }
        self.idx = idx + 1;
        Some((&self.mapping.keys_order[idx], &self.mapping.entries[idx]))
    }
}

} // verus!
