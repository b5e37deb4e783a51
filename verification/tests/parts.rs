use sfo::error::{NotFound, ReadErr};
use sfo::format::{Format, FormatErr};
use sfo::header::Header;
use sfo::index_table::{IndexTable, IndexTableEntry};
use sfo::keys::{same_text, Keys};
use sfo::mapping::{check_layout, key_from_buff, DataField, Mapping};
use sfo::text::{find_text_end, holds_no_nul};
use sfo::wire::{read_u16, read_u32, write_all, write_u16, write_u32, write_zeros};

fn text(s: &str) -> DataField {
    DataField::Utf8String(String::from(s))
}

fn entry(key_offset: u16, format: Format, len: u32, max: u32, offset: u32) -> IndexTableEntry {
    IndexTableEntry {
        key_offset,
        data_format: format,
        data_len: len,
        data_max_len: max,
        data_offset: offset,
    }
}

#[test]
fn numbers_are_read_least_significant_byte_first() {
    let bytes = [0xaa, 0x34, 0x12, 0x78, 0x56, 0x34, 0x12, 0xbb];
    assert_eq!(read_u16(&bytes, 1), 0x1234);
    assert_eq!(read_u32(&bytes, 3), 0x12345678);
    assert_eq!(read_u32(&[0xff, 0xff, 0xff, 0xff], 0), u32::MAX);
    assert_eq!(read_u16(&[0xff, 0xff], 0), u16::MAX);
}

#[test]
fn numbers_are_written_least_significant_byte_first() {
    let mut out: Vec<u8> = vec![9];
    write_u16(&mut out, 0x1234);
    write_u32(&mut out, 0x12345678);
    write_u32(&mut out, u32::MAX);
    assert_eq!(out, vec![9, 0x34, 0x12, 0x78, 0x56, 0x34, 0x12, 0xff, 0xff, 0xff, 0xff]);
}

#[test]
fn bytes_and_zeros_are_appended() {
    let mut out: Vec<u8> = vec![1];
    write_all(&mut out, b"ab");
    write_zeros(&mut out, 3);
    write_all(&mut out, b"");
    write_zeros(&mut out, 0);
    assert_eq!(out, vec![1, b'a', b'b', 0, 0, 0]);
}

#[test]
fn a_text_ends_at_its_first_zero() {
    assert_eq!(find_text_end(b"abc\0de\0"), 3);
    assert_eq!(find_text_end(b"abc"), 3);
    assert_eq!(find_text_end(b"\0abc"), 0);
    assert_eq!(find_text_end(b""), 0);
    assert!(holds_no_nul(b"abc"));
    assert!(holds_no_nul(b""));
    assert!(!holds_no_nul(b"ab\0"));
}

#[test]
fn format_tags_are_read() {
    assert_eq!(Format::try_from(&[0x04, 0x00]), Ok(Format::Utf8Special));
    assert_eq!(Format::try_from(&[0x04, 0x02]), Ok(Format::Utf8));
    assert_eq!(Format::try_from(&[0x04, 0x04]), Ok(Format::U32));
    assert_eq!(Format::try_from(&[0x05, 0x02]), Err(FormatErr::BadTag(0x05)));
    assert_eq!(Format::try_from(&[0x02, 0x04]), Err(FormatErr::BadTag(0x02)));
    assert_eq!(Format::try_from(&[0x04, 0x01]), Err(FormatErr::UnknownFormat(0x01)));
    assert_eq!(Format::try_from(&[0x04, 0xff]), Err(FormatErr::UnknownFormat(0xff)));
    assert_eq!(Format::try_from(&[0x05, 0x01]), Err(FormatErr::BadTag(0x05)));
}

#[test]
fn format_tags_are_written() {
    assert_eq!(Format::Utf8Special.export(), [0x04, 0x00]);
    assert_eq!(Format::Utf8.export(), [0x04, 0x02]);
    assert_eq!(Format::U32.export(), [0x04, 0x04]);
    for format in [Format::Utf8Special, Format::Utf8, Format::U32] {
        assert_eq!(Format::try_from(&format.export()), Ok(format));
    }
}

#[test]
fn the_header_is_read_and_written() {
    let bytes = [1, 1, 0, 0, 0x24, 0, 0, 0, 0x2c, 0, 0, 0, 1, 0, 0, 0, 0xee];
    let header = Header::new(&bytes).unwrap();
    assert_eq!(
        header,
        Header { version: 0x0101, key_table_start: 0x24, data_table_start: 0x2c, table_entries: 1 }
    );
    let mut out: Vec<u8> = Vec::new();
    header.export(&mut out);
    assert_eq!(out, &bytes[..16]);
    assert_eq!(Header::new(&bytes[..15]), Err(ReadErr::TruncatedRead));
    assert_eq!(Header::new(&[]), Err(ReadErr::TruncatedRead));
}

#[test]
fn the_header_follows_an_entry_that_comes_in() {
    let mut header =
        Header { version: 1, key_table_start: 20, data_table_start: 20, table_entries: 0 };
    header.add_entry(6, 0, 2);
    assert_eq!(
        header,
        Header { version: 1, key_table_start: 36, data_table_start: 44, table_entries: 1 }
    );
    header.add_entry(8, 2, 2);
    assert_eq!(
        header,
        Header { version: 1, key_table_start: 52, data_table_start: 68, table_entries: 2 }
    );
    header.add_entry(2, 2, 0);
    assert_eq!(
        header,
        Header { version: 1, key_table_start: 68, data_table_start: 84, table_entries: 3 }
    );
}

#[test]
fn the_header_follows_an_entry_that_goes_out() {
    let mut header =
        Header { version: 1, key_table_start: 68, data_table_start: 84, table_entries: 3 };
    header.delete_entry(2, 0, 2);
    assert_eq!(
        header,
        Header { version: 1, key_table_start: 52, data_table_start: 68, table_entries: 2 }
    );
    header.delete_entry(8, 2, 2);
    header.delete_entry(6, 2, 0);
    assert_eq!(
        header,
        Header { version: 1, key_table_start: 20, data_table_start: 20, table_entries: 0 }
    );
}

#[test]
fn the_header_follows_a_change_of_padding() {
    let mut header =
        Header { version: 1, key_table_start: 36, data_table_start: 44, table_entries: 1 };
    header.edit_entry(2, 3);
    assert_eq!(header.data_table_start, 45);
    header.edit_entry(3, 0);
    assert_eq!(header.data_table_start, 42);
    assert_eq!(header.key_table_start, 36);
    assert_eq!(header.table_entries, 1);
}

#[test]
fn catalogue_names_are_resolved() {
    assert_eq!(Keys::from_str("TITLE"), Keys::Title);
    assert!(matches!(Keys::from_str("TITLE"), Keys::Title));
    assert!(matches!(Keys::from_str("ACCOUNT_ID"), Keys::AccountId));
    assert!(matches!(Keys::from_str("ACCOUNTID"), Keys::Accountid));
    assert!(matches!(Keys::from_str("PARENTAL_LEVEL_x"), Keys::ParentalLevelX));
    assert!(matches!(Keys::from_str("PARENTAL_LEVEL"), Keys::ParentalLevel));
    assert!(matches!(Keys::from_str("PARENTALLEVEL"), Keys::Parantallevel));
    assert!(matches!(Keys::from_str("XMB_APPS"), Keys::XmbApps));
    assert!(matches!(Keys::from_str("PARAMS2"), Keys::Params2));
    match Keys::from_str("title") {
        Keys::Unknown(name) => assert_eq!(name, "title"),
        _ => panic!("the catalogue holds no such name"),
    }
    match Keys::from_str("") {
        Keys::Unknown(name) => assert_eq!(name, ""),
        _ => panic!("the catalogue holds no such name"),
    }
    match Keys::from_str("{0}") {
        Keys::Unknown(name) => assert_eq!(name, "{0}"),
        _ => panic!("the catalogue holds no such name"),
    }
}

#[test]
fn every_catalogue_name_comes_back_as_it_went_in() {
    let names = [
        "ACCOUNT_ID", "ACCOUNTID", "ANALOG_MODE", "APP_VER", "ATTRIBUTE", "BOOTABLE", "CATEGORY",
        "CONTENT_ID", "DETAIL", "GAMEDATA_ID", "ITEM_PRIORITY", "LANG", "LICENSE",
        "NP_COMMUNICATION_ID", "NP_COMM_ID", "PADDING", "PARAMS", "PARAMS2", "PARENTAL_LEVEL_x",
        "PARENTAL_LEVEL", "PARENTALLEVEL", "PATCH_FILE", "PS3_SYSTEM_VER", "REGION_DENY",
        "RESOLUTION", "SAVEDATA_DETAIL", "SAVEDATA_DIRECTORY", "SAVEDATA_FILE_LIST",
        "SAVEDATA_LIST_PARAM", "SAVEDATA_PARAMS", "SAVEDATA_TITLE", "SOUND_FORMAT", "SOURCE",
        "SUB_TITLE", "TARGET_APP_VER", "TITLE", "TITLE_ID", "TITLE_XX", "TITLEID0XX", "VERSION",
        "XMB_APPS",
    ];
    assert_eq!(names.len(), 41);
    for name in names {
        let key = Keys::from_str(name);
        assert!(!matches!(key, Keys::Unknown(_)));
        assert_eq!(key.to_string(), name);
        assert_eq!(key.as_str(), name);
        assert_eq!(key.len(), name.len() + 1);
    }
}

#[test]
fn keys_have_names_and_lengths() {
    assert_eq!(Keys::Title.to_string(), "TITLE");
    assert_eq!(Keys::Title.as_str(), "TITLE");
    assert_eq!(Keys::Title.len(), 6);
    assert_eq!(Keys::SavedataListParam.as_str(), "SAVEDATA_LIST_PARAM");
    let key = Keys::Unknown(String::from("h\u{e9}llo"));
    assert_eq!(key.to_string(), "h\u{e9}llo");
    assert_eq!(key.len(), 7);
    assert_eq!(Keys::Unknown(String::new()).len(), 1);
}

#[test]
fn keys_are_the_same_where_their_names_are() {
    assert!(Keys::Title.same(&Keys::Title));
    assert!(!Keys::Title.same(&Keys::TitleId));
    assert!(Keys::Unknown(String::from("X")).same(&Keys::Unknown(String::from("X"))));
    assert!(!Keys::Unknown(String::from("X")).same(&Keys::Unknown(String::from("Y"))));
    assert!(Keys::Unknown(String::from("TITLE")).same(&Keys::Title));
    assert!(Keys::Title == Keys::Unknown(String::from("TITLE")));
    assert!(Keys::Title != Keys::Version);
    assert!(same_text("abc", "abc"));
    assert!(!same_text("abc", "abd"));
    assert!(!same_text("abc", "ab"));
    assert!(same_text("", ""));
}

#[test]
fn a_key_is_read_up_to_its_first_zero() {
    assert_eq!(key_from_buff(b"TITLE\0\0\0"), Ok(Keys::Title));
    assert!(matches!(key_from_buff(b"TITLE\0\0\0"), Ok(Keys::Title)));
    assert!(matches!(key_from_buff(b"TITLE"), Ok(Keys::Title)));
    assert!(matches!(key_from_buff(b"TITLE\0ID"), Ok(Keys::Title)));
    match key_from_buff(b"MINE\0") {
        Ok(Keys::Unknown(name)) => assert_eq!(name, "MINE"),
        _ => panic!("the catalogue holds no such name"),
    }
    match key_from_buff(b"") {
        Ok(Keys::Unknown(name)) => assert_eq!(name, ""),
        _ => panic!("the catalogue holds no such name"),
    }
}

#[test]
fn a_key_must_be_utf8() {
    assert_eq!(key_from_buff(&[b'A', 0xff, 0]), Err(ReadErr::InvalidUtf8));
    assert_eq!(key_from_buff(&[0xc3]), Err(ReadErr::InvalidUtf8));
    assert_eq!(key_from_buff(&[0xed, 0xa0, 0x80, 0]), Err(ReadErr::InvalidUtf8));
    match key_from_buff(&[b'h', 0xc3, 0xa9, 0, 0xff]) {
        Ok(Keys::Unknown(name)) => assert_eq!(name, "h\u{e9}"),
        _ => panic!("the bytes before the zero are UTF-8"),
    }
}

#[test]
fn values_have_slot_sizes_and_formats() {
    assert_eq!(text("Test").len(), 5);
    assert_eq!(text("").len(), 1);
    assert_eq!(text("h\u{e9}").len(), 4);
    assert_eq!(DataField::U32(0).len(), 4);
    assert_eq!(DataField::U32(u32::MAX).len(), 4);
    assert_eq!(text("Test").format(), Format::Utf8);
    assert_eq!(DataField::U32(1).format(), Format::U32);
    assert!(text("Test").fits());
    assert!(DataField::U32(1).fits());
    assert_eq!(text("Test").payload_len(), 4);
    assert_eq!(text("h\u{e9}").payload_len(), 3);
    assert_eq!(text("").payload_len(), 0);
    assert_eq!(DataField::U32(9).payload_len(), 4);
}

#[test]
fn values_are_read_by_format() {
    assert_eq!(DataField::from_slot(Format::U32, &[7, 0, 0, 0]), Ok(DataField::U32(7)));
    assert_eq!(
        DataField::from_slot(Format::U32, &[0x78, 0x56, 0x34, 0x12, 9, 9]),
        Ok(DataField::U32(0x12345678))
    );
    assert_eq!(DataField::from_slot(Format::U32, &[7, 0, 0]), Err(ReadErr::TruncatedRead));
    assert_eq!(DataField::from_slot(Format::Utf8, b"Test\0"), Ok(text("Test")));
    assert_eq!(DataField::from_slot(Format::Utf8, b"Test\0\0\0"), Ok(text("Test")));
    assert_eq!(DataField::from_slot(Format::Utf8, b"Test"), Ok(text("Test")));
    assert_eq!(DataField::from_slot(Format::Utf8, b""), Ok(text("")));
    assert_eq!(DataField::from_slot(Format::Utf8, &[b'a', 0, 0xff]), Ok(text("a")));
    assert_eq!(DataField::from_slot(Format::Utf8, &[0xff, 0]), Err(ReadErr::InvalidUtf8));
    assert_eq!(DataField::from_slot(Format::Utf8Special, b"ab\0c"), Ok(text("ab\0c")));
    assert_eq!(DataField::from_slot(Format::Utf8Special, b"ab"), Ok(text("ab")));
    assert_eq!(
        DataField::from_slot(Format::Utf8Special, &[b'a', 0, 0xff]),
        Err(ReadErr::InvalidUtf8)
    );
}

#[test]
fn values_are_written_into_slots() {
    let mut out: Vec<u8> = Vec::new();
    text("Te").export(&mut out, 3);
    assert_eq!(out, b"Te\0");
    text("Te").export(&mut out, 5);
    assert_eq!(out, b"Te\0Te\0\0\0");
    text("Te").export(&mut out, 2);
    assert_eq!(out, b"Te\0Te\0\0\0Te");
    let mut out: Vec<u8> = Vec::new();
    DataField::U32(0x01020304).export(&mut out, 4);
    DataField::U32(5).export(&mut out, 6);
    assert_eq!(out, vec![4, 3, 2, 1, 5, 0, 0, 0, 0, 0]);
}

#[test]
fn a_descriptor_is_read_and_written() {
    let bytes = [0x06, 0x00, 0x04, 0x04, 4, 0, 0, 0, 8, 0, 0, 0, 5, 0, 0, 0];
    let read = IndexTableEntry::new(&bytes).unwrap();
    assert_eq!(read, entry(6, Format::U32, 4, 8, 5));
    let mut out: Vec<u8> = Vec::new();
    read.export(&mut out);
    assert_eq!(out, bytes);
    assert_eq!(IndexTableEntry::new(&bytes[..15]), Err(ReadErr::TruncatedRead));
    assert_eq!(IndexTableEntry::new(&bytes[..3]), Err(ReadErr::TruncatedRead));
    let mut shifted: Vec<u8> = vec![0xee, 0xee];
    shifted.extend_from_slice(&bytes);
    assert_eq!(IndexTableEntry::read_at(&shifted, 2), Ok(read));
}

#[test]
fn a_descriptor_is_made_for_a_value() {
    assert_eq!(
        IndexTableEntry::for_data_field(&text("Test"), 3, 9),
        entry(3, Format::Utf8, 5, 5, 9)
    );
    assert_eq!(
        IndexTableEntry::for_data_field(&DataField::U32(1), 0, 0),
        entry(0, Format::U32, 4, 4, 0)
    );
}

fn table() -> IndexTable {
    IndexTable {
        entries: vec![
            entry(0, Format::Utf8, 5, 5, 0),
            entry(6, Format::U32, 4, 4, 5),
            entry(14, Format::Utf8, 3, 8, 9),
        ],
    }
}

#[test]
fn the_table_is_read_and_written() {
    let mut bytes: Vec<u8> = Vec::new();
    table().export(&mut bytes);
    assert_eq!(bytes.len(), 48);
    assert_eq!(&bytes[16..20], &[6, 0, 4, 4]);
    let header =
        Header { version: 0, key_table_start: 0, data_table_start: 0, table_entries: 3 };
    let read = IndexTable::new(&bytes, &header).unwrap();
    assert_eq!(read.entries, table().entries);
    let fewer = Header { version: 0, key_table_start: 0, data_table_start: 0, table_entries: 2 };
    assert_eq!(IndexTable::new(&bytes, &fewer).unwrap().entries, &table().entries[..2]);
    let more = Header { version: 0, key_table_start: 0, data_table_start: 0, table_entries: 4 };
    assert_eq!(IndexTable::new(&bytes, &more).err(), Some(ReadErr::TruncatedRead));
    let many = Header {
        version: 0,
        key_table_start: 0,
        data_table_start: 0,
        table_entries: u32::MAX,
    };
    assert_eq!(IndexTable::new(&bytes, &many).err(), Some(ReadErr::TruncatedRead));
    bytes[34] = 9;
    assert_eq!(IndexTable::new(&bytes, &header).err(), Some(ReadErr::BadFormatTag(9)));
}

#[test]
fn a_descriptor_comes_into_the_table() {
    let mut t = table();
    t.add(1, 4, &text("ab"), 99);
    assert_eq!(
        t.entries,
        vec![
            entry(0, Format::Utf8, 5, 5, 0),
            entry(6, Format::Utf8, 3, 3, 5),
            entry(10, Format::U32, 4, 4, 8),
            entry(18, Format::Utf8, 3, 8, 12),
        ]
    );
    let mut t = table();
    t.add(3, 4, &DataField::U32(1), 20);
    assert_eq!(t.entries[3], entry(20, Format::U32, 4, 4, 17));
    assert_eq!(&t.entries[..3], &table().entries[..]);
    let mut t = IndexTable { entries: Vec::new() };
    t.add(0, 6, &text("Test"), 0);
    assert_eq!(t.entries, vec![entry(0, Format::Utf8, 5, 5, 0)]);
}

#[test]
fn a_descriptor_is_made_anew() {
    let mut t = table();
    assert_eq!(t.edit(0, &text("Te")), Ok(()));
    assert_eq!(
        t.entries,
        vec![
            entry(0, Format::Utf8, 3, 3, 0),
            entry(6, Format::U32, 4, 4, 3),
            entry(14, Format::Utf8, 3, 8, 7),
        ]
    );
    let mut t = table();
    assert_eq!(t.edit(2, &DataField::U32(1)), Ok(()));
    assert_eq!(t.entries[2], entry(14, Format::U32, 4, 4, 9));
    let mut t = table();
    assert_eq!(t.edit(1, &text("longer text")), Ok(()));
    assert_eq!(t.entries[1], entry(6, Format::Utf8, 12, 12, 5));
    assert_eq!(t.entries[2], entry(14, Format::Utf8, 3, 8, 17));
    let mut t = table();
    assert_eq!(t.edit(3, &text("Te")), Err(NotFound));
    assert_eq!(t.entries, table().entries);
}

#[test]
fn a_descriptor_goes_out_of_the_table() {
    let mut t = table();
    t.delete(0, 6);
    assert_eq!(
        t.entries,
        vec![entry(0, Format::U32, 4, 4, 0), entry(8, Format::Utf8, 3, 8, 4)]
    );
    let mut t = table();
    t.delete(2, 5);
    assert_eq!(&t.entries[..], &table().entries[..2]);
    let mut t = table();
    t.delete(1, 8);
    assert_eq!(
        t.entries,
        vec![entry(0, Format::Utf8, 5, 5, 0), entry(6, Format::Utf8, 3, 8, 5)]
    );
}

#[test]
fn the_layout_is_checked() {
    let header =
        Header { version: 0, key_table_start: 68, data_table_start: 92, table_entries: 3 };
    assert!(check_layout(&table(), &header));
    let empty = IndexTable { entries: Vec::new() };
    let none = Header { version: 0, key_table_start: 20, data_table_start: 20, table_entries: 0 };
    assert!(check_layout(&empty, &none));
    assert!(!check_layout(&empty, &header));
    let off = Header { version: 0, key_table_start: 68, data_table_start: 90, table_entries: 3 };
    assert!(!check_layout(&table(), &off));
    let short = Header { version: 0, key_table_start: 68, data_table_start: 80, table_entries: 3 };
    assert!(!check_layout(&table(), &short));
    let mut t = table();
    t.entries[2].data_offset = 10;
    assert!(!check_layout(&t, &header));
    let mut t = table();
    t.entries[1].key_offset = 14;
    assert!(!check_layout(&t, &header));
}

fn key_and_value_tables() -> Vec<u8> {
    let mut bytes: Vec<u8> = Vec::new();
    bytes.extend_from_slice(b"TITLE\0VERSION\0MINE\0\0");
    bytes.extend_from_slice(b"Test\0");
    bytes.extend_from_slice(&[7, 0, 0, 0]);
    bytes.extend_from_slice(b"ab\0\0\0\0\0\0");
    bytes
}

fn mapping() -> Mapping {
    let header =
        Header { version: 0, key_table_start: 68, data_table_start: 88, table_entries: 3 };
    Mapping::new(&key_and_value_tables(), &table(), &header).unwrap()
}

#[test]
fn keys_and_values_are_read_and_written() {
    let m = mapping();
    assert_eq!(m.len(), 3);
    assert!(m.is_wf());
    assert_eq!(*m.key(0), Keys::Title);
    assert_eq!(*m.key(1), Keys::Version);
    assert_eq!(*m.key(2), Keys::Unknown(String::from("MINE")));
    assert_eq!(*m.value(0), text("Test"));
    assert_eq!(*m.value(1), DataField::U32(7));
    assert_eq!(*m.value(2), text("ab"));
    assert_eq!(m.keys_len(), 19);
    let mut out: Vec<u8> = Vec::new();
    m.export(&mut out, &table(), 1);
    assert_eq!(out, key_and_value_tables());
}

#[test]
fn keys_are_found_by_name() {
    let m = mapping();
    assert_eq!(m.position(&Keys::Title), Some(0));
    assert_eq!(m.position(&Keys::Version), Some(1));
    assert_eq!(m.position(&Keys::Unknown(String::from("MINE"))), Some(2));
    assert_eq!(m.position(&Keys::Category), None);
    assert_eq!(m.get_sorted_idx(&Keys::Category), 3);
    assert_eq!(m.get_sorted_idx(&Keys::AccountId), 3);
    assert_eq!(m.get_sorted_idx(&Keys::Title), 3);
}

#[test]
fn keys_and_values_change_in_memory() {
    let mut m = mapping();
    m.add(Keys::Category, text("HG"));
    assert_eq!(m.len(), 4);
    assert_eq!(*m.key(3), Keys::Category);
    assert_eq!(*m.value(3), text("HG"));
    assert_eq!(m.keys_len(), 28);
    m.edit(&Keys::Version, DataField::U32(8));
    assert_eq!(*m.value(1), DataField::U32(8));
    assert_eq!(*m.value(0), text("Test"));
    m.edit(&Keys::Lang, DataField::U32(9));
    assert_eq!(m.len(), 4);
    m.delete(0, &Keys::Title);
    assert_eq!(m.len(), 3);
    assert_eq!(*m.key(0), Keys::Version);
    assert_eq!(*m.value(0), DataField::U32(8));
    assert_eq!(m.keys_len(), 22);
}

#[test]
fn a_walk_goes_through_keys_and_values() {
    let m = mapping();
    let mut walk = m.iter();
    assert_eq!(walk.idx(), 0);
    assert_eq!(walk.next(), Some((&Keys::Title, &text("Test"))));
    assert_eq!(walk.next(), Some((&Keys::Version, &DataField::U32(7))));
    assert_eq!(walk.idx(), 2);
    assert!(walk.next().is_some());
    assert_eq!(walk.next(), None);
    assert_eq!(walk.next(), None);
    assert_eq!(walk.idx(), 3);
}
