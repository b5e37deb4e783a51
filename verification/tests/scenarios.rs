use sfo::container::Sfo;
use sfo::error::NotFound;
use sfo::format::Format;
use sfo::keys::Keys;
use sfo::mapping::DataField;

fn empty_image() -> Vec<u8> {
    let mut image: Vec<u8> = Vec::new();
    image.extend_from_slice(&[0x00, 0x50, 0x53, 0x46]);
    image.extend_from_slice(&[0x01, 0x01, 0x00, 0x00]);
    image.extend_from_slice(&[0x14, 0x00, 0x00, 0x00]);
    image.extend_from_slice(&[0x14, 0x00, 0x00, 0x00]);
    image.extend_from_slice(&[0x00, 0x00, 0x00, 0x00]);
    image
}

fn title_image() -> Vec<u8> {
    let mut image: Vec<u8> = Vec::new();
    image.extend_from_slice(&[0x00, 0x50, 0x53, 0x46]);
    image.extend_from_slice(&[0x01, 0x01, 0x00, 0x00]);
    image.extend_from_slice(&[0x24, 0x00, 0x00, 0x00]);
    image.extend_from_slice(&[0x2C, 0x00, 0x00, 0x00]);
    image.extend_from_slice(&[0x01, 0x00, 0x00, 0x00]);
    image.extend_from_slice(&[0x00, 0x00, 0x04, 0x02]);
    image.extend_from_slice(&[0x05, 0x00, 0x00, 0x00]);
    image.extend_from_slice(&[0x05, 0x00, 0x00, 0x00]);
    image.extend_from_slice(&[0x00, 0x00, 0x00, 0x00]);
    image.extend_from_slice(b"TITLE\0\0\0");
    image.extend_from_slice(b"Test\0");
    image
}

/// Two entries: `TITLE` = "Test" and `VERSION` = 7.
fn two_entry_image() -> Vec<u8> {
    let mut image: Vec<u8> = Vec::new();
    image.extend_from_slice(&[0x00, 0x50, 0x53, 0x46]);
    image.extend_from_slice(&[0x01, 0x01, 0x00, 0x00]);
    image.extend_from_slice(&[0x34, 0x00, 0x00, 0x00]);
    image.extend_from_slice(&[0x44, 0x00, 0x00, 0x00]);
    image.extend_from_slice(&[0x02, 0x00, 0x00, 0x00]);
    image.extend_from_slice(&[0x00, 0x00, 0x04, 0x02]);
    image.extend_from_slice(&[0x05, 0x00, 0x00, 0x00]);
    image.extend_from_slice(&[0x05, 0x00, 0x00, 0x00]);
    image.extend_from_slice(&[0x00, 0x00, 0x00, 0x00]);
    image.extend_from_slice(&[0x06, 0x00, 0x04, 0x04]);
    image.extend_from_slice(&[0x04, 0x00, 0x00, 0x00]);
    image.extend_from_slice(&[0x04, 0x00, 0x00, 0x00]);
    image.extend_from_slice(&[0x05, 0x00, 0x00, 0x00]);
    image.extend_from_slice(b"TITLE\0VERSION\0\0\0");
    image.extend_from_slice(b"Test\0");
    image.extend_from_slice(&[0x07, 0x00, 0x00, 0x00]);
    image
}

fn export(sfo: &Sfo) -> Vec<u8> {
    let mut out: Vec<u8> = Vec::new();
    sfo.export(&mut out);
    out
}

fn text(s: &str) -> DataField {
    DataField::Utf8String(String::from(s))
}

#[test]
fn parses_the_title_image() {
    let image = title_image();
    let sfo = Sfo::new(&image).unwrap();
    assert_eq!(sfo.magic, [0x00, 0x50, 0x53, 0x46]);
    assert_eq!(sfo.header.version, 0x0101);
    assert_eq!(sfo.header.key_table_start, 0x24);
    assert_eq!(sfo.header.data_table_start, 0x2C);
    assert_eq!(sfo.header.table_entries, 1);
    assert_eq!(sfo.index_table.entries.len(), 1);
    let entry = sfo.index_table.entries[0];
    assert_eq!(entry.key_offset, 0);
    assert_eq!(entry.data_format, Format::Utf8);
    assert_eq!(entry.data_len, 5);
    assert_eq!(entry.data_max_len, 5);
    assert_eq!(entry.data_offset, 0);
    assert_eq!(sfo.padding, 2);
    assert_eq!(sfo.entries_mapping.len(), 1);
    assert_eq!(*sfo.entries_mapping.key(0), Keys::Title);
    assert_eq!(*sfo.entries_mapping.value(0), text("Test"));
}

#[test]
fn writes_the_title_image_back() {
    let image = title_image();
    let sfo = Sfo::new(&image).unwrap();
    assert_eq!(export(&sfo), image);
}

#[test]
fn builds_the_title_image_from_an_empty_container() {
    let mut sfo = Sfo::new(&empty_image()).unwrap();
    assert!(sfo.can_add(&Keys::Title, &text("Test")));
    sfo.add(Keys::Title, text("Test"));
    assert_eq!(sfo.header.key_table_start, 0x24);
    assert_eq!(sfo.header.data_table_start, 0x2C);
    assert_eq!(sfo.header.table_entries, 1);
    assert_eq!(sfo.padding, 2);
    assert_eq!(export(&sfo), title_image());
}

#[test]
fn builds_the_two_entry_image_by_adding() {
    let mut sfo = Sfo::new(&title_image()).unwrap();
    sfo.add(Keys::Version, DataField::U32(7));
    assert_eq!(sfo.index_table.entries[1].key_offset, 6);
    assert_eq!(sfo.index_table.entries[1].data_offset, 5);
    assert_eq!(sfo.index_table.entries[1].data_format, Format::U32);
    assert_eq!(sfo.index_table.entries[1].data_len, 4);
    assert_eq!(sfo.index_table.entries[1].data_max_len, 4);
    assert_eq!(export(&sfo), two_entry_image());
}

#[test]
fn deleting_the_only_entry_leaves_an_empty_container() {
    let mut sfo = Sfo::new(&title_image()).unwrap();
    assert_eq!(sfo.delete(&Keys::Title), Ok(()));
    assert_eq!(sfo.header.table_entries, 0);
    assert_eq!(sfo.header.key_table_start, 20);
    assert_eq!(sfo.header.data_table_start, sfo.header.key_table_start);
    assert_eq!(sfo.padding, 0);
    assert_eq!(sfo.index_table.entries.len(), 0);
    assert_eq!(sfo.entries_mapping.len(), 0);
    assert_eq!(export(&sfo), empty_image());
}

#[test]
fn editing_the_only_entry_shrinks_its_slot() {
    let mut sfo = Sfo::new(&title_image()).unwrap();
    assert!(sfo.can_edit(&Keys::Title, &text("Te")));
    assert_eq!(sfo.edit(&Keys::Title, text("Te")), Ok(()));
    let entry = sfo.index_table.entries[0];
    assert_eq!(entry.data_len, 3);
    assert_eq!(entry.data_max_len, 3);
    assert_eq!(entry.data_offset, 0);
    assert_eq!(entry.key_offset, 0);
    assert_eq!(sfo.header.data_table_start, 0x2C);
    let out = export(&sfo);
    assert_eq!(&out[0x2C..], b"Te\0");
}

#[test]
fn editing_the_first_of_two_entries_moves_the_second_slot() {
    let mut sfo = Sfo::new(&two_entry_image()).unwrap();
    assert_eq!(sfo.index_table.entries[1].data_offset, 5);
    assert_eq!(sfo.edit(&Keys::Title, text("Te")), Ok(()));
    assert_eq!(sfo.index_table.entries[0].data_len, 3);
    assert_eq!(sfo.index_table.entries[0].data_max_len, 3);
    assert_eq!(sfo.index_table.entries[1].data_offset, 3);
    assert_eq!(sfo.index_table.entries[1].key_offset, 6);
    let out = export(&sfo);
    assert_eq!(&out[0x44..], &[b'T', b'e', 0, 7, 0, 0, 0]);
    let again = Sfo::new(&out).unwrap();
    assert_eq!(*again.entries_mapping.value(0), text("Te"));
    assert_eq!(*again.entries_mapping.value(1), DataField::U32(7));
}

#[test]
fn editing_a_text_into_a_number_changes_the_format() {
    let mut sfo = Sfo::new(&two_entry_image()).unwrap();
    assert_eq!(sfo.edit(&Keys::Title, DataField::U32(0x01020304)), Ok(()));
    assert_eq!(sfo.index_table.entries[0].data_format, Format::U32);
    assert_eq!(sfo.index_table.entries[0].data_len, 4);
    assert_eq!(sfo.index_table.entries[0].data_max_len, 4);
    assert_eq!(sfo.index_table.entries[1].data_offset, 4);
    let out = export(&sfo);
    assert_eq!(&out[0x44..], &[4, 3, 2, 1, 7, 0, 0, 0]);
}

#[test]
fn editing_an_absent_key_changes_nothing() {
    let mut sfo = Sfo::new(&two_entry_image()).unwrap();
    assert!(sfo.can_edit(&Keys::Category, &text("HG")));
    assert_eq!(sfo.edit(&Keys::Category, text("HG")), Err(NotFound));
    assert_eq!(export(&sfo), two_entry_image());
}

#[test]
fn deleting_an_absent_key_changes_nothing() {
    let mut sfo = Sfo::new(&two_entry_image()).unwrap();
    assert_eq!(sfo.delete(&Keys::Unknown(String::from("NOPE"))), Err(NotFound));
    assert_eq!(export(&sfo), two_entry_image());
}

#[test]
fn deleting_what_was_added_gives_the_image_back() {
    let mut sfo = Sfo::new(&two_entry_image()).unwrap();
    let key = Keys::Unknown(String::from("MY_KEY"));
    assert!(sfo.can_add(&key, &text("some value")));
    sfo.add(Keys::Unknown(String::from("MY_KEY")), text("some value"));
    assert_ne!(export(&sfo), two_entry_image());
    assert_eq!(sfo.header.table_entries, 3);
    assert_eq!(sfo.delete(&key), Ok(()));
    assert_eq!(export(&sfo), two_entry_image());
}

#[test]
fn deleting_the_first_of_two_entries_moves_the_second_up() {
    let mut sfo = Sfo::new(&two_entry_image()).unwrap();
    assert_eq!(sfo.delete(&Keys::Title), Ok(()));
    assert_eq!(sfo.header.table_entries, 1);
    assert_eq!(sfo.header.key_table_start, 0x24);
    assert_eq!(sfo.header.data_table_start, 0x2C);
    assert_eq!(sfo.padding, 0);
    let entry = sfo.index_table.entries[0];
    assert_eq!(entry.key_offset, 0);
    assert_eq!(entry.data_offset, 0);
    assert_eq!(entry.data_format, Format::U32);
    let out = export(&sfo);
    assert_eq!(&out[0x24..], b"VERSION\0\x07\0\0\0");
    assert!(Sfo::new(&out).is_ok());
}

#[test]
fn adding_a_key_that_is_there_replaces_its_value() {
    let mut sfo = Sfo::new(&two_entry_image()).unwrap();
    sfo.add(Keys::Title, text("Other"));
    assert_eq!(sfo.header.table_entries, 2);
    assert_eq!(sfo.entries_mapping.len(), 2);
    assert_eq!(*sfo.entries_mapping.value(0), text("Other"));
    assert_eq!(sfo.index_table.entries[0].data_max_len, 6);
    assert_eq!(sfo.index_table.entries[1].data_offset, 6);
}

#[test]
fn counts_and_key_table_span_agree_after_every_change() {
    let mut sfo = Sfo::new(&empty_image()).unwrap();
    let names = ["A", "BC", "DEF", "GHIJ", "KLMNO"];
    for (i, name) in names.iter().enumerate() {
        sfo.add(Keys::from_str(name), DataField::U32(i as u32));
        let count = sfo.header.table_entries as usize;
        assert_eq!(count, i + 1);
        assert_eq!(sfo.index_table.entries.len(), count);
        assert_eq!(sfo.entries_mapping.len(), count);
        let span = (sfo.header.data_table_start - sfo.header.key_table_start) as usize;
        assert_eq!(span, sfo.entries_mapping.keys_len() + sfo.padding);
        assert!(sfo.padding <= 3);
        assert_eq!(span % 4, 0);
    }
    assert_eq!(sfo.entries_mapping.keys_len(), 2 + 3 + 4 + 5 + 6);
    for name in names.iter() {
        assert_eq!(sfo.delete(&Keys::from_str(name)), Ok(()));
        let count = sfo.header.table_entries as usize;
        assert_eq!(sfo.index_table.entries.len(), count);
        assert_eq!(sfo.entries_mapping.len(), count);
        let span = (sfo.header.data_table_start - sfo.header.key_table_start) as usize;
        assert_eq!(span, sfo.entries_mapping.keys_len() + sfo.padding);
        assert!(sfo.padding <= 3);
    }
    assert_eq!(export(&sfo), empty_image());
}

#[test]
fn a_slot_with_room_to_spare_is_written_back_as_it_was() {
    let mut image: Vec<u8> = Vec::new();
    image.extend_from_slice(&[0x00, 0x50, 0x53, 0x46]);
    image.extend_from_slice(&[0x01, 0x01, 0x00, 0x00]);
    image.extend_from_slice(&[0x24, 0x00, 0x00, 0x00]);
    image.extend_from_slice(&[0x2C, 0x00, 0x00, 0x00]);
    image.extend_from_slice(&[0x01, 0x00, 0x00, 0x00]);
    image.extend_from_slice(&[0x00, 0x00, 0x04, 0x02]);
    image.extend_from_slice(&[0x05, 0x00, 0x00, 0x00]);
    image.extend_from_slice(&[0x10, 0x00, 0x00, 0x00]);
    image.extend_from_slice(&[0x00, 0x00, 0x00, 0x00]);
    image.extend_from_slice(b"TITLE\0\0\0");
    image.extend_from_slice(b"Test\0\0\0\0\0\0\0\0\0\0\0\0");
    let sfo = Sfo::new(&image).unwrap();
    assert_eq!(sfo.index_table.entries[0].data_len, 5);
    assert_eq!(sfo.index_table.entries[0].data_max_len, 16);
    assert_eq!(*sfo.entries_mapping.value(0), text("Test"));
    assert_eq!(export(&sfo), image);
}

#[test]
fn an_edit_keeps_no_room_to_spare() {
    let mut image: Vec<u8> = Vec::new();
    image.extend_from_slice(&[0x00, 0x50, 0x53, 0x46]);
    image.extend_from_slice(&[0x01, 0x01, 0x00, 0x00]);
    image.extend_from_slice(&[0x34, 0x00, 0x00, 0x00]);
    image.extend_from_slice(&[0x44, 0x00, 0x00, 0x00]);
    image.extend_from_slice(&[0x02, 0x00, 0x00, 0x00]);
    image.extend_from_slice(&[0x00, 0x00, 0x04, 0x02]);
    image.extend_from_slice(&[0x05, 0x00, 0x00, 0x00]);
    image.extend_from_slice(&[0x08, 0x00, 0x00, 0x00]);
    image.extend_from_slice(&[0x00, 0x00, 0x00, 0x00]);
    image.extend_from_slice(&[0x06, 0x00, 0x04, 0x04]);
    image.extend_from_slice(&[0x04, 0x00, 0x00, 0x00]);
    image.extend_from_slice(&[0x04, 0x00, 0x00, 0x00]);
    image.extend_from_slice(&[0x08, 0x00, 0x00, 0x00]);
    image.extend_from_slice(b"TITLE\0VERSION\0\0\0");
    image.extend_from_slice(b"Test\0\0\0\0");
    image.extend_from_slice(&[0x07, 0x00, 0x00, 0x00]);
    let mut sfo = Sfo::new(&image).unwrap();
    assert_eq!(export(&sfo), image);
    assert_eq!(sfo.edit(&Keys::Title, text("Test")), Ok(()));
    assert_eq!(sfo.index_table.entries[0].data_len, 5);
    assert_eq!(sfo.index_table.entries[0].data_max_len, 5);
    assert_eq!(sfo.index_table.entries[1].data_offset, 5);
    assert_eq!(export(&sfo), two_entry_image());
}

#[test]
fn walks_through_the_entries_in_order() {
    let image = two_entry_image();
    let sfo = Sfo::new(&image).unwrap();
    let mut walk = sfo.iter();
    let (key, entry) = walk.next().unwrap();
    assert_eq!(*key, Keys::Title);
    assert_eq!(*entry.data, text("Test"));
    assert_eq!(*entry.index_table_entry, sfo.index_table.entries[0]);
    let (key, entry) = walk.next().unwrap();
    assert_eq!(*key, Keys::Version);
    assert_eq!(*entry.data, DataField::U32(7));
    assert_eq!(entry.index_table_entry.data_offset, 5);
    assert!(walk.next().is_none());
    assert!(walk.next().is_none());
    let mut again = sfo.iter();
    assert!(again.next().is_some());
}

#[test]
fn what_is_written_is_read_back_as_it_was() {
    let mut sfo = Sfo::new(&empty_image()).unwrap();
    sfo.add(Keys::Title, text("A game"));
    sfo.add(Keys::ParentalLevel, DataField::U32(5));
    sfo.add(Keys::Unknown(String::from("h\u{e9}llo")), text("w\u{f6}rld"));
    sfo.add(Keys::Category, text(""));
    assert!(sfo.is_wf());
    let image = export(&sfo);
    let again = Sfo::new(&image).unwrap();
    assert_eq!(again.header, sfo.header);
    assert_eq!(again.index_table.entries, sfo.index_table.entries);
    assert_eq!(again.padding, sfo.padding);
    assert_eq!(again.entries_mapping.len(), 4);
    for i in 0..4 {
        assert_eq!(again.entries_mapping.key(i), sfo.entries_mapping.key(i));
        assert_eq!(again.entries_mapping.value(i), sfo.entries_mapping.value(i));
    }
    assert_eq!(export(&again), image);
}

#[test]
fn a_text_with_a_zero_byte_cannot_be_stored() {
    let mut sfo = Sfo::new(&title_image()).unwrap();
    assert!(!sfo.can_add(&Keys::Category, &text("a\0b")));
    assert!(!sfo.can_add(&Keys::Title, &text("a\0b")));
    assert!(!sfo.can_edit(&Keys::Title, &text("\0")));
    assert!(sfo.can_edit(&Keys::Category, &text("a\0b")));
    assert_eq!(sfo.edit(&Keys::Category, text("a\0b")), Err(NotFound));
    assert!(sfo.can_add(&Keys::Category, &text("ab")));
    assert!(!text("a\0b").is_writable());
    assert!(text("ab").is_writable());
    assert!(DataField::U32(0).is_writable());
}

#[test]
fn a_key_with_a_zero_byte_cannot_be_stored() {
    let sfo = Sfo::new(&title_image()).unwrap();
    assert!(!sfo.can_add(&Keys::Unknown(String::from("A\0B")), &text("x")));
    assert!(sfo.can_add(&Keys::Unknown(String::from("AB")), &text("x")));
    assert!(sfo.can_add(&Keys::Unknown(String::new()), &text("x")));
}

#[test]
fn keys_must_start_where_two_bytes_can_say() {
    let mut sfo = Sfo::new(&empty_image()).unwrap();
    let long = "K".repeat(39_999);
    let first = Keys::Unknown(format!("A{long}"));
    let second = Keys::Unknown(format!("B{long}"));
    let third = Keys::Unknown(String::from("C"));
    assert!(sfo.can_add(&first, &DataField::U32(1)));
    sfo.add(Keys::Unknown(format!("A{long}")), DataField::U32(1));
    assert_eq!(sfo.entries_mapping.keys_len(), 40_001);
    assert!(sfo.can_add(&second, &DataField::U32(2)));
    sfo.add(Keys::Unknown(format!("B{long}")), DataField::U32(2));
    assert_eq!(sfo.index_table.entries[1].key_offset, 40_001);
    assert_eq!(sfo.entries_mapping.keys_len(), 80_002);
    assert!(!sfo.can_add(&third, &DataField::U32(3)));
    assert!(sfo.can_edit(&first, &DataField::U32(3)));
    assert!(sfo.is_wf());
    let image = export(&sfo);
    assert!(Sfo::new(&image).is_ok());
    assert_eq!(sfo.delete(&second), Ok(()));
    assert!(sfo.can_add(&third, &DataField::U32(3)));
}

#[test]
fn a_key_must_be_shorter_than_two_bytes_can_say() {
    let sfo = Sfo::new(&empty_image()).unwrap();
    assert!(sfo.can_add(&Keys::Unknown("K".repeat(0xfffe)), &DataField::U32(1)));
    assert!(!sfo.can_add(&Keys::Unknown("K".repeat(0xffff)), &DataField::U32(1)));
}

#[test]
fn a_container_that_contradicts_itself_is_told_apart() {
    let mut sfo = Sfo::new(&two_entry_image()).unwrap();
    assert!(sfo.is_wf());
    sfo.padding = 3;
    assert!(!sfo.is_wf());
    sfo.padding = 2;
    assert!(sfo.is_wf());
    sfo.header.table_entries = 3;
    assert!(!sfo.is_wf());
    sfo.header.table_entries = 2;
    sfo.index_table.entries[1].data_offset = 4;
    assert!(!sfo.is_wf());
    sfo.index_table.entries[1].data_offset = 5;
    sfo.index_table.entries[1].key_offset = 7;
    assert!(!sfo.is_wf());
    sfo.index_table.entries[1].key_offset = 6;
    sfo.index_table.entries[1].data_max_len = 3;
    assert!(!sfo.is_wf());
    sfo.index_table.entries[1].data_max_len = 4;
    sfo.magic[1] = 0x51;
    assert!(!sfo.is_wf());
    sfo.magic[1] = 0x50;
    sfo.header.data_table_start = 0x48;
    assert!(!sfo.is_wf());
    sfo.header.data_table_start = 0x44;
    sfo.header.key_table_start = 0x30;
    assert!(!sfo.is_wf());
    sfo.header.key_table_start = 0x34;
    assert!(sfo.is_wf());
}

#[test]
fn positions_and_padding_are_worked_out() {
    let sfo = Sfo::new(&two_entry_image()).unwrap();
    assert_eq!(sfo.get_idx(&Keys::Title), Ok(0));
    assert_eq!(sfo.get_idx(&Keys::Version), Ok(1));
    assert_eq!(sfo.get_idx(&Keys::Lang), Err(NotFound));
    assert_eq!(sfo.calculate_padding(), 2);
    let sfo = Sfo::new(&empty_image()).unwrap();
    assert_eq!(sfo.calculate_padding(), 0);
    let mut sfo = Sfo::new(&empty_image()).unwrap();
    sfo.add(Keys::from_str("ABC"), DataField::U32(0));
    assert_eq!(sfo.calculate_padding(), 0);
    sfo.add(Keys::from_str("D"), DataField::U32(0));
    assert_eq!(sfo.calculate_padding(), 2);
    sfo.add(Keys::from_str("E"), DataField::U32(0));
    assert_eq!(sfo.calculate_padding(), 0);
    sfo.add(Keys::from_str(""), DataField::U32(0));
    assert_eq!(sfo.calculate_padding(), 3);
    sfo.add(Keys::from_str("FGHI"), DataField::U32(0));
    assert_eq!(sfo.calculate_padding(), 2);
    sfo.add(Keys::from_str("XYZ12"), DataField::U32(0));
    assert_eq!(sfo.calculate_padding(), 0);
}
