use sfo::container::Sfo;
use sfo::error::{MappingErr, ReadErr, SfoParseErr};

/// Two entries: `TITLE` = "Test" and `VERSION` = 7.
fn image() -> Vec<u8> {
    let mut image: Vec<u8> = Vec::new();
    image.extend_from_slice(&[0x00, 0x50, 0x53, 0x46]);
    image.extend_from_slice(&[0x01, 0x01, 0x00, 0x00]);
    image.extend_from_slice(&[0x34, 0x00, 0x00, 0x00]);
    image.extend_from_slice(&[0x44, 0x00, 0x00, 0x00]);
    image.extend_from_slice(&[0x02, 0x00, 0x00, 0x00]);
    image.extend_from_slice(&[0x00, 0x00, 0x04, 0x02]);
    image.extend_from_slice(&[0x05, 0x00, 0x00, 0x00]);
    image.extend_from_slice(&[0x05, 0x00, 0x00, 0x00]);
    image.extend_from_slice(&[0x00, 0x00, 0x00, 0x00]);
    image.extend_from_slice(&[0x06, 0x00, 0x04, 0x04]);
    image.extend_from_slice(&[0x04, 0x00, 0x00, 0x00]);
    image.extend_from_slice(&[0x04, 0x00, 0x00, 0x00]);
    image.extend_from_slice(&[0x05, 0x00, 0x00, 0x00]);
    image.extend_from_slice(b"TITLE\0VERSION\0\0\0");
    image.extend_from_slice(b"Test\0");
    image.extend_from_slice(&[0x07, 0x00, 0x00, 0x00]);
    image
}

fn error_of(image: &[u8]) -> SfoParseErr {
    Sfo::new(image).err().unwrap()
}

fn mapping(e: MappingErr) -> SfoParseErr {
    SfoParseErr::EntriesMappingReadErr(e)
}

#[test]
fn the_image_itself_is_read() {
    assert!(Sfo::new(&image()).is_ok());
}

#[test]
fn an_image_shorter_than_the_magic() {
    assert_eq!(error_of(&[]), SfoParseErr::MagicReadErr(ReadErr::TruncatedRead));
    assert_eq!(error_of(&[0x00, 0x50, 0x53]), SfoParseErr::MagicReadErr(ReadErr::TruncatedRead));
}

#[test]
fn another_magic() {
    let mut bytes = image();
    bytes[3] = 0x47;
    assert_eq!(error_of(&bytes), SfoParseErr::UnknownMagic([0x00, 0x50, 0x53, 0x47]));
    assert_eq!(error_of(b"\x7fELF"), SfoParseErr::UnknownMagic([0x7f, b'E', b'L', b'F']));
}

#[test]
fn a_header_cut_short() {
    let bytes = image();
    assert_eq!(error_of(&bytes[..4]), SfoParseErr::HeaderReadErr(ReadErr::TruncatedRead));
    assert_eq!(error_of(&bytes[..19]), SfoParseErr::HeaderReadErr(ReadErr::TruncatedRead));
}

#[test]
fn a_descriptor_cut_short() {
    let bytes = image();
    assert_eq!(error_of(&bytes[..20]), SfoParseErr::IndexTableReadErr(ReadErr::TruncatedRead));
    assert_eq!(error_of(&bytes[..23]), SfoParseErr::IndexTableReadErr(ReadErr::TruncatedRead));
    assert_eq!(error_of(&bytes[..35]), SfoParseErr::IndexTableReadErr(ReadErr::TruncatedRead));
    assert_eq!(error_of(&bytes[..51]), SfoParseErr::IndexTableReadErr(ReadErr::TruncatedRead));
}

#[test]
fn a_format_tag_with_another_marker() {
    let mut bytes = image();
    bytes[22] = 0x05;
    assert_eq!(error_of(&bytes), SfoParseErr::IndexTableReadErr(ReadErr::BadFormatTag(0x05)));
    let mut bytes = image();
    bytes[38] = 0x00;
    assert_eq!(error_of(&bytes), SfoParseErr::IndexTableReadErr(ReadErr::BadFormatTag(0x00)));
}

#[test]
fn a_format_tag_is_looked_at_before_the_rest_of_its_descriptor() {
    let mut bytes = image();
    bytes[22] = 0x05;
    assert_eq!(
        error_of(&bytes[..24]),
        SfoParseErr::IndexTableReadErr(ReadErr::BadFormatTag(0x05))
    );
}

#[test]
fn a_format_tag_with_an_unknown_code() {
    let mut bytes = image();
    bytes[23] = 0x03;
    assert_eq!(
        error_of(&bytes),
        SfoParseErr::IndexTableReadErr(ReadErr::UnknownFormatCode(0x03))
    );
}

#[test]
fn a_key_table_that_starts_elsewhere() {
    let mut bytes = image();
    bytes[8] = 0x38;
    assert_eq!(error_of(&bytes), mapping(MappingErr::Layout));
}

#[test]
fn a_value_table_that_starts_off_a_word() {
    let mut bytes = image();
    bytes[12] = 0x43;
    assert_eq!(error_of(&bytes), mapping(MappingErr::Layout));
}

#[test]
fn a_value_table_that_starts_before_the_key_table() {
    let mut bytes = image();
    bytes[12] = 0x30;
    assert_eq!(error_of(&bytes), mapping(MappingErr::Layout));
}

#[test]
fn a_first_key_that_starts_off_the_key_table() {
    let mut bytes = image();
    bytes[20] = 0x01;
    assert_eq!(error_of(&bytes), mapping(MappingErr::Layout));
}

#[test]
fn keys_out_of_order() {
    let mut bytes = image();
    bytes[36] = 0x00;
    assert_eq!(error_of(&bytes), mapping(MappingErr::Layout));
}

#[test]
fn a_slot_that_does_not_follow_on_the_one_before() {
    let mut bytes = image();
    bytes[48] = 0x06;
    assert_eq!(error_of(&bytes), mapping(MappingErr::Layout));
}

#[test]
fn a_key_table_cut_short() {
    let bytes = image();
    assert_eq!(error_of(&bytes[..52]), mapping(MappingErr::Key(0, ReadErr::TruncatedRead)));
    assert_eq!(error_of(&bytes[..57]), mapping(MappingErr::Key(0, ReadErr::TruncatedRead)));
    assert_eq!(error_of(&bytes[..58]), mapping(MappingErr::Key(1, ReadErr::TruncatedRead)));
    assert_eq!(error_of(&bytes[..67]), mapping(MappingErr::Key(1, ReadErr::TruncatedRead)));
}

#[test]
fn a_key_that_is_not_utf8() {
    let mut bytes = image();
    bytes[53] = 0xff;
    assert_eq!(error_of(&bytes), mapping(MappingErr::Key(0, ReadErr::InvalidUtf8)));
    let mut bytes = image();
    bytes[60] = 0xc3;
    assert_eq!(error_of(&bytes), mapping(MappingErr::Key(1, ReadErr::InvalidUtf8)));
}

#[test]
fn a_key_that_ends_before_the_next_one_starts() {
    let mut bytes = image();
    bytes[55] = 0x00;
    assert_eq!(error_of(&bytes), mapping(MappingErr::Key(0, ReadErr::BadLayout)));
}

#[test]
fn a_key_without_its_terminator() {
    let mut bytes = image();
    bytes[57] = b'X';
    assert_eq!(error_of(&bytes), mapping(MappingErr::Key(0, ReadErr::BadLayout)));
    let mut bytes = image();
    bytes[65] = b'X';
    bytes[66] = b'X';
    bytes[67] = b'X';
    assert_eq!(error_of(&bytes), mapping(MappingErr::Key(1, ReadErr::BadLayout)));
}

#[test]
fn more_padding_than_a_word_needs() {
    let mut bytes = image();
    bytes[12] = 0x48;
    bytes.splice(68..68, [0u8, 0, 0, 0]);
    assert_eq!(error_of(&bytes), mapping(MappingErr::Key(1, ReadErr::BadLayout)));
}

#[test]
fn a_value_table_cut_short() {
    let bytes = image();
    assert_eq!(error_of(&bytes[..68]), mapping(MappingErr::Value(0, ReadErr::TruncatedRead)));
    assert_eq!(error_of(&bytes[..72]), mapping(MappingErr::Value(0, ReadErr::TruncatedRead)));
    assert_eq!(error_of(&bytes[..73]), mapping(MappingErr::Value(1, ReadErr::TruncatedRead)));
    assert_eq!(error_of(&bytes[..76]), mapping(MappingErr::Value(1, ReadErr::TruncatedRead)));
    assert!(Sfo::new(&bytes[..77]).is_ok());
}

#[test]
fn a_text_that_is_not_utf8() {
    let mut bytes = image();
    bytes[69] = 0xff;
    assert_eq!(error_of(&bytes), mapping(MappingErr::Value(0, ReadErr::InvalidUtf8)));
}

#[test]
fn a_number_in_a_slot_of_three_bytes() {
    let mut bytes = image();
    bytes[44] = 0x03;
    assert_eq!(error_of(&bytes), mapping(MappingErr::Value(1, ReadErr::TruncatedRead)));
}

#[test]
fn keys_are_read_before_values() {
    let mut bytes = image();
    bytes[60] = 0xff;
    bytes[69] = 0xff;
    assert_eq!(error_of(&bytes), mapping(MappingErr::Key(1, ReadErr::InvalidUtf8)));
}

#[test]
fn bytes_behind_the_terminator_of_a_text_are_not_read() {
    let mut bytes = image();
    bytes[23] = 0x02;
    bytes[28] = 0x08;
    bytes[48] = 0x08;
    bytes.splice(73..73, [0xffu8, 0xff, 0xff]);
    let sfo = Sfo::new(&bytes).unwrap();
    assert_eq!(
        *sfo.entries_mapping.value(0),
        sfo::mapping::DataField::Utf8String(String::from("Test"))
    );
}

#[test]
fn bytes_behind_the_last_slot_are_not_read() {
    let mut bytes = image();
    bytes.extend_from_slice(b"trailing");
    let sfo = Sfo::new(&bytes).unwrap();
    let mut out: Vec<u8> = Vec::new();
    sfo.export(&mut out);
    assert_eq!(out, image());
}
