use gb_disasm::error::DecodeError;
use gb_disasm::header::{
    ram_size, read_cartridge_metadata, rom_size, CartridgeMetadata, HEADER_LEN, HEADER_START,
};
use gb_disasm::reference::load_names;
use gb_disasm::report::{header_report, lookup_name, parse_rom};
use gb_disasm::table::CodeTable;

fn window() -> Vec<u8> {
    let mut bytes = Vec::new();
    bytes.extend_from_slice(b"TETRIS\0\0\0\0\0\0\0\0\0\0");
    bytes.extend_from_slice(&[0x30, 0x31]);
    bytes.extend_from_slice(&[0x03, 0x13, 0x05, 0x02, 0x01, 0x01, 0x07, 0x0b]);
    bytes.extend_from_slice(&[0x89, 0xb5]);
    bytes
}

fn image() -> Vec<u8> {
    let mut bytes = vec![0u8; HEADER_START];
    bytes.extend_from_slice(&window());
    bytes
}

fn names() -> (CodeTable<String>, CodeTable<String>) {
    let cart_types = load_names("{\"0x13\": \"MBC3+RAM+BATTERY\", \"0x00\": \"ROM ONLY\"}").unwrap();
    let licensees = load_names("{\"0x01\": \"Nintendo\", \"0x33\": \"unused\"}").unwrap();
    (cart_types, licensees)
}

#[test]
fn from_reader_reads_every_field() {
    let meta = CartridgeMetadata::from_reader(&window()).unwrap();
    assert_eq!(meta.title, u128::from_be_bytes(*b"TETRIS\0\0\0\0\0\0\0\0\0\0"));
    assert_eq!(meta.new_licensee_code, 0x3031);
    assert_eq!(meta.sgb, 0x03);
    assert_eq!(meta.cartridge_type, 0x13);
    assert_eq!(meta.rom_size, 0x05);
    assert_eq!(meta.ram_size, 0x02);
    assert_eq!(meta.destination_code, 0x01);
    assert_eq!(meta.old_licensee_code, 0x01);
    assert_eq!(meta.mask_rom_version, 0x07);
    assert_eq!(meta.header_checksum, 0x0b);
    assert_eq!(meta.global_checksum, 0x89b5);
}

#[test]
fn from_reader_ignores_what_follows_the_window() {
    let mut longer = window();
    longer.extend_from_slice(&[0xaa, 0xbb, 0xcc]);
    assert_eq!(
        CartridgeMetadata::from_reader(&longer),
        CartridgeMetadata::from_reader(&window())
    );
}

#[test]
fn from_reader_refuses_a_short_window() {
    for len in 0..HEADER_LEN {
        assert_eq!(
            CartridgeMetadata::from_reader(&window()[..len]),
            Err(DecodeError::TruncatedImage)
        );
    }
}

#[test]
fn decoding_twice_gives_the_same_header() {
    let first = read_cartridge_metadata(&image());
    let second = read_cartridge_metadata(&image());
    assert!(first.is_ok());
    assert_eq!(first, second);
}

#[test]
fn read_cartridge_metadata_reads_at_the_header_offset() {
    let meta = read_cartridge_metadata(&image()).unwrap();
    assert_eq!(meta, CartridgeMetadata::from_reader(&window()).unwrap());
    let mut longer = image();
    longer.extend_from_slice(&[1, 2, 3]);
    assert_eq!(read_cartridge_metadata(&longer), Ok(meta));
}

#[test]
fn a_short_image_is_truncated() {
    let whole = image();
    assert_eq!(whole.len(), HEADER_START + HEADER_LEN);
    for len in [0, 1, HEADER_START, HEADER_START + 1, HEADER_START + HEADER_LEN - 1] {
        assert_eq!(
            read_cartridge_metadata(&whole[..len]),
            Err(DecodeError::TruncatedImage)
        );
    }
}

#[test]
fn ram_size_has_six_labels() {
    assert_eq!(ram_size(0x00), Ok("None".to_string()));
    assert_eq!(ram_size(0x01), Ok("2kb".to_string()));
    assert_eq!(ram_size(0x02), Ok("8kb".to_string()));
    assert_eq!(ram_size(0x03), Ok("32kb".to_string()));
    assert_eq!(ram_size(0x04), Ok("128kb".to_string()));
    assert_eq!(ram_size(0x05), Ok("64kb".to_string()));
}

#[test]
fn ram_size_refuses_every_other_code() {
    for code in 0x06..=0xffu8 {
        assert_eq!(ram_size(code), Err(DecodeError::MissingLookupKey { code }));
    }
}

#[test]
fn rom_size_has_twelve_sizes() {
    assert_eq!(rom_size(0x00), Ok(32));
    assert_eq!(rom_size(0x01), Ok(64));
    assert_eq!(rom_size(0x02), Ok(128));
    assert_eq!(rom_size(0x03), Ok(256));
    assert_eq!(rom_size(0x04), Ok(512));
    assert_eq!(rom_size(0x05), Ok(1024));
    assert_eq!(rom_size(0x06), Ok(2048));
    assert_eq!(rom_size(0x07), Ok(4096));
    assert_eq!(rom_size(0x08), Ok(8192));
    assert_eq!(rom_size(0x52), Ok(1152));
    assert_eq!(rom_size(0x53), Ok(1280));
    assert_eq!(rom_size(0x54), Ok(1536));
}

#[test]
fn rom_size_refuses_every_other_code() {
    for code in 0..=0xffu8 {
        let known = code <= 0x08 || (0x52..=0x54).contains(&code);
        if !known {
            assert_eq!(rom_size(code), Err(DecodeError::MissingLookupKey { code }));
        }
    }
}

#[test]
fn title_text_keeps_all_sixteen_bytes() {
    let meta = CartridgeMetadata::from_reader(&window()).unwrap();
    assert_eq!(meta.title_text(), Ok("TETRIS\0\0\0\0\0\0\0\0\0\0".to_string()));
}

#[test]
fn title_text_refuses_bytes_that_are_no_text() {
    let mut bytes = window();
    bytes[3] = 0xff;
    let meta = CartridgeMetadata::from_reader(&bytes).unwrap();
    assert_eq!(meta.title_text(), Err(DecodeError::InvalidTitle));
}

#[test]
fn load_names_files_names_under_their_codes() {
    let table = load_names("{\"0x13\": \"MBC3\", \"0xFF\": \"HuC1\", \"0xff\": \"lost\", \"x\": \"y\"}")
        .unwrap();
    assert_eq!(lookup_name(&table, 0x13), Ok(&"MBC3".to_string()));
    assert_eq!(lookup_name(&table, 0xff), Ok(&"HuC1".to_string()));
    assert_eq!(
        lookup_name(&table, 0x00),
        Err(DecodeError::MissingLookupKey { code: 0x00 })
    );
}

#[test]
fn load_names_refuses_what_is_no_object_of_strings() {
    assert_eq!(load_names("").err(), Some(DecodeError::MalformedReferenceData));
    assert_eq!(load_names("[1, 2]").err(), Some(DecodeError::MalformedReferenceData));
    assert_eq!(
        load_names("{\"0x00\": 7}").err(),
        Some(DecodeError::MalformedReferenceData)
    );
    assert_eq!(
        load_names("{\"0x00\": \"a\"").err(),
        Some(DecodeError::MalformedReferenceData)
    );
}

#[test]
fn parse_rom_reports_the_header() {
    let (cart_types, licensees) = names();
    let report = parse_rom(&image(), &cart_types, &licensees).unwrap();
    assert_eq!(report.title, "TETRIS\0\0\0\0\0\0\0\0\0\0");
    assert_eq!(report.publisher, Some("Nintendo".to_string()));
    assert_eq!(report.cartridge_type, "MBC3+RAM+BATTERY");
    assert!(!report.japanese);
    assert!(!report.super_gameboy);
    assert!(!report.color_gameboy);
    assert_eq!(report.ram_size, "8kb");
    assert_eq!(report.rom_size, 1024);
    assert_eq!(report.global_checksum, 0x89b5);
    assert_eq!(report.header_checksum, 0x0b);
}

#[test]
fn parse_rom_twice_gives_the_same_report() {
    let (cart_types, licensees) = names();
    assert_eq!(
        parse_rom(&image(), &cart_types, &licensees),
        parse_rom(&image(), &cart_types, &licensees)
    );
}

#[test]
fn the_new_licensee_mark_leaves_the_publisher_out() {
    let (cart_types, _) = names();
    let mut bytes = image();
    bytes[HEADER_START + 23] = 0x33;
    bytes[HEADER_START + 22] = 0x00;
    bytes[HEADER_START + 18] = 0x00;
    let report = parse_rom(&bytes, &cart_types, &CodeTable::new()).unwrap();
    assert_eq!(report.publisher, None);
    assert!(report.color_gameboy);
    assert!(report.japanese);
    assert!(report.super_gameboy);
}

#[test]
fn parse_rom_refuses_a_short_image() {
    let (cart_types, licensees) = names();
    let whole = image();
    assert_eq!(
        parse_rom(&whole[..whole.len() - 1], &cart_types, &licensees),
        Err(DecodeError::TruncatedImage)
    );
}

#[test]
fn header_report_names_the_first_code_without_an_entry() {
    let (cart_types, licensees) = names();
    let meta = CartridgeMetadata::from_reader(&window()).unwrap();

    let mut unknown = meta;
    unknown.old_licensee_code = 0x02;
    unknown.cartridge_type = 0x77;
    assert_eq!(
        header_report(&unknown, &cart_types, &licensees),
        Err(DecodeError::MissingLookupKey { code: 0x02 })
    );

    let mut unknown = meta;
    unknown.cartridge_type = 0x77;
    unknown.ram_size = 0x09;
    assert_eq!(
        header_report(&unknown, &cart_types, &licensees),
        Err(DecodeError::MissingLookupKey { code: 0x77 })
    );

    let mut unknown = meta;
    unknown.ram_size = 0x09;
    unknown.rom_size = 0x10;
    assert_eq!(
        header_report(&unknown, &cart_types, &licensees),
        Err(DecodeError::MissingLookupKey { code: 0x09 })
    );

    let mut unknown = meta;
    unknown.rom_size = 0x10;
    assert_eq!(
        header_report(&unknown, &cart_types, &licensees),
        Err(DecodeError::MissingLookupKey { code: 0x10 })
    );
}

#[test]
fn header_report_checks_the_title_first() {
    let meta = CartridgeMetadata {
        title: u128::MAX,
        new_licensee_code: 0,
        sgb: 0,
        cartridge_type: 0x77,
        rom_size: 0x10,
        ram_size: 0x09,
        destination_code: 0,
        old_licensee_code: 0x02,
        mask_rom_version: 0,
        header_checksum: 0,
        global_checksum: 0,
    };
    assert_eq!(
        header_report(&meta, &CodeTable::new(), &CodeTable::new()),
        Err(DecodeError::InvalidTitle)
    );
}
