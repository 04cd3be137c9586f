use pe_info::pe::{DataDirectory, FileHeader, Image, ImportFn, OptionalHeader, Section};
use pe_info::text::read_cstring;

fn set16(b: &mut [u8], off: usize, v: u16) {
    b[off..off + 2].copy_from_slice(&v.to_le_bytes());
}

fn set32(b: &mut [u8], off: usize, v: u32) {
    b[off..off + 4].copy_from_slice(&v.to_le_bytes());
}

fn image(bytes: Vec<u8>, dirs: Vec<DataDirectory>, va: u32, size: u32) -> Image {
    Image {
        file_size: bytes.len() as u64,
        bytes,
        is_64: false,
        file_header: FileHeader { machine: 0x014c, number_of_sections: 1, characteristics: 0 },
        optional_header: OptionalHeader {
            image_base: 0,
            address_of_entry_point: 0,
            size_of_image: 0,
            size_of_headers: 0,
            subsystem: 0,
            dll_characteristics: 0,
            data_directories: dirs,
        },
        sections: vec![Section {
            name: String::new(),
            virtual_address: va,
            virtual_size: size,
            raw_address: 0,
            raw_size: size,
            characteristics: 0,
        }],
    }
}

#[test]
fn parse_pe32_plus_with_text_section() {
    let mut b = vec![0u8; 0xf0];
    b[0..2].copy_from_slice(b"MZ");
    set32(&mut b, 0x3c, 0x40);
    b[0x40..0x44].copy_from_slice(b"PE\0\0");
    set16(&mut b, 0x44, 0x8664);
    set16(&mut b, 0x46, 1);
    set16(&mut b, 0x54, 0x70);
    set16(&mut b, 0x58, 0x20b);
    b[0x70..0x78].copy_from_slice(&0x1_4000_0000u64.to_le_bytes());
    b[0xc8..0xcd].copy_from_slice(b".text");
    set32(&mut b, 0xd0, 0x123);
    set32(&mut b, 0xd4, 0x1000);
    set32(&mut b, 0xd8, 0x200);
    set32(&mut b, 0xdc, 0x400);
    set32(&mut b, 0xec, 0x6000_0020);
    let img = match Image::parse(b) {
        Ok(img) => img,
        Err(e) => panic!("{e}"),
    };
    assert!(img.is_64);
    assert_eq!(img.optional_header.image_base, 0x1_4000_0000);
    assert_eq!(img.optional_header.data_directories.len(), 0);
    assert_eq!(img.file_header.machine, 0x8664);
    assert_eq!(img.sections.len(), 1);
    let s = &img.sections[0];
    assert_eq!(s.name, ".text");
    assert_eq!(s.virtual_size, 0x123);
    assert_eq!(s.virtual_address, 0x1000);
    assert_eq!(s.raw_size, 0x200);
    assert_eq!(s.raw_address, 0x400);
    assert_eq!(s.characteristics, 0x6000_0020);
}

#[test]
fn imports_named_and_ordinal() {
    let mut b = vec![0u8; 0x48];
    set32(&mut b, 0x00, 0x1028);
    set32(&mut b, 0x0c, 0x1038);
    set32(&mut b, 0x10, 0x1028);
    set32(&mut b, 0x28, 0x1040);
    set32(&mut b, 0x2c, 0x8000_0007);
    b[0x38..0x3e].copy_from_slice(b"k.dll\0");
    b[0x42..0x46].copy_from_slice(b"Foo\0");
    let dirs = vec![
        DataDirectory { virtual_address: 0, size: 0 },
        DataDirectory { virtual_address: 0x1000, size: 0x28 },
    ];
    let img = image(b, dirs, 0x1000, 0x48);
    let imps = img.imports().unwrap();
    assert_eq!(imps.len(), 1);
    assert_eq!(imps[0].dll, "k.dll");
    assert_eq!(imps[0].functions.len(), 2);
    assert!(matches!(&imps[0].functions[0], ImportFn::Named(n) if n == "Foo"));
    assert!(matches!(&imps[0].functions[1], ImportFn::Ordinal(7)));
}

#[test]
fn exports_skip_empty_slot_and_name_by_index() {
    let mut b = vec![0u8; 0x40];
    set32(&mut b, 0x10, 5);
    set32(&mut b, 0x14, 3);
    set32(&mut b, 0x18, 1);
    set32(&mut b, 0x1c, 0x1028);
    set32(&mut b, 0x20, 0x1034);
    set32(&mut b, 0x24, 0x1038);
    set32(&mut b, 0x28, 0x2000);
    set32(&mut b, 0x30, 0x3000);
    set32(&mut b, 0x34, 0x103c);
    set16(&mut b, 0x38, 2);
    b[0x3c..0x40].copy_from_slice(b"foo\0");
    let dirs = vec![DataDirectory { virtual_address: 0x1000, size: 0x40 }];
    let img = image(b, dirs, 0x1000, 0x40);
    let exps = img.exports().unwrap();
    let got: Vec<(u32, u32, String)> = exps.iter().map(|e| (e.ordinal, e.rva, e.name.clone())).collect();
    assert_eq!(got, vec![(5, 0x2000, String::new()), (7, 0x3000, "foo".to_string())]);
}

#[test]
fn read_cstring_examples() {
    let b = b"ab\0cd";
    assert_eq!(read_cstring(b, 0), "ab");
    assert_eq!(read_cstring(b, 3), "cd");
    assert_eq!(read_cstring(b, 2), "");
    assert_eq!(read_cstring(b"ab", 2), "");
    assert_eq!(read_cstring(&[0x66, 0xff, 0], 0), "f\u{FFFD}");
}

#[test]
fn read_cstring_holds_no_nul() {
    let b = [0x41u8, 0xc3, 0xa9, 0xff, 0x00, 0x42];
    let s = read_cstring(&b, 0);
    assert_eq!(s, "A\u{e9}\u{FFFD}");
    assert!(!s.contains('\0'));
}
