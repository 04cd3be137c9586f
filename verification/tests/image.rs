use pe_info::pe::{Export, Image, Import, ImportFn};

fn put16(b: &mut Vec<u8>, off: usize, v: u16) {
    b[off..off + 2].copy_from_slice(&v.to_le_bytes());
}

fn put32(b: &mut Vec<u8>, off: usize, v: u32) {
    b[off..off + 4].copy_from_slice(&v.to_le_bytes());
}

fn put64(b: &mut Vec<u8>, off: usize, v: u64) {
    b[off..off + 8].copy_from_slice(&v.to_le_bytes());
}

fn put_bytes(b: &mut Vec<u8>, off: usize, s: &[u8]) {
    b[off..off + s.len()].copy_from_slice(s);
}

const NT: usize = 0x40;
const OH: usize = NT + 24;

fn optional_size(is_64: bool, n_dirs: usize) -> usize {
    (if is_64 { 112 } else { 96 }) + 8 * n_dirs
}

/// A section entry: name, virtual address, virtual size, raw address, raw size, flags.
struct Sec {
    name: &'static [u8],
    va: u32,
    vsize: u32,
    raw: u32,
    raw_size: u32,
    flags: u32,
}

fn build(is_64: bool, dirs: &[(u32, u32)], secs: &[Sec], size: usize) -> Vec<u8> {
    let mut b = vec![0u8; size.max(0x1000)];
    put_bytes(&mut b, 0, b"MZ");
    put32(&mut b, 0x3c, NT as u32);
    put_bytes(&mut b, NT, b"PE\0\0");
    let fh = NT + 4;
    put16(&mut b, fh, if is_64 { 0x8664 } else { 0x014c });
    put16(&mut b, fh + 2, secs.len() as u16);
    put16(&mut b, fh + 16, optional_size(is_64, dirs.len()) as u16);
    put16(&mut b, fh + 18, 0x0102);
    put16(&mut b, OH, if is_64 { 0x20b } else { 0x10b });
    put32(&mut b, OH + 16, 0x1234);
    put32(&mut b, OH + 56, 0x4000);
    put32(&mut b, OH + 60, 0x200);
    put16(&mut b, OH + 68, 3);
    put16(&mut b, OH + 70, 0x8160);
    let dir_off = if is_64 {
        put64(&mut b, OH + 24, 0x1_4000_0000);
        put32(&mut b, OH + 108, dirs.len() as u32);
        OH + 112
    } else {
        put32(&mut b, OH + 28, 0x40_0000);
        put32(&mut b, OH + 92, dirs.len() as u32);
        OH + 96
    };
    for (i, (va, sz)) in dirs.iter().enumerate() {
        put32(&mut b, dir_off + 8 * i, *va);
        put32(&mut b, dir_off + 8 * i + 4, *sz);
    }
    let sec_off = OH + optional_size(is_64, dirs.len());
    for (i, s) in secs.iter().enumerate() {
        let at = sec_off + 40 * i;
        put_bytes(&mut b, at, s.name);
        put32(&mut b, at + 8, s.vsize);
        put32(&mut b, at + 12, s.va);
        put32(&mut b, at + 16, s.raw_size);
        put32(&mut b, at + 20, s.raw);
        put32(&mut b, at + 36, s.flags);
    }
    b.truncate(size);
    b
}

fn data_section() -> Sec {
    Sec { name: b".data", va: 0x1000, vsize: 0x1000, raw: 0x200, raw_size: 0x200, flags: 0xc000_0040 }
}

/// An image whose `.data` section maps RVA 0x1000.. to file offset 0x200.., with an
/// import directory at RVA 0x1000 and an export directory at RVA 0x1100.
fn image_with_tables(is_64: bool) -> Vec<u8> {
    let mut b = build(is_64, &[(0x1100, 0x40), (0x1000, 0x40)], &[data_section()], 0x400);
    // import descriptor: lookup table, name, address table; then a zero descriptor
    put32(&mut b, 0x200, 0x1080);
    put32(&mut b, 0x200 + 12, 0x1060);
    put32(&mut b, 0x200 + 16, 0x10a0);
    put_bytes(&mut b, 0x260, b"KERNEL32.dll\0");
    if is_64 {
        put64(&mut b, 0x280, 0x10c0);
        put64(&mut b, 0x288, 0x8000_0000_0000_0010);
        put64(&mut b, 0x290, 0);
    } else {
        put32(&mut b, 0x280, 0x10c0);
        put32(&mut b, 0x284, 0x8000_0010);
        put32(&mut b, 0x288, 0);
    }
    put16(&mut b, 0x2c0, 7);
    put_bytes(&mut b, 0x2c2, b"ExitProcess\0");
    // export directory
    put32(&mut b, 0x300 + 16, 5);
    put32(&mut b, 0x300 + 20, 3);
    put32(&mut b, 0x300 + 24, 1);
    put32(&mut b, 0x300 + 28, 0x1140);
    put32(&mut b, 0x300 + 32, 0x1150);
    put32(&mut b, 0x300 + 36, 0x1158);
    put32(&mut b, 0x340, 0x2000);
    put32(&mut b, 0x344, 0);
    put32(&mut b, 0x348, 0x3000);
    put32(&mut b, 0x350, 0x1160);
    put16(&mut b, 0x358, 2);
    put_bytes(&mut b, 0x360, b"DoThing\0");
    b
}

fn parse_ok(b: Vec<u8>) -> Image {
    match Image::parse(b) {
        Ok(img) => img,
        Err(e) => panic!("parse failed: {e}"),
    }
}

fn parse_err(b: Vec<u8>) -> String {
    match Image::parse(b) {
        Ok(_) => panic!("parse succeeded"),
        Err(e) => e,
    }
}

fn import_names(imps: &[Import]) -> Vec<(String, Vec<String>)> {
    imps.iter()
        .map(|i| {
            (
                i.dll.clone(),
                i.functions
                    .iter()
                    .map(|f| match f {
                        ImportFn::Named(n) => n.clone(),
                        ImportFn::Ordinal(o) => format!("#{o}"),
                    })
                    .collect(),
            )
        })
        .collect()
}

fn export_list(exps: &[Export]) -> Vec<(u32, u32, String)> {
    exps.iter().map(|e| (e.ordinal, e.rva, e.name.clone())).collect()
}

#[test]
fn parse_pe32_headers() {
    let b = build(false, &[(0, 0), (0x2000, 0x28)], &[data_section()], 0x400);
    let img = parse_ok(b);
    assert_eq!(img.file_size, 0x400);
    assert_eq!(img.bytes.len(), 0x400);
    assert!(!img.is_64);
    assert_eq!(img.file_header.machine, 0x014c);
    assert_eq!(img.file_header.number_of_sections, 1);
    assert_eq!(img.file_header.characteristics, 0x0102);
    assert_eq!(img.optional_header.image_base, 0x40_0000);
    assert_eq!(img.optional_header.address_of_entry_point, 0x1234);
    assert_eq!(img.optional_header.size_of_image, 0x4000);
    assert_eq!(img.optional_header.size_of_headers, 0x200);
    assert_eq!(img.optional_header.subsystem, 3);
    assert_eq!(img.optional_header.dll_characteristics, 0x8160);
    assert_eq!(img.optional_header.data_directories.len(), 2);
    assert_eq!(img.optional_header.data_directories[1].virtual_address, 0x2000);
    assert_eq!(img.optional_header.data_directories[1].size, 0x28);
}

#[test]
fn parse_pe32_plus_headers() {
    let img = parse_ok(build(true, &[(1, 2), (3, 4), (5, 6)], &[data_section()], 0x400));
    assert!(img.is_64);
    assert_eq!(img.file_header.machine, 0x8664);
    assert_eq!(img.optional_header.image_base, 0x1_4000_0000);
    assert_eq!(img.optional_header.data_directories.len(), 3);
    assert_eq!(img.optional_header.data_directories[2].virtual_address, 5);
    assert_eq!(img.optional_header.data_directories[2].size, 6);
}

#[test]
fn parse_sections() {
    let secs = [
        Sec { name: b".text", va: 0x1000, vsize: 0x123, raw: 0x400, raw_size: 0x200, flags: 0x6000_0020 },
        Sec { name: b"LONGNAME", va: 0x2000, vsize: 0x10, raw: 0x600, raw_size: 0x200, flags: 0xc000_0040 },
    ];
    let img = parse_ok(build(false, &[], &secs, 0x400));
    assert_eq!(img.sections.len(), 2);
    let s = &img.sections[0];
    assert_eq!(s.name, ".text");
    assert_eq!(s.virtual_address, 0x1000);
    assert_eq!(s.virtual_size, 0x123);
    assert_eq!(s.raw_address, 0x400);
    assert_eq!(s.raw_size, 0x200);
    assert_eq!(s.characteristics, 0x6000_0020);
    assert_eq!(img.sections[1].name, "LONGNAME");
}

#[test]
fn section_name_invalid_utf8_is_replaced() {
    let secs = [Sec { name: b"a\xffb", va: 0x1000, vsize: 0x10, raw: 0x200, raw_size: 0x10, flags: 0 }];
    let img = parse_ok(build(false, &[], &secs, 0x400));
    assert_eq!(img.sections[0].name, "a\u{fffd}b");
}

#[test]
fn parse_empty_input() {
    assert_eq!(parse_err(Vec::new()), "read u16 at 0x0 out of bounds");
}

#[test]
fn parse_missing_mz() {
    let mut b = build(false, &[], &[], 0x200);
    b[0] = b'N';
    assert_eq!(parse_err(b), "not a PE file (missing MZ signature)");
}

#[test]
fn parse_truncated_dos_header() {
    assert_eq!(parse_err(b"MZ\0\0".to_vec()), "read u32 at 0x3c out of bounds");
}

#[test]
fn parse_nt_header_beyond_end() {
    let mut b = vec![0u8; 0x40];
    put_bytes(&mut b, 0, b"MZ");
    put32(&mut b, 0x3c, 0x1000);
    assert_eq!(parse_err(b), "read u32 at 0x1000 out of bounds");
}

#[test]
fn parse_missing_pe_signature() {
    let mut b = build(false, &[], &[], 0x200);
    b[NT + 1] = b'X';
    assert_eq!(parse_err(b), "not a PE file (missing PE\\0\\0 signature)");
}

#[test]
fn parse_unknown_magic() {
    let mut b = build(false, &[], &[], 0x200);
    put16(&mut b, OH, 0x10c);
    assert_eq!(parse_err(b), "unknown OptionalHeader magic 0x10c");
}

#[test]
fn parse_truncated_file_header() {
    let b = build(false, &[], &[], NT + 10);
    assert_eq!(parse_err(b), "read u16 at 0x54 out of bounds");
}

#[test]
fn parse_truncated_optional_header() {
    let b = build(false, &[], &[], OH + 60);
    assert_eq!(parse_err(b), "read u32 at 0x94 out of bounds");
}

#[test]
fn parse_truncated_directory_count_64() {
    let b = build(true, &[], &[], OH + 110);
    assert_eq!(parse_err(b), "read u32 at 0xc4 out of bounds");
}

#[test]
fn parse_truncated_data_directories() {
    let b = build(false, &[(1, 2), (3, 4)], &[], OH + 96 + 12);
    assert_eq!(parse_err(b), "read u32 at 0xc4 out of bounds");
}

#[test]
fn parse_truncated_section_name() {
    let b = build(false, &[], &[data_section()], OH + 96 + 4);
    assert_eq!(parse_err(b), "section name out of bounds at 0xb8");
}

#[test]
fn parse_truncated_section_entry() {
    let b = build(false, &[], &[data_section()], OH + 96 + 30);
    assert_eq!(parse_err(b), "read u32 at 0xdc out of bounds");
}

#[test]
fn rva_maps_through_section() {
    let img = parse_ok(build(false, &[], &[data_section()], 0x400));
    assert_eq!(img.rva_to_offset(0x1000), Some(0x200));
    assert_eq!(img.rva_to_offset(0x1234), Some(0x434));
    assert_eq!(img.rva_to_offset(0x1fff), Some(0x11ff));
    assert_eq!(img.rva_to_offset(0x2000), None);
    assert_eq!(img.rva_to_offset(0xfff), None);
}

#[test]
fn rva_uses_first_covering_section() {
    let secs = [
        Sec { name: b"a", va: 0x1000, vsize: 0x100, raw: 0x400, raw_size: 0x800, flags: 0 },
        Sec { name: b"b", va: 0x1000, vsize: 0x100, raw: 0x800, raw_size: 0x100, flags: 0 },
    ];
    let img = parse_ok(build(false, &[], &secs, 0x400));
    assert_eq!(img.rva_to_offset(0x1010), Some(0x410));
    assert_eq!(img.rva_to_offset(0x1700), Some(0xb00));
}

#[test]
fn rva_span_saturates() {
    let secs = [Sec { name: b"hi", va: 0xffff_ff00, vsize: 0x1000, raw: 0x10, raw_size: 0, flags: 0 }];
    let img = parse_ok(build(false, &[], &secs, 0x400));
    assert_eq!(img.rva_to_offset(0xffff_fffe), Some(0x10 + 0xfe));
    assert_eq!(img.rva_to_offset(0xffff_ffff), None);
}

#[test]
fn imports_pe32() {
    let img = parse_ok(image_with_tables(false));
    let imps = img.imports().unwrap();
    assert_eq!(import_names(&imps), vec![("KERNEL32.dll".to_string(), vec!["ExitProcess".to_string(), "#16".to_string()])]);
}

#[test]
fn imports_pe32_plus() {
    let img = parse_ok(image_with_tables(true));
    let imps = img.imports().unwrap();
    assert_eq!(import_names(&imps), vec![("KERNEL32.dll".to_string(), vec!["ExitProcess".to_string(), "#16".to_string()])]);
}

#[test]
fn imports_use_address_table_without_lookup_table() {
    let mut b = image_with_tables(false);
    put32(&mut b, 0x200, 0);
    put32(&mut b, 0x200 + 16, 0x1080);
    let img = parse_ok(b);
    let imps = img.imports().unwrap();
    assert_eq!(imps[0].functions.len(), 2);
}

#[test]
fn imports_without_directory_are_empty() {
    let img = parse_ok(build(false, &[(0, 0)], &[data_section()], 0x400));
    assert!(img.imports().unwrap().is_empty());
    let img = parse_ok(build(false, &[(0, 0), (0, 0)], &[data_section()], 0x400));
    assert!(img.imports().unwrap().is_empty());
}

#[test]
fn imports_directory_unmapped() {
    let img = parse_ok(build(false, &[(0, 0), (0x9000, 0x28)], &[data_section()], 0x400));
    assert_eq!(img.imports().err().unwrap(), "imports: directory RVA -> offset failed");
}

#[test]
fn imports_dll_name_unmapped() {
    let mut b = image_with_tables(false);
    put32(&mut b, 0x200 + 12, 0x9000);
    let img = parse_ok(b);
    assert_eq!(img.imports().err().unwrap(), "import: dll name RVA -> offset failed");
}

#[test]
fn imports_lookup_table_unmapped() {
    let mut b = image_with_tables(false);
    put32(&mut b, 0x200, 0x9000);
    let img = parse_ok(b);
    assert_eq!(img.imports().err().unwrap(), "import: lookup table RVA -> offset failed");
}

#[test]
fn imports_name_entry_unmapped() {
    let mut b = image_with_tables(false);
    put32(&mut b, 0x280, 0x9000);
    let img = parse_ok(b);
    assert_eq!(img.imports().err().unwrap(), "import: name table entry -> offset failed");
}

#[test]
fn imports_descriptor_beyond_end() {
    let mut b = image_with_tables(false);
    b.truncate(0x210);
    let img = parse_ok(b);
    assert_eq!(img.imports().err().unwrap(), "read u32 at 0x210 out of bounds");
}

#[test]
fn imports_lookup_entry_beyond_end_64() {
    let mut b = image_with_tables(true);
    put32(&mut b, 0x200, 0x11f8);
    put64(&mut b, 0x3f8, 0x8000_0000_0000_0001);
    let img = parse_ok(b);
    assert_eq!(img.imports().err().unwrap(), "read u64 at 0x400 out of bounds");
}

#[test]
fn imports_dll_name_beyond_file_is_reported_as_panic() {
    let secs = [Sec { name: b".data", va: 0x1000, vsize: 0x2000, raw: 0x200, raw_size: 0x2000, flags: 0 }];
    let mut b = build(false, &[(0, 0), (0x1000, 0x28)], &secs, 0x400);
    put32(&mut b, 0x200, 0x1080);
    put32(&mut b, 0x200 + 12, 0x1f00);
    put32(&mut b, 0x200 + 16, 0x1080);
    let img = parse_ok(b);
    assert!(img.checked_imports().is_none());
}

#[test]
fn exports_in_ordinal_order_with_names() {
    let img = parse_ok(image_with_tables(false));
    let exps = img.exports().unwrap();
    assert_eq!(export_list(&exps), vec![(5, 0x2000, String::new()), (7, 0x3000, "DoThing".to_string())]);
}

#[test]
fn exports_first_name_wins() {
    let mut b = image_with_tables(false);
    put32(&mut b, 0x300 + 24, 2);
    put32(&mut b, 0x350, 0x1160);
    put32(&mut b, 0x354, 0x1170);
    put16(&mut b, 0x358, 0);
    put16(&mut b, 0x35a, 0);
    put_bytes(&mut b, 0x370, b"Other\0");
    let img = parse_ok(b);
    let exps = img.exports().unwrap();
    assert_eq!(export_list(&exps), vec![(5, 0x2000, "DoThing".to_string()), (7, 0x3000, String::new())]);
}

#[test]
fn exports_without_directory_are_empty() {
    let img = parse_ok(build(false, &[], &[data_section()], 0x400));
    assert!(img.exports().unwrap().is_empty());
}

#[test]
fn exports_directory_unmapped() {
    let img = parse_ok(build(false, &[(0x9000, 0x40)], &[data_section()], 0x400));
    assert_eq!(img.exports().err().unwrap(), "exports: directory RVA -> offset failed");
}

#[test]
fn exports_functions_unmapped() {
    let mut b = image_with_tables(false);
    put32(&mut b, 0x300 + 28, 0x9000);
    let img = parse_ok(b);
    assert_eq!(img.exports().err().unwrap(), "exports: AddressOfFunctions -> offset failed");
}

#[test]
fn exports_names_unmapped() {
    let mut b = image_with_tables(false);
    put32(&mut b, 0x300 + 32, 0x9000);
    let img = parse_ok(b);
    assert_eq!(img.exports().err().unwrap(), "exports: AddressOfNames -> offset failed");
}

#[test]
fn exports_ordinals_unmapped() {
    let mut b = image_with_tables(false);
    put32(&mut b, 0x300 + 36, 0x9000);
    let img = parse_ok(b);
    assert_eq!(img.exports().err().unwrap(), "exports: AddressOfNameOrdinals -> offset failed");
}

#[test]
fn exports_name_entry_unmapped() {
    let mut b = image_with_tables(false);
    put32(&mut b, 0x350, 0x9000);
    let img = parse_ok(b);
    assert_eq!(img.exports().err().unwrap(), "exports: name entry -> offset failed");
}

#[test]
fn exports_unnamed_skip_name_tables() {
    let mut b = image_with_tables(false);
    put32(&mut b, 0x300 + 24, 0);
    put32(&mut b, 0x300 + 32, 0x9000);
    let img = parse_ok(b);
    let exps = img.exports().unwrap();
    assert_eq!(export_list(&exps), vec![(5, 0x2000, String::new()), (7, 0x3000, String::new())]);
}

#[test]
fn exports_address_table_beyond_end() {
    let mut b = image_with_tables(false);
    put32(&mut b, 0x300 + 20, 0x100);
    let img = parse_ok(b);
    assert_eq!(img.exports().err().unwrap(), "read u32 at 0x400 out of bounds");
}

#[test]
fn exports_ordinal_overflow_is_reported_as_panic() {
    let mut b = image_with_tables(false);
    put32(&mut b, 0x300 + 16, 0xffff_fffe);
    let img = parse_ok(b);
    assert!(img.checked_exports().is_none());
}

#[test]
fn exports_ordinal_at_limit() {
    let mut b = image_with_tables(false);
    put32(&mut b, 0x300 + 16, 0xffff_fffd);
    let img = parse_ok(b);
    let exps = img.exports().unwrap();
    assert_eq!(export_list(&exps), vec![(0xffff_fffd, 0x2000, String::new()), (0xffff_ffff, 0x3000, "DoThing".to_string())]);
}
