//! The PE/COFF image: its headers, data directories and section table, and the parser
//! that reads them from a file's bytes.
use vstd::prelude::*;
use crate::outcome::{Outcome, read_table, lemma_table_stops, lemma_table_done, lemma_table_no_panics, lemma_table_values};
use crate::read::{in_bounds, le_u16, le_u32, le_u64, read_error, read_u16, read_u32, read_u64};
use crate::text::{c_string, decode_c_string, format_with_hex, with_hex};
use vstd::slice::slice_subrange;

verus! {

/// A parsed PE image, together with the bytes it was read from.
pub struct Image {
    pub bytes: Vec<u8>,
    pub file_size: u64,
    pub is_64: bool,
    pub file_header: FileHeader,
    pub optional_header: OptionalHeader,
    pub sections: Vec<Section>,
}

/// The fields of the COFF file header that the tool reports.
pub struct FileHeader {
    pub machine: u16,
    pub number_of_sections: u16,
    pub characteristics: u16,
}

/// The fields of the optional header that the tool reports, with its data directories.
pub struct OptionalHeader {
    pub image_base: u64,
    pub address_of_entry_point: u32,
    pub size_of_image: u32,
    pub size_of_headers: u32,
    pub subsystem: u16,
    pub dll_characteristics: u16,
    pub data_directories: Vec<DataDirectory>,
}

/// An entry of the optional header's data directory table.
#[derive(Clone, Copy)]
pub struct DataDirectory {
    pub virtual_address: u32,
    pub size: u32,
}

/// An entry of the section table.
pub struct Section {
    pub name: String,
    pub virtual_address: u32,
    pub virtual_size: u32,
    pub raw_address: u32,
    pub raw_size: u32,
    pub characteristics: u32,
}

/// A DLL that the image imports from, with the functions it imports.
pub struct Import {
    pub dll: String,
    pub functions: Vec<ImportFn>,
}

/// A function imported by name or by ordinal.
pub enum ImportFn {
    Named(String),
    Ordinal(u16),
}

/// An exported function: its ordinal, its address, and its name (empty when it has none).
pub struct Export {
    pub ordinal: u32,
    pub rva: u32,
    pub name: String,
}

/// An imported function, its name taken as characters.
pub enum ImportFnView {
    Named(Seq<char>),
    Ordinal(u16),
}

impl View for ImportFn {
    type V = ImportFnView;

    open spec fn view(&self) -> ImportFnView {
        match self {
            ImportFn::Named(n) => ImportFnView::Named(n@),
            ImportFn::Ordinal(o) => ImportFnView::Ordinal(*o),
        }
    }
}

/// The imported functions of a list, each taken by its view.
pub open spec fn import_fns_view(v: Seq<ImportFn>) -> Seq<ImportFnView> {
    v.map_values(|f: ImportFn| f@)
}

/// An import, its DLL name taken as characters and its functions as a sequence.
pub struct ImportView {
    pub dll: Seq<char>,
    pub functions: Seq<ImportFnView>,
}

impl View for Import {
    type V = ImportView;

    open spec fn view(&self) -> ImportView {
        ImportView { dll: self.dll@, functions: import_fns_view(self.functions@) }
    }
}

/// The imports of a list, each taken by its view.
pub open spec fn imports_view(v: Seq<Import>) -> Seq<ImportView> {
    v.map_values(|i: Import| i@)
}

/// An export, its name taken as characters.
pub struct ExportView {
    pub ordinal: u32,
    pub rva: u32,
    pub name: Seq<char>,
}

impl View for Export {
    type V = ExportView;

    open spec fn view(&self) -> ExportView {
        ExportView { ordinal: self.ordinal, rva: self.rva, name: self.name@ }
    }
}

/// The exports of a list, each taken by its view.
pub open spec fn exports_view(v: Seq<Export>) -> Seq<ExportView> {
    v.map_values(|e: Export| e@)
}

/// A section, its name taken as characters.
pub struct SectionView {
    pub name: Seq<char>,
    pub virtual_address: u32,
    pub virtual_size: u32,
    pub raw_address: u32,
    pub raw_size: u32,
    pub characteristics: u32,
}

impl View for Section {
    type V = SectionView;

    open spec fn view(&self) -> SectionView {
        SectionView {
            name: self.name@,
            virtual_address: self.virtual_address,
            virtual_size: self.virtual_size,
            raw_address: self.raw_address,
            raw_size: self.raw_size,
            characteristics: self.characteristics,
        }
    }
}

/// An optional header, its data directories taken as a sequence.
pub struct OptionalHeaderView {
    pub image_base: u64,
    pub address_of_entry_point: u32,
    pub size_of_image: u32,
    pub size_of_headers: u32,
    pub subsystem: u16,
    pub dll_characteristics: u16,
    pub data_directories: Seq<DataDirectory>,
}

impl View for OptionalHeader {
    type V = OptionalHeaderView;

    open spec fn view(&self) -> OptionalHeaderView {
        OptionalHeaderView {
            image_base: self.image_base,
            address_of_entry_point: self.address_of_entry_point,
            size_of_image: self.size_of_image,
            size_of_headers: self.size_of_headers,
            subsystem: self.subsystem,
            dll_characteristics: self.dll_characteristics,
            data_directories: self.data_directories@,
        }
    }
}

/// The sections of a list, each taken by its view.
pub open spec fn sections_view(s: Seq<Section>) -> Seq<SectionView> {
    s.map_values(|x: Section| x@)
}

/// An image, its buffers and lists taken as sequences.
pub struct ImageView {
    pub bytes: Seq<u8>,
    pub file_size: u64,
    pub is_64: bool,
    pub file_header: FileHeader,
    pub optional_header: OptionalHeaderView,
    pub sections: Seq<SectionView>,
}

impl View for Image {
    type V = ImageView;

    open spec fn view(&self) -> ImageView {
        ImageView {
            bytes: self.bytes@,
            file_size: self.file_size,
            is_64: self.is_64,
            file_header: FileHeader {
                machine: self.file_header.machine,
                number_of_sections: self.file_header.number_of_sections,
                characteristics: self.file_header.characteristics,
            },
            optional_header: self.optional_header@,
            sections: sections_view(self.sections@),
        }
    }
}

/// The `MZ` signature at the start of a DOS/PE file.
pub const DOS_SIG: u16 = 0x5a4d;

/// The `PE\0\0` signature at the start of the NT headers.
pub const PE_SIG: u32 = 0x0000_4550;

/// The optional header magic of a PE32 image.
pub const PE32_MAGIC: u16 = 0x10b;

/// The optional header magic of a PE32+ (64-bit) image.
pub const PE32P_MAGIC: u16 = 0x20b;

/// The message for a file that does not start with `MZ`.
pub open spec fn no_mz_message() -> Seq<char> {
    "not a PE file (missing MZ signature)"@
}

/// The message for a file whose NT headers do not start with `PE\0\0`.
pub open spec fn no_pe_message() -> Seq<char> {
    "not a PE file (missing PE\\0\\0 signature)"@
}

/// The message for an optional header magic that is neither PE32 nor PE32+.
pub open spec fn magic_message(magic: int) -> Seq<char> {
    with_hex("unknown OptionalHeader magic 0x"@, magic as nat, ""@)
}

/// The message for a section table entry whose name lies beyond the end of the file.
pub open spec fn section_name_message(off: int) -> Seq<char> {
    with_hex("section name out of bounds at 0x"@, off as nat, ""@)
}

/// The data directory entry `k` of the table at `off`.
pub open spec fn dir_entry(b: Seq<u8>, off: int, k: int) -> Outcome<DataDirectory> {
    let at = off + 8 * k;
    if !in_bounds(b, at, 4) {
        Outcome::Failed(read_error("u32"@, at))
    } else if !in_bounds(b, at + 4, 4) {
        Outcome::Failed(read_error("u32"@, at + 4))
    } else {
        Outcome::Done(DataDirectory { virtual_address: le_u32(b, at) as u32, size: le_u32(b, at + 4) as u32 })
    }
}

/// The entries of the data directory table at `off`.
pub open spec fn dir_entries(b: Seq<u8>, off: int) -> spec_fn(int) -> Outcome<DataDirectory> {
    |k: int| dir_entry(b, off, k)
}

/// The section table entry `k` of the table at `off`.
pub open spec fn section_entry(b: Seq<u8>, off: int, k: int) -> Outcome<SectionView> {
    let at = off + 40 * k;
    if !in_bounds(b, at, 8) {
        Outcome::Failed(section_name_message(at))
    } else if !in_bounds(b, at + 8, 4) {
        Outcome::Failed(read_error("u32"@, at + 8))
    } else if !in_bounds(b, at + 12, 4) {
        Outcome::Failed(read_error("u32"@, at + 12))
    } else if !in_bounds(b, at + 16, 4) {
        Outcome::Failed(read_error("u32"@, at + 16))
    } else if !in_bounds(b, at + 20, 4) {
        Outcome::Failed(read_error("u32"@, at + 20))
    } else if !in_bounds(b, at + 36, 4) {
        Outcome::Failed(read_error("u32"@, at + 36))
    } else {
        Outcome::Done(SectionView {
            name: c_string(b.subrange(at, at + 8)),
            virtual_size: le_u32(b, at + 8) as u32,
            virtual_address: le_u32(b, at + 12) as u32,
            raw_size: le_u32(b, at + 16) as u32,
            raw_address: le_u32(b, at + 20) as u32,
            characteristics: le_u32(b, at + 36) as u32,
        })
    }
}

/// The entries of the section table at `off`.
pub open spec fn section_entries(b: Seq<u8>, off: int) -> spec_fn(int) -> Outcome<SectionView> {
    |k: int| section_entry(b, off, k)
}

/// The data directory table reads to the end exactly when it lies within the file.
pub proof fn lemma_directories_fit(b: Seq<u8>, off: int, n: nat)
    requires
        0 <= off,
    ensures
        read_table(n, dir_entries(b, off)) is Done <==> (n == 0 || off + 8 * n <= b.len()),
{
    let entries = dir_entries(b, off);
    if n > 0 {
        if off + 8 * n <= b.len() {
            assert forall|k: int| 0 <= k < n implies #[trigger] entries(k) is Done by {
                assert(off + 8 * k + 8 <= off + 8 * n);
            }
            lemma_table_done(n, entries);
        } else if read_table(n, entries) is Done {
            lemma_table_values(n, entries);
            assert(entries(n - 1) is Done);
        }
    }
}

/// The section table reads to the end exactly when it lies within the file.
pub proof fn lemma_sections_fit(b: Seq<u8>, off: int, n: nat)
    requires
        0 <= off,
    ensures
        read_table(n, section_entries(b, off)) is Done <==> (n == 0 || off + 40 * n <= b.len()),
{
    let entries = section_entries(b, off);
    if n > 0 {
        if off + 40 * n <= b.len() {
            assert forall|k: int| 0 <= k < n implies #[trigger] entries(k) is Done by {
                assert(off + 40 * k + 40 <= off + 40 * n);
            }
            lemma_table_done(n, entries);
        } else if read_table(n, entries) is Done {
            lemma_table_values(n, entries);
            assert(entries(n - 1) is Done);
        }
    }
}

/// Offsets within the file stay below this bound: they are 32-bit values plus small
/// header offsets.
pub open spec fn offset_bound() -> int {
    0x100_0000_0000
}

/// Reads `n` data directory entries from the table at `off`.
fn read_data_directories(b: &[u8], off: u64, n: u32) -> (r: Result<Vec<DataDirectory>, String>)
    requires
        off < offset_bound(),
    ensures
        match r {
            Ok(v) => read_table(n as nat, dir_entries(b@, off as int)) == Outcome::Done(v@),
            Err(e) => read_table(n as nat, dir_entries(b@, off as int)) == Outcome::<Seq<DataDirectory>>::Failed(e@),
        },
{
    let ghost entries = dir_entries(b@, off as int);
    let mut dirs: Vec<DataDirectory> = Vec::new();
    let mut i: u64 = 0;
    while i < n as u64
        invariant
            i <= n,
            off < offset_bound(),
            entries == dir_entries(b@, off as int),
            read_table(i as nat, entries) == Outcome::Done(dirs@),
        decreases n - i,
    {
        let at = off + 8 * i;
        let virtual_address = match read_u32(b, at) {
            Ok(v) => v,
            Err(e) => {
                proof {
                    lemma_table_stops((i + 1) as nat, n as nat, entries);
                }
                return Err(e);
            },
        };
        let size = match read_u32(b, at + 4) {
            Ok(v) => v,
            Err(e) => {
                proof {
                    lemma_table_stops((i + 1) as nat, n as nat, entries);
                }
                return Err(e);
            },
        };
        dirs.push(DataDirectory { virtual_address, size });
        i = i + 1;
    }
    Ok(dirs)
}

/// Reads `n` section table entries from the table at `off`.
fn read_sections(b: &[u8], off: u64, n: u16) -> (r: Result<Vec<Section>, String>)
    requires
        off < offset_bound(),
    ensures
        match r {
            Ok(v) => read_table(n as nat, section_entries(b@, off as int)) == Outcome::Done(sections_view(v@)),
            Err(e) => read_table(n as nat, section_entries(b@, off as int)) == Outcome::<Seq<SectionView>>::Failed(e@),
        },
{
    let ghost entries = section_entries(b@, off as int);
    let mut sections: Vec<Section> = Vec::new();
    let mut i: u64 = 0;
    proof {
        assert(sections_view(sections@) =~= Seq::<SectionView>::empty());
    }
    while i < n as u64
        invariant
            i <= n,
            off < offset_bound(),
            entries == section_entries(b@, off as int),
            sections@.len() == i,
            read_table(i as nat, entries) == Outcome::Done(sections_view(sections@)),
        decreases n - i,
    {
        let at = off + 40 * i;
        let len = b.len() as u64;
        if at > len || len - at < 8 {
            let e = format_with_hex("section name out of bounds at 0x", at, "");
            proof {
                lemma_table_stops((i + 1) as nat, n as nat, entries);
            }
            return Err(e);
        }
        let name_bytes = slice_subrange(b, at as usize, (at + 8) as usize);
        let name = decode_c_string(name_bytes);
        let virtual_size = match read_u32(b, at + 8) {
            Ok(v) => v,
            Err(e) => {
                proof { lemma_table_stops((i + 1) as nat, n as nat, entries); }
                return Err(e);
            },
        };
        let virtual_address = match read_u32(b, at + 12) {
            Ok(v) => v,
            Err(e) => {
                proof { lemma_table_stops((i + 1) as nat, n as nat, entries); }
                return Err(e);
            },
        };
        let raw_size = match read_u32(b, at + 16) {
            Ok(v) => v,
            Err(e) => {
                proof { lemma_table_stops((i + 1) as nat, n as nat, entries); }
                return Err(e);
            },
        };
        let raw_address = match read_u32(b, at + 20) {
            Ok(v) => v,
            Err(e) => {
                proof { lemma_table_stops((i + 1) as nat, n as nat, entries); }
                return Err(e);
            },
        };
        let characteristics = match read_u32(b, at + 36) {
            Ok(v) => v,
            Err(e) => {
                proof { lemma_table_stops((i + 1) as nat, n as nat, entries); }
                return Err(e);
            },
        };
        let ghost prev = sections@;
        sections.push(Section { name, virtual_address, virtual_size, raw_address, raw_size, characteristics });
        proof {
            assert(sections_view(sections@) =~= sections_view(prev).push(sections@[i as int]@));
        }
        i = i + 1;
    }
    Ok(sections)
}

/// The image made of the headers read so far and the data directory and section tables
/// read from `dir_off` and `sec_off`.
pub open spec fn spec_tables(
    b: Seq<u8>,
    is_64: bool,
    file_header: FileHeader,
    optional_header: OptionalHeaderView,
    dir_off: int,
    n_dirs: nat,
    sec_off: int,
) -> Outcome<ImageView> {
    match read_table(n_dirs, dir_entries(b, dir_off)) {
        Outcome::Done(dirs) => match read_table(file_header.number_of_sections as nat, section_entries(b, sec_off)) {
            Outcome::Done(sections) => Outcome::Done(ImageView {
                bytes: b,
                file_size: b.len() as u64,
                is_64,
                file_header,
                optional_header: OptionalHeaderView {
                    image_base: optional_header.image_base,
                    address_of_entry_point: optional_header.address_of_entry_point,
                    size_of_image: optional_header.size_of_image,
                    size_of_headers: optional_header.size_of_headers,
                    subsystem: optional_header.subsystem,
                    dll_characteristics: optional_header.dll_characteristics,
                    data_directories: dirs,
                },
                sections,
            }),
            Outcome::Failed(e) => Outcome::Failed(e),
            Outcome::Panics => Outcome::Panics,
        },
        Outcome::Failed(e) => Outcome::Failed(e),
        Outcome::Panics => Outcome::Panics,
    }
}

/// The image whose optional header starts at `oh`, after the file header, which gives
/// the size `size_opt` of the optional header.
pub open spec fn spec_optional_header(b: Seq<u8>, file_header: FileHeader, oh: int, size_opt: int) -> Outcome<ImageView> {
    if !in_bounds(b, oh, 2) {
        Outcome::Failed(read_error("u16"@, oh))
    } else if le_u16(b, oh) != PE32_MAGIC && le_u16(b, oh) != PE32P_MAGIC {
        Outcome::Failed(magic_message(le_u16(b, oh)))
    } else {
        let is_64 = le_u16(b, oh) == PE32P_MAGIC;
        let base_off = if is_64 { oh + 24 } else { oh + 28 };
        let count_off = if is_64 { oh + 108 } else { oh + 92 };
        if !in_bounds(b, oh + 16, 4) {
            Outcome::Failed(read_error("u32"@, oh + 16))
        } else if !in_bounds(b, oh + 56, 4) {
            Outcome::Failed(read_error("u32"@, oh + 56))
        } else if !in_bounds(b, oh + 60, 4) {
            Outcome::Failed(read_error("u32"@, oh + 60))
        } else if !in_bounds(b, oh + 68, 2) {
            Outcome::Failed(read_error("u16"@, oh + 68))
        } else if !in_bounds(b, oh + 70, 2) {
            Outcome::Failed(read_error("u16"@, oh + 70))
        } else if is_64 && !in_bounds(b, base_off, 8) {
            Outcome::Failed(read_error("u64"@, base_off))
        } else if !is_64 && !in_bounds(b, base_off, 4) {
            Outcome::Failed(read_error("u32"@, base_off))
        } else if !in_bounds(b, count_off, 4) {
            Outcome::Failed(read_error("u32"@, count_off))
        } else {
            let header = OptionalHeaderView {
                image_base: (if is_64 { le_u64(b, base_off) } else { le_u32(b, base_off) }) as u64,
                address_of_entry_point: le_u32(b, oh + 16) as u32,
                size_of_image: le_u32(b, oh + 56) as u32,
                size_of_headers: le_u32(b, oh + 60) as u32,
                subsystem: le_u16(b, oh + 68) as u16,
                dll_characteristics: le_u16(b, oh + 70) as u16,
                data_directories: seq![],
            };
            spec_tables(b, is_64, file_header, header, count_off + 4, le_u32(b, count_off) as nat, oh + size_opt)
        }
    }
}

/// The image whose COFF file header starts at `fh`.
pub open spec fn spec_file_header(b: Seq<u8>, fh: int) -> Outcome<ImageView> {
    if !in_bounds(b, fh, 2) {
        Outcome::Failed(read_error("u16"@, fh))
    } else if !in_bounds(b, fh + 2, 2) {
        Outcome::Failed(read_error("u16"@, fh + 2))
    } else if !in_bounds(b, fh + 16, 2) {
        Outcome::Failed(read_error("u16"@, fh + 16))
    } else if !in_bounds(b, fh + 18, 2) {
        Outcome::Failed(read_error("u16"@, fh + 18))
    } else {
        let header = FileHeader {
            machine: le_u16(b, fh) as u16,
            number_of_sections: le_u16(b, fh + 2) as u16,
            characteristics: le_u16(b, fh + 18) as u16,
        };
        spec_optional_header(b, header, fh + 20, le_u16(b, fh + 16))
    }
}

/// The image whose NT headers (the `PE\0\0` signature) start at `nt`.
pub open spec fn spec_nt_headers(b: Seq<u8>, nt: int) -> Outcome<ImageView> {
    if !in_bounds(b, nt, 4) {
        Outcome::Failed(read_error("u32"@, nt))
    } else if le_u32(b, nt) != PE_SIG {
        Outcome::Failed(no_pe_message())
    } else {
        spec_file_header(b, nt + 4)
    }
}

/// What parsing the bytes `b` of a file comes to: the image, or the message of the
/// first check that fails.
pub open spec fn spec_parse(b: Seq<u8>) -> Outcome<ImageView> {
    if !in_bounds(b, 0, 2) {
        Outcome::Failed(read_error("u16"@, 0))
    } else if le_u16(b, 0) != DOS_SIG {
        Outcome::Failed(no_mz_message())
    } else if !in_bounds(b, 0x3c, 4) {
        Outcome::Failed(read_error("u32"@, 0x3c))
    } else {
        spec_nt_headers(b, le_u32(b, 0x3c))
    }
}

/// Reads the data directory and section tables and assembles the image.
fn parse_tables(
    bytes: Vec<u8>,
    is_64: bool,
    file_header: FileHeader,
    optional_header: OptionalHeader,
    dir_off: u64,
    n_dirs: u32,
    sec_off: u64,
) -> (r: Result<Image, String>)
    requires
        dir_off < offset_bound(),
        sec_off < offset_bound(),
    ensures
        match r {
            Ok(img) => spec_tables(bytes@, is_64, file_header, optional_header@, dir_off as int, n_dirs as nat, sec_off as int) == Outcome::Done(img@),
            Err(e) => spec_tables(bytes@, is_64, file_header, optional_header@, dir_off as int, n_dirs as nat, sec_off as int) == Outcome::<ImageView>::Failed(e@),
        },
{
    let data_directories = match read_data_directories(bytes.as_slice(), dir_off, n_dirs) {
        Ok(d) => d,
        Err(e) => return Err(e),
    };
    let sections = match read_sections(bytes.as_slice(), sec_off, file_header.number_of_sections) {
        Ok(s) => s,
        Err(e) => return Err(e),
    };
    let file_size = bytes.len() as u64;
    let img = Image {
        bytes,
        file_size,
        is_64,
        file_header,
        optional_header: OptionalHeader {
            image_base: optional_header.image_base,
            address_of_entry_point: optional_header.address_of_entry_point,
            size_of_image: optional_header.size_of_image,
            size_of_headers: optional_header.size_of_headers,
            subsystem: optional_header.subsystem,
            dll_characteristics: optional_header.dll_characteristics,
            data_directories,
        },
        sections,
    };
    Ok(img)
}

/// Reads the optional header at `oh`, then the tables it leads to.
fn parse_optional_header(bytes: Vec<u8>, file_header: FileHeader, oh: u64, size_opt: u16) -> (r: Result<Image, String>)
    requires
        oh < 0x1_0000_0100,
    ensures
        match r {
            Ok(img) => spec_optional_header(bytes@, file_header, oh as int, size_opt as int) == Outcome::Done(img@),
            Err(e) => spec_optional_header(bytes@, file_header, oh as int, size_opt as int) == Outcome::<ImageView>::Failed(e@),
        },
{
    let b = bytes.as_slice();
    let magic = read_u16(b, oh)?;
    let is_64 = if magic == PE32_MAGIC {
        false
    } else if magic == PE32P_MAGIC {
        true
    } else {
        return Err(format_with_hex("unknown OptionalHeader magic 0x", magic as u64, ""));
    };
    let address_of_entry_point = read_u32(b, oh + 16)?;
    let size_of_image = read_u32(b, oh + 56)?;
    let size_of_headers = read_u32(b, oh + 60)?;
    let subsystem = read_u16(b, oh + 68)?;
    let dll_characteristics = read_u16(b, oh + 70)?;
    let (image_base, count_off) = if is_64 {
        (read_u64(b, oh + 24)?, oh + 108)
    } else {
        (read_u32(b, oh + 28)? as u64, oh + 92)
    };
    let n_dirs = read_u32(b, count_off)?;
    let optional_header = OptionalHeader {
        image_base,
        address_of_entry_point,
        size_of_image,
        size_of_headers,
        subsystem,
        dll_characteristics,
        data_directories: Vec::new(),
    };
    proof {
        assert(optional_header@.data_directories =~= Seq::<DataDirectory>::empty());
    }
    parse_tables(bytes, is_64, file_header, optional_header, count_off + 4, n_dirs, oh + size_opt as u64)
}

/// Reads the COFF file header at `fh`, then the optional header that follows it.
fn parse_file_header(bytes: Vec<u8>, fh: u64) -> (r: Result<Image, String>)
    requires
        fh < 0x1_0000_0010,
    ensures
        match r {
            Ok(img) => spec_file_header(bytes@, fh as int) == Outcome::Done(img@),
            Err(e) => spec_file_header(bytes@, fh as int) == Outcome::<ImageView>::Failed(e@),
        },
{
    let b = bytes.as_slice();
    let machine = read_u16(b, fh)?;
    let number_of_sections = read_u16(b, fh + 2)?;
    let size_of_optional_header = read_u16(b, fh + 16)?;
    let characteristics = read_u16(b, fh + 18)?;
    let file_header = FileHeader { machine, number_of_sections, characteristics };
    parse_optional_header(bytes, file_header, fh + 20, size_of_optional_header)
}

/// Checks the `PE\0\0` signature at `nt`, then reads the headers that follow it.
fn parse_nt_headers(bytes: Vec<u8>, nt: u64) -> (r: Result<Image, String>)
    requires
        nt < 0x1_0000_0000,
    ensures
        match r {
            Ok(img) => spec_nt_headers(bytes@, nt as int) == Outcome::Done(img@),
            Err(e) => spec_nt_headers(bytes@, nt as int) == Outcome::<ImageView>::Failed(e@),
        },
{
    if read_u32(bytes.as_slice(), nt)? != PE_SIG {
        return Err(String::from_str("not a PE file (missing PE\\0\\0 signature)"));
    }
    parse_file_header(bytes, nt + 4)
}

impl Image {
    /// Parses the headers, data directories and section table of a PE file. Fails with
    /// the message of the first check that fails: a missing signature, an unknown
    /// optional header magic, or a read beyond the end of the file.
    pub fn parse(bytes: Vec<u8>) -> (r: Result<Image, String>)
        ensures
            match r {
                Ok(img) => spec_parse(bytes@) == Outcome::Done(img@),
                Err(e) => spec_parse(bytes@) == Outcome::<ImageView>::Failed(e@),
            },
    {
        let b = bytes.as_slice();
        if read_u16(b, 0)? != DOS_SIG {
            return Err(String::from_str("not a PE file (missing MZ signature)"));
        }
        let nt = read_u32(b, 0x3c)? as u64;
        parse_nt_headers(bytes, nt)
    }
}

/// Parsing never panics: every input gives an image or an error message.
pub proof fn lemma_parse_never_panics(b: Seq<u8>)
    ensures
        !(spec_parse(b) is Panics),
{
    if in_bounds(b, 0, 2) && le_u16(b, 0) == DOS_SIG && in_bounds(b, 0x3c, 4) {
        let nt = le_u32(b, 0x3c);
        let fh = nt + 4;
        let oh = fh + 20;
        let nsec = le_u16(b, fh + 2) as u16;
        let is_64 = le_u16(b, oh) == PE32P_MAGIC;
        let count_off = if is_64 { oh + 108 } else { oh + 92 };
        let dirs = dir_entries(b, count_off + 4);
        let secs = section_entries(b, oh + le_u16(b, fh + 16));
        assert forall|k: int| 0 <= k < le_u32(b, count_off) implies !(#[trigger] dirs(k) is Panics) by {}
        assert forall|k: int| 0 <= k < nsec implies !(#[trigger] secs(k) is Panics) by {}
        lemma_table_no_panics(le_u32(b, count_off) as nat, dirs);
        lemma_table_no_panics(nsec as nat, secs);
    }
}

/// A parsed image keeps the file's bytes and size, was found behind the `MZ` and
/// `PE\0\0` signatures, holds as many sections as its file header counts, and is
/// 64-bit exactly when its optional header has the PE32+ magic.
pub proof fn lemma_parsed_image(b: Seq<u8>)
    requires
        spec_parse(b) is Done,
    ensures
        ({
            let img = spec_parse(b)->Done_0;
            let nt = le_u32(b, 0x3c);
            &&& img.bytes == b
            &&& img.file_size == b.len() as u64
            &&& le_u16(b, 0) == DOS_SIG
            &&& le_u32(b, nt) == PE_SIG
            &&& img.sections.len() == img.file_header.number_of_sections
            &&& img.file_header.number_of_sections == le_u16(b, nt + 6)
            &&& img.is_64 == (le_u16(b, nt + 24) == PE32P_MAGIC)
        }),
{
    let nt = le_u32(b, 0x3c);
    let fh = nt + 4;
    let oh = fh + 20;
    let nsec = le_u16(b, fh + 2) as u16;
    let is_64 = le_u16(b, oh) == PE32P_MAGIC;
    let count_off = if is_64 { oh + 108 } else { oh + 92 };
    let secs = section_entries(b, oh + le_u16(b, fh + 16));
    lemma_table_values(nsec as nat, secs);
}

/// Where each field of a parsed image comes from in the file. With `nt` the offset of
/// the NT headers (the `u32` at 0x3c), the file header at `nt + 4` and the optional
/// header at `oh = nt + 24`: the machine, section count and characteristics are the
/// `u16`s at `nt + 4`, `nt + 6` and `nt + 22`; the entry point and the sizes of image and
/// headers are the `u32`s at `oh + 16`, `oh + 56` and `oh + 60`; the subsystem and the DLL
/// characteristics are the `u16`s at `oh + 68` and `oh + 70` for PE32 and PE32+ alike; the
/// image base is the `u64` at `oh + 24` (PE32+) or the `u32` at `oh + 28` (PE32); the
/// data directory count is the `u32` at `oh + 108` (PE32+) or `oh + 92` (PE32), and
/// directory `k` is the pair of `u32`s just after it at `8 * k`; section `k` is the
/// 40-byte entry at `oh + SizeOfOptionalHeader + 40 * k` (SizeOfOptionalHeader the `u16`
/// at `nt + 20`), its name the text of its first 8 bytes, its virtual size, address, raw
/// size and raw address the `u32`s at 8, 12, 16 and 20, its characteristics the `u32` at 36.
pub proof fn lemma_parsed_image_fields(b: Seq<u8>)
    requires
        spec_parse(b) is Done,
    ensures
        ({
            let img = spec_parse(b)->Done_0;
            let nt = le_u32(b, 0x3c);
            let oh = nt + 24;
            let is_64 = le_u16(b, oh) == 0x20b;
            let count_off = if is_64 { oh + 108 } else { oh + 92 };
            let sec = oh + le_u16(b, nt + 20);
            &&& img.bytes == b
            &&& img.file_size == b.len() as u64
            &&& le_u16(b, 0) == 0x5a4d
            &&& le_u32(b, nt) == 0x4550
            &&& le_u16(b, oh) == 0x10b || le_u16(b, oh) == 0x20b
            &&& img.is_64 == is_64
            &&& img.file_header.machine == le_u16(b, nt + 4)
            &&& img.file_header.number_of_sections == le_u16(b, nt + 6)
            &&& img.file_header.characteristics == le_u16(b, nt + 22)
            &&& img.optional_header.address_of_entry_point == le_u32(b, oh + 16)
            &&& img.optional_header.size_of_image == le_u32(b, oh + 56)
            &&& img.optional_header.size_of_headers == le_u32(b, oh + 60)
            &&& img.optional_header.subsystem == le_u16(b, oh + 68)
            &&& img.optional_header.dll_characteristics == le_u16(b, oh + 70)
            &&& img.optional_header.image_base == (if is_64 { le_u64(b, oh + 24) } else { le_u32(b, oh + 28) })
            &&& img.optional_header.data_directories.len() == le_u32(b, count_off)
            &&& forall|k: int| 0 <= k < img.optional_header.data_directories.len() ==> {
                &&& (#[trigger] img.optional_header.data_directories[k]).virtual_address == le_u32(b, count_off + 4 + 8 * k)
                &&& img.optional_header.data_directories[k].size == le_u32(b, count_off + 8 + 8 * k)
            }
            &&& img.sections.len() == le_u16(b, nt + 6)
            &&& forall|k: int| 0 <= k < img.sections.len() ==> {
                &&& in_bounds(b, sec + 40 * k, 40)
                &&& (#[trigger] img.sections[k]).name == c_string(b.subrange(sec + 40 * k, sec + 40 * k + 8))
                &&& img.sections[k].virtual_size == le_u32(b, sec + 40 * k + 8)
                &&& img.sections[k].virtual_address == le_u32(b, sec + 40 * k + 12)
                &&& img.sections[k].raw_size == le_u32(b, sec + 40 * k + 16)
                &&& img.sections[k].raw_address == le_u32(b, sec + 40 * k + 20)
                &&& img.sections[k].characteristics == le_u32(b, sec + 40 * k + 36)
            }
        }),
{
    let img = spec_parse(b)->Done_0;
    let nt = le_u32(b, 0x3c);
    let fh = nt + 4;
    let oh = fh + 20;
    let nsec = le_u16(b, fh + 2) as u16;
    let is_64 = le_u16(b, oh) == PE32P_MAGIC;
    let count_off = if is_64 { oh + 108 } else { oh + 92 };
    let sec = oh + le_u16(b, fh + 16);
    let dirs = dir_entries(b, count_off + 4);
    let secs = section_entries(b, sec);
    let n_dirs = le_u32(b, count_off) as nat;
    lemma_table_values(n_dirs, dirs);
    lemma_table_values(nsec as nat, secs);
    let dv = read_table(n_dirs, dirs)->Done_0;
    let sv = read_table(nsec as nat, secs)->Done_0;
    assert(img.optional_header.data_directories == dv);
    assert(img.sections == sv);
    assert forall|k: int| 0 <= k < dv.len() implies {
        &&& (#[trigger] dv[k]).virtual_address == le_u32(b, count_off + 4 + 8 * k)
        &&& dv[k].size == le_u32(b, count_off + 8 + 8 * k)
    } by {
        assert(dirs(k) == Outcome::Done(dv[k]));
    }
    assert forall|k: int| 0 <= k < sv.len() implies {
        &&& in_bounds(b, sec + 40 * k, 40)
        &&& (#[trigger] sv[k]).name == c_string(b.subrange(sec + 40 * k, sec + 40 * k + 8))
        &&& sv[k].virtual_size == le_u32(b, sec + 40 * k + 8)
        &&& sv[k].virtual_address == le_u32(b, sec + 40 * k + 12)
        &&& sv[k].raw_size == le_u32(b, sec + 40 * k + 16)
        &&& sv[k].raw_address == le_u32(b, sec + 40 * k + 20)
        &&& sv[k].characteristics == le_u32(b, sec + 40 * k + 36)
    } by {
        assert(secs(k) == Outcome::Done(sv[k]));
    }
}

} // verus!
