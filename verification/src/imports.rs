//! The import directory: the DLLs an image imports from and the functions it takes
//! from each, by name or by ordinal.
use vstd::prelude::*;
use crate::outcome::{Outcome, prepend, lemma_prepend_prepend, lemma_prepend_empty};
use crate::pe::{
    DataDirectory, Image, ImageView, Import, ImportFn, ImportFnView, ImportView, import_fns_view,
    imports_view, sections_view,
};
use crate::read::{in_bounds, le_u32, le_u64, read_error, read_u32, read_u64};
use crate::rva::{spec_rva_to_offset, lemma_rva_to_offset_range};
use crate::text::{c_string, read_cstring};

verus! {

/// The import directory entry: the second data directory, or an empty one when the
/// image has fewer than two.
pub open spec fn import_directory(img: ImageView) -> DataDirectory {
    if img.optional_header.data_directories.len() > 1 {
        img.optional_header.data_directories[1]
    } else {
        DataDirectory { virtual_address: 0, size: 0 }
    }
}

/// The size in bytes of an import lookup table entry.
pub open spec fn thunk_size(is_64: bool) -> int {
    if is_64 { 8 } else { 4 }
}

/// The bit of a lookup table entry that marks an import by ordinal.
pub open spec fn ordinal_flag(is_64: bool) -> u64 {
    if is_64 { 0x8000_0000_0000_0000 } else { 0x8000_0000 }
}

/// The lookup table entry at `off`.
pub open spec fn thunk_value(img: ImageView, off: int) -> u64 {
    (if img.is_64 { le_u64(img.bytes, off) } else { le_u32(img.bytes, off) }) as u64
}

/// The message for a lookup table entry that lies beyond the end of the file.
pub open spec fn thunk_read_error(is_64: bool, off: int) -> Seq<char> {
    read_error(if is_64 { "u64"@ } else { "u32"@ }, off)
}

/// The function that a nonzero lookup table entry imports: an ordinal when the
/// ordinal bit is set, else the name in the hint/name entry the entry points to.
pub open spec fn import_name(img: ImageView, entry: u64) -> Outcome<ImportFnView> {
    if entry & ordinal_flag(img.is_64) != 0 {
        Outcome::Done(ImportFnView::Ordinal((entry & 0xffff) as u16))
    } else {
        match spec_rva_to_offset(img.sections, entry as u32) {
            None => Outcome::Failed("import: name table entry -> offset failed"@),
            Some(n) => if n + 2 > img.bytes.len() {
                Outcome::Panics
            } else {
                Outcome::Done(ImportFnView::Named(c_string(img.bytes.skip(n + 2))))
            },
        }
    }
}

/// The functions of the lookup table at `off`, up to its zero entry.
pub open spec fn import_functions(img: ImageView, off: int) -> Outcome<Seq<ImportFnView>>
    decreases img.bytes.len() - off,
{
    if !in_bounds(img.bytes, off, thunk_size(img.is_64)) {
        Outcome::Failed(thunk_read_error(img.is_64, off))
    } else {
        let entry = thunk_value(img, off);
        if entry == 0 {
            Outcome::Done(seq![])
        } else {
            match import_name(img, entry) {
                Outcome::Done(f) => prepend(seq![f], import_functions(img, off + thunk_size(img.is_64))),
                Outcome::Failed(e) => Outcome::Failed(e),
                Outcome::Panics => Outcome::Panics,
            }
        }
    }
}

/// The import that a descriptor with the given lookup table, name and address table
/// addresses describes.
pub open spec fn import_entry(img: ImageView, lookup_table_rva: u32, name_rva: u32, address_table_rva: u32) -> Outcome<ImportView> {
    match spec_rva_to_offset(img.sections, name_rva) {
        None => Outcome::Failed("import: dll name RVA -> offset failed"@),
        Some(name_off) => if name_off > img.bytes.len() {
            Outcome::Panics
        } else {
            let lookup_rva = if lookup_table_rva != 0 { lookup_table_rva } else { address_table_rva };
            match spec_rva_to_offset(img.sections, lookup_rva) {
                None => Outcome::Failed("import: lookup table RVA -> offset failed"@),
                Some(lookup_off) => match import_functions(img, lookup_off) {
                    Outcome::Done(functions) => Outcome::Done(ImportView { dll: c_string(img.bytes.skip(name_off)), functions }),
                    Outcome::Failed(e) => Outcome::Failed(e),
                    Outcome::Panics => Outcome::Panics,
                },
            }
        }
    }
}

/// The imports of the descriptor table at `pos`, up to its terminating descriptor
/// (one whose name and address table addresses are both zero).
pub open spec fn import_descriptors(img: ImageView, pos: int) -> Outcome<Seq<ImportView>>
    decreases img.bytes.len() - pos,
{
    let b = img.bytes;
    if !in_bounds(b, pos, 4) {
        Outcome::Failed(read_error("u32"@, pos))
    } else if !in_bounds(b, pos + 12, 4) {
        Outcome::Failed(read_error("u32"@, pos + 12))
    } else if !in_bounds(b, pos + 16, 4) {
        Outcome::Failed(read_error("u32"@, pos + 16))
    } else if le_u32(b, pos + 12) == 0 && le_u32(b, pos + 16) == 0 {
        Outcome::Done(seq![])
    } else {
        match import_entry(img, le_u32(b, pos) as u32, le_u32(b, pos + 12) as u32, le_u32(b, pos + 16) as u32) {
            Outcome::Done(imp) => prepend(seq![imp], import_descriptors(img, pos + 20)),
            Outcome::Failed(e) => Outcome::Failed(e),
            Outcome::Panics => Outcome::Panics,
        }
    }
}

/// What walking the import directory of an image comes to.
pub open spec fn spec_imports(img: ImageView) -> Outcome<Seq<ImportView>> {
    let dir = import_directory(img);
    if dir.virtual_address == 0 {
        Outcome::Done(seq![])
    } else {
        match spec_rva_to_offset(img.sections, dir.virtual_address) {
            None => Outcome::Failed("imports: directory RVA -> offset failed"@),
            Some(start) => import_descriptors(img, start),
        }
    }
}

/// Entry `j` of a lookup table at `off`: the `u64` at `off + 8 * j` in a PE32+ image,
/// the `u32` at `off + 4 * j` in a PE32 image.
pub open spec fn lookup_entry(img: ImageView, off: int, j: int) -> int {
    if img.is_64 {
        le_u64(img.bytes, off + 8 * j)
    } else {
        le_u32(img.bytes, off + 4 * j)
    }
}

/// The offset of entry `j` of a lookup table at `off`.
pub open spec fn lookup_entry_off(img: ImageView, off: int, j: int) -> int {
    if img.is_64 { off + 8 * j } else { off + 4 * j }
}

proof fn lemma_thunk_bits(x: u64, is_64: bool)
    requires
        !is_64 ==> x < 0x1_0000_0000,
    ensures
        (x & ordinal_flag(is_64) != 0) == (x >= ordinal_flag(is_64)),
        (x & 0xffff) as u16 == (x % 0x10000) as u16,
        x as u32 == (x % 0x1_0000_0000) as u32,
{
    assert((x & 0x8000_0000_0000_0000u64 != 0) == (x >= 0x8000_0000_0000_0000u64)) by (bit_vector);
    assert(x < 0x1_0000_0000 ==> ((x & 0x8000_0000u64 != 0) == (x >= 0x8000_0000u64))) by (bit_vector);
    assert((x & 0xffff) as u16 == (x % 0x10000) as u16) by (bit_vector);
    assert(x as u32 == (x % 0x1_0000_0000) as u32) by (bit_vector);
}

/// What a lookup table gives, entry by entry: the functions are those of the entries
/// before the first zero entry, in order; an entry at or above the ordinal flag (bit 63
/// in PE32+, bit 31 in PE32) imports by the ordinal in its low 16 bits; any other entry
/// imports by name, the text two bytes (past the hint) after the offset of the address
/// in its low 32 bits.
pub proof fn lemma_import_functions_from_table(img: ImageView, off: int)
    requires
        0 <= off,
        import_functions(img, off) is Done,
    ensures
        ({
            let b = img.bytes;
            let fs = import_functions(img, off)->Done_0;
            let flag: int = if img.is_64 { 0x8000_0000_0000_0000 } else { 0x8000_0000 };
            let width: int = if img.is_64 { 8 } else { 4 };
            &&& forall|j: int| 0 <= j < fs.len() ==> {
                let e = lookup_entry(img, off, j);
                &&& in_bounds(b, lookup_entry_off(img, off, j), width)
                &&& e != 0
                &&& e >= flag ==> (#[trigger] fs[j]) == ImportFnView::Ordinal((e % 0x10000) as u16)
                &&& e < flag ==> spec_rva_to_offset(img.sections, (e % 0x1_0000_0000) as u32) is Some
                    && fs[j] == ImportFnView::Named(c_string(b.skip(spec_rva_to_offset(img.sections, (e % 0x1_0000_0000) as u32)->Some_0 + 2)))
            }
            &&& in_bounds(b, lookup_entry_off(img, off, fs.len() as int), width)
            &&& lookup_entry(img, off, fs.len() as int) == 0
        }),
    decreases img.bytes.len() - off,
{
    let b = img.bytes;
    let w = thunk_size(img.is_64);
    let entry = thunk_value(img, off);
    assert(in_bounds(b, off, w));
    assert(lookup_entry(img, off, 0) == entry as int);
    if entry != 0 {
        let f = import_name(img, entry);
        let rest = import_functions(img, off + w);
        assert(f is Done);
        assert(rest is Done);
        lemma_import_functions_from_table(img, off + w);
        let fs = import_functions(img, off)->Done_0;
        let rs = rest->Done_0;
        assert(fs == seq![f->Done_0] + rs);
        if !img.is_64 {
            assert(entry < 0x1_0000_0000);
        }
        lemma_thunk_bits(entry, img.is_64);
        assert(lookup_entry(img, off + w, rs.len() as int) == lookup_entry(img, off, fs.len() as int));
        assert(lookup_entry_off(img, off + w, rs.len() as int) == lookup_entry_off(img, off, fs.len() as int));
        let flag: int = if img.is_64 { 0x8000_0000_0000_0000 } else { 0x8000_0000 };
        let width: int = if img.is_64 { 8 } else { 4 };
        assert forall|j: int| 0 <= j < fs.len() implies {
            let e = lookup_entry(img, off, j);
            &&& in_bounds(b, lookup_entry_off(img, off, j), width)
            &&& e != 0
            &&& e >= flag ==> (#[trigger] fs[j]) == ImportFnView::Ordinal((e % 0x10000) as u16)
            &&& e < flag ==> spec_rva_to_offset(img.sections, (e % 0x1_0000_0000) as u32) is Some
                && fs[j] == ImportFnView::Named(c_string(b.skip(spec_rva_to_offset(img.sections, (e % 0x1_0000_0000) as u32)->Some_0 + 2)))
        } by {
            if j > 0 {
                assert(fs[j] == rs[j - 1]);
                assert(lookup_entry(img, off + w, j - 1) == lookup_entry(img, off, j));
                assert(lookup_entry_off(img, off + w, j - 1) == lookup_entry_off(img, off, j));
            }
        }
    } else {
        assert(import_functions(img, off)->Done_0.len() == 0);
    }
}

/// What the import directory gives, descriptor by descriptor: with `start` the offset
/// of the address of the second data directory, import `i` is read from the 20-byte descriptor at `start + 20 * i`,
/// whose name or address table field (the `u32`s at 12 and 16) is nonzero; its DLL name
/// is the text at the offset of the address at 12, and its functions are those of the
/// lookup table at the offset of the address at 0, or at 16 when that is zero. The
/// descriptor just after the last import has both fields zero.
pub proof fn lemma_imports_from_descriptors(img: ImageView)
    requires
        img.optional_header.data_directories.len() > 1,
        img.optional_header.data_directories[1].virtual_address != 0,
        spec_imports(img) is Done,
    ensures
        spec_rva_to_offset(img.sections, img.optional_header.data_directories[1].virtual_address) is Some,
        read_from_descriptors(img, spec_rva_to_offset(img.sections, img.optional_header.data_directories[1].virtual_address)->Some_0, spec_imports(img)->Done_0),
{
    let start = spec_rva_to_offset(img.sections, img.optional_header.data_directories[1].virtual_address)->Some_0;
    lemma_rva_to_offset_range(img.sections, img.optional_header.data_directories[1].virtual_address);
    lemma_descriptors_from(img, start);
}

/// The import `imp` is read from the 20-byte descriptor at `d`: its name or address
/// table field (the `u32`s at 12 and 16) is nonzero; its DLL name is the text at the
/// offset of the address at 12; its functions are those of the lookup table at the
/// offset of the address at 0, or at 16 when that is zero.
pub open spec fn read_from_descriptor(img: ImageView, d: int, imp: ImportView) -> bool {
    let b = img.bytes;
    let lookup = if le_u32(b, d) != 0 { le_u32(b, d) } else { le_u32(b, d + 16) };
    &&& in_bounds(b, d, 20)
    &&& !(le_u32(b, d + 12) == 0 && le_u32(b, d + 16) == 0)
    &&& spec_rva_to_offset(img.sections, le_u32(b, d + 12) as u32) is Some
    &&& imp.dll == c_string(b.skip(spec_rva_to_offset(img.sections, le_u32(b, d + 12) as u32)->Some_0))
    &&& spec_rva_to_offset(img.sections, lookup as u32) is Some
    &&& import_functions(img, spec_rva_to_offset(img.sections, lookup as u32)->Some_0) == Outcome::Done(imp.functions)
}

/// The imports `v` are read one per descriptor from the table at `pos`, import `i` from
/// the descriptor at `pos + 20 * i`, and the descriptor after the last has both its name
/// and address table fields zero.
pub open spec fn read_from_descriptors(img: ImageView, pos: int, v: Seq<ImportView>) -> bool {
    let b = img.bytes;
    &&& forall|i: int| 0 <= i < v.len() ==> read_from_descriptor(img, pos + 20 * i, #[trigger] v[i])
    &&& in_bounds(b, pos + 20 * v.len(), 20)
    &&& le_u32(b, pos + 20 * v.len() + 12) == 0
    &&& le_u32(b, pos + 20 * v.len() + 16) == 0
}

proof fn lemma_descriptors_from(img: ImageView, pos: int)
    requires
        0 <= pos,
        import_descriptors(img, pos) is Done,
    ensures
        read_from_descriptors(img, pos, import_descriptors(img, pos)->Done_0),
    decreases img.bytes.len() - pos,
{
    let b = img.bytes;
    let v = import_descriptors(img, pos)->Done_0;
    if !(le_u32(b, pos + 12) == 0 && le_u32(b, pos + 16) == 0) {
        let e = import_entry(img, le_u32(b, pos) as u32, le_u32(b, pos + 12) as u32, le_u32(b, pos + 16) as u32);
        assert(e is Done);
        lemma_descriptors_from(img, pos + 20);
        let rs = import_descriptors(img, pos + 20)->Done_0;
        assert(v == seq![e->Done_0] + rs);
        assert(read_from_descriptor(img, pos, e->Done_0));
        assert forall|i: int| 0 <= i < v.len() implies read_from_descriptor(img, pos + 20 * i, #[trigger] v[i]) by {
            if i > 0 {
                assert(v[i] == rs[i - 1]);
                assert(pos + 20 + 20 * (i - 1) == pos + 20 * i);
                assert(read_from_descriptor(img, pos + 20 + 20 * (i - 1), rs[i - 1]));
            } else {
                assert(pos + 20 * i == pos);
                assert(v[i] == e->Done_0);
            }
        }
        assert(pos + 20 + 20 * rs.len() == pos + 20 * v.len());
    } else {
        assert(v.len() == 0);
    }
}

/// An image whose second data directory is missing or has a zero address imports nothing.
pub proof fn lemma_imports_without_directory(img: ImageView)
    requires
        img.optional_header.data_directories.len() <= 1 || img.optional_header.data_directories[1].virtual_address == 0,
    ensures
        spec_imports(img) == Outcome::Done(Seq::<ImportView>::empty()),
{
}

/// An image without an import directory imports nothing.
pub proof fn lemma_no_import_directory(img: ImageView)
    requires
        import_directory(img).virtual_address == 0,
    ensures
        spec_imports(img) == Outcome::Done(Seq::<ImportView>::empty()),
{
}

/// The buffer is no longer than a Rust allocation can be.
pub open spec fn buffer_fits(img: ImageView) -> bool {
    img.bytes.len() <= isize::MAX
}

impl Image {
    /// Reads the functions of the lookup table at `start`. `None` where reading a
    /// name would index beyond the end of the file.
    fn import_functions_at(&self, start: u64) -> (r: Option<Result<Vec<ImportFn>, String>>)
        requires
            start < 0x4_0000_0000,
            buffer_fits(self@),
        ensures
            match r {
                None => import_functions(self@, start as int) is Panics,
                Some(Ok(v)) => import_functions(self@, start as int) == Outcome::Done(import_fns_view(v@)),
                Some(Err(e)) => import_functions(self@, start as int) == Outcome::<Seq<ImportFnView>>::Failed(e@),
            },
    {
        let b = self.bytes.as_slice();
        let ghost img = self@;
        let stride: u64 = if self.is_64 { 8 } else { 4 };
        let ord_flag: u64 = if self.is_64 { 0x8000_0000_0000_0000 } else { 0x8000_0000 };
        let mut functions: Vec<ImportFn> = Vec::new();
        let mut off = start;
        proof {
            assert(import_fns_view(functions@) =~= Seq::<ImportFnView>::empty());
            lemma_prepend_empty(import_functions(img, start as int));
        }
        loop
            invariant
                img == self@,
                b@ == img.bytes,
                buffer_fits(img),
                stride == thunk_size(img.is_64),
                ord_flag == ordinal_flag(img.is_64),
                off < 0x4_0000_0000 || off <= b@.len(),
                import_functions(img, start as int) == prepend(import_fns_view(functions@), import_functions(img, off as int)),
            decreases b@.len() - off,
        {
            let entry: u64 = if self.is_64 {
                match read_u64(b, off) {
                    Ok(v) => v,
                    Err(e) => return Some(Err(e)),
                }
            } else {
                match read_u32(b, off) {
                    Ok(v) => v as u64,
                    Err(e) => return Some(Err(e)),
                }
            };
            if entry == 0 {
                proof {
                    assert(import_fns_view(functions@) + Seq::<ImportFnView>::empty() =~= import_fns_view(functions@));
                }
                return Some(Ok(functions));
            }
            let f = if entry & ord_flag != 0 {
                ImportFn::Ordinal((entry & 0xffff) as u16)
            } else {
                let n_off = match self.rva_to_offset(entry as u32) {
                    Some(o) => o,
                    None => return Some(Err(String::from_str("import: name table entry -> offset failed"))),
                };
                if n_off + 2 > b.len() as u64 {
                    return None;
                }
                ImportFn::Named(read_cstring(b, n_off + 2))
            };
            proof {
                lemma_prepend_prepend(import_fns_view(functions@), seq![f@], import_functions(img, off + stride));
            }
            let ghost prev = functions@;
            functions.push(f);
            proof {
                assert(import_fns_view(functions@) =~= import_fns_view(prev) + seq![f@]);
            }
            off = off + stride;
        }
    }

    /// Reads the import that a descriptor describes. `None` where reading the DLL name
    /// or a function name would index beyond the end of the file.
    fn import_entry_of(&self, lookup_table_rva: u32, name_rva: u32, address_table_rva: u32) -> (r: Option<Result<Import, String>>)
        requires
            buffer_fits(self@),
        ensures
            match r {
                None => import_entry(self@, lookup_table_rva, name_rva, address_table_rva) is Panics,
                Some(Ok(v)) => import_entry(self@, lookup_table_rva, name_rva, address_table_rva) == Outcome::Done(v@),
                Some(Err(e)) => import_entry(self@, lookup_table_rva, name_rva, address_table_rva) == Outcome::<ImportView>::Failed(e@),
            },
    {
        let b = self.bytes.as_slice();
        let name_off = match self.rva_to_offset(name_rva) {
            Some(o) => o,
            None => return Some(Err(String::from_str("import: dll name RVA -> offset failed"))),
        };
        if name_off > b.len() as u64 {
            return None;
        }
        let dll = read_cstring(b, name_off);
        let lookup_rva = if lookup_table_rva != 0 { lookup_table_rva } else { address_table_rva };
        let lookup_off = match self.rva_to_offset(lookup_rva) {
            Some(o) => o,
            None => return Some(Err(String::from_str("import: lookup table RVA -> offset failed"))),
        };
        match self.import_functions_at(lookup_off) {
            None => None,
            Some(Err(e)) => Some(Err(e)),
            Some(Ok(functions)) => Some(Ok(Import { dll, functions })),
        }
    }

    /// Walks the import directory: each descriptor's DLL name and the functions of its
    /// lookup table. `None` exactly where the walk would index beyond the end of the
    /// file when reading a name.
    pub fn checked_imports(&self) -> (r: Option<Result<Vec<Import>, String>>)
        requires
            buffer_fits(self@),
        ensures
            match r {
                None => spec_imports(self@) is Panics,
                Some(Ok(v)) => spec_imports(self@) == Outcome::Done(imports_view(v@)),
                Some(Err(e)) => spec_imports(self@) == Outcome::<Seq<ImportView>>::Failed(e@),
            },
    {
        let ghost img = self@;
        let dir = if self.optional_header.data_directories.len() > 1 {
            self.optional_header.data_directories[1]
        } else {
            DataDirectory { virtual_address: 0, size: 0 }
        };
        if dir.virtual_address == 0 {
            let none: Vec<Import> = Vec::new();
            proof {
                assert(imports_view(none@) =~= Seq::<ImportView>::empty());
            }
            return Some(Ok(none));
        }
        let start = match self.rva_to_offset(dir.virtual_address) {
            Some(o) => o,
            None => return Some(Err(String::from_str("imports: directory RVA -> offset failed"))),
        };
        let b = self.bytes.as_slice();
        let mut out: Vec<Import> = Vec::new();
        let mut pos = start;
        proof {
            assert(imports_view(out@) =~= Seq::<ImportView>::empty());
            lemma_prepend_empty(import_descriptors(img, start as int));
        }
        loop
            invariant
                img == self@,
                b@ == img.bytes,
                buffer_fits(img),
                pos < 0x2_0000_0000 || pos <= b@.len(),
                spec_imports(img) == prepend(imports_view(out@), import_descriptors(img, pos as int)),
            decreases b@.len() - pos,
        {
            let lookup_table_rva = match read_u32(b, pos) {
                Ok(v) => v,
                Err(e) => return Some(Err(e)),
            };
            let name_rva = match read_u32(b, pos + 12) {
                Ok(v) => v,
                Err(e) => return Some(Err(e)),
            };
            let address_table_rva = match read_u32(b, pos + 16) {
                Ok(v) => v,
                Err(e) => return Some(Err(e)),
            };
            if name_rva == 0 && address_table_rva == 0 {
                proof {
                    assert(imports_view(out@) + Seq::<ImportView>::empty() =~= imports_view(out@));
                }
                return Some(Ok(out));
            }
            let ghost old_pos = pos;
            pos = pos + 20;
            let imp = match self.import_entry_of(lookup_table_rva, name_rva, address_table_rva) {
                None => return None,
                Some(Err(e)) => return Some(Err(e)),
                Some(Ok(imp)) => imp,
            };
            proof {
                lemma_prepend_prepend(imports_view(out@), seq![imp@], import_descriptors(img, pos as int));
            }
            let ghost prev = out@;
            out.push(imp);
            proof {
                assert(imports_view(out@) =~= imports_view(prev) + seq![imp@]);
            }
        }
    }

    /// The imports of the image: for each DLL named in the import directory, its name and
    /// the functions taken from it, by name or by ordinal; empty when the image has no
    /// import directory. Fails with the message of the first read or address that
    /// does not resolve.
    pub fn imports(&self) -> (r: Result<Vec<Import>, String>)
        requires
            buffer_fits(self@),
            !(spec_imports(self@) is Panics),
        ensures
            match r {
                Ok(v) => spec_imports(self@) == Outcome::Done(imports_view(v@)),
                Err(e) => spec_imports(self@) == Outcome::<Seq<ImportView>>::Failed(e@),
            },
    {
        match self.checked_imports() {
            Some(r) => r,
            None => {
                proof {
                    assert(false);
                }
                Ok(Vec::new())
            },
        }
    }
}

} // verus!
