//! The export directory: the functions an image exports, with their ordinals,
//! addresses and names.
use vstd::prelude::*;
use crate::outcome::{Outcome, read_table, lemma_table_stops, lemma_table_values};
use crate::pe::{DataDirectory, Export, ExportView, Image, ImageView, exports_view};
use crate::read::{in_bounds, le_u16, le_u32, read_error, read_u16, read_u32};
use crate::rva::{spec_rva_to_offset, lemma_rva_to_offset_range};
use crate::text::{c_string, read_cstring};
use crate::imports::buffer_fits;

verus! {

/// The export directory entry: the first data directory, or an empty one when the
/// image has none.
pub open spec fn export_directory(img: ImageView) -> DataDirectory {
    if img.optional_header.data_directories.len() > 0 {
        img.optional_header.data_directories[0]
    } else {
        DataDirectory { virtual_address: 0, size: 0 }
    }
}

/// Entry `k` of the name pointer table at `names_off`, with the ordinal index of
/// entry `k` of the ordinal table at `ords_off`.
pub open spec fn export_name_entry(img: ImageView, ords_off: int, names_off: int, k: int) -> Outcome<(u16, Seq<char>)> {
    let b = img.bytes;
    if !in_bounds(b, ords_off + 2 * k, 2) {
        Outcome::Failed(read_error("u16"@, ords_off + 2 * k))
    } else if !in_bounds(b, names_off + 4 * k, 4) {
        Outcome::Failed(read_error("u32"@, names_off + 4 * k))
    } else {
        match spec_rva_to_offset(img.sections, le_u32(b, names_off + 4 * k) as u32) {
            None => Outcome::Failed("exports: name entry -> offset failed"@),
            Some(n) => if n > b.len() {
                Outcome::Panics
            } else {
                Outcome::Done((le_u16(b, ords_off + 2 * k) as u16, c_string(b.skip(n))))
            },
        }
    }
}

/// The entries of the name pointer and ordinal tables.
pub open spec fn export_name_entries(img: ImageView, ords_off: int, names_off: int) -> spec_fn(int) -> Outcome<(u16, Seq<char>)> {
    |k: int| export_name_entry(img, ords_off, names_off, k)
}

/// The names of the export directory, each with the index of the function it names.
pub open spec fn export_names(img: ImageView, n_names: nat, names_rva: u32, ords_rva: u32) -> Outcome<Seq<(u16, Seq<char>)>> {
    if n_names == 0 {
        Outcome::Done(seq![])
    } else {
        match spec_rva_to_offset(img.sections, names_rva) {
            None => Outcome::Failed("exports: AddressOfNames -> offset failed"@),
            Some(names_off) => match spec_rva_to_offset(img.sections, ords_rva) {
                None => Outcome::Failed("exports: AddressOfNameOrdinals -> offset failed"@),
                Some(ords_off) => read_table(n_names, export_name_entries(img, ords_off, names_off)),
            },
        }
    }
}

/// The name given to function `i`: the first name whose ordinal index is `i`, or the
/// empty name.
pub open spec fn name_for(named: Seq<(u16, Seq<char>)>, i: int) -> Seq<char>
    decreases named.len(),
{
    if named.len() == 0 {
        seq![]
    } else if named[0].0 == i {
        named[0].1
    } else {
        name_for(named.drop_first(), i)
    }
}

/// Entry `k` of the export address table at `funcs_off`: no export for a zero address,
/// else the export with ordinal `base + k`.
pub open spec fn export_entry(img: ImageView, funcs_off: int, base: int, named: Seq<(u16, Seq<char>)>, k: int) -> Outcome<Option<ExportView>> {
    let b = img.bytes;
    if !in_bounds(b, funcs_off + 4 * k, 4) {
        Outcome::Failed(read_error("u32"@, funcs_off + 4 * k))
    } else if le_u32(b, funcs_off + 4 * k) == 0 {
        Outcome::Done(None)
    } else if base + k > u32::MAX {
        Outcome::Panics
    } else {
        Outcome::Done(Some(ExportView {
            ordinal: (base + k) as u32,
            rva: le_u32(b, funcs_off + 4 * k) as u32,
            name: name_for(named, k),
        }))
    }
}

/// The entries of the export address table.
pub open spec fn export_entries(img: ImageView, funcs_off: int, base: int, named: Seq<(u16, Seq<char>)>) -> spec_fn(int) -> Outcome<Option<ExportView>> {
    |k: int| export_entry(img, funcs_off, base, named, k)
}

/// The exports among the entries, in order.
pub open spec fn present(s: Seq<Option<ExportView>>) -> Seq<ExportView>
    decreases s.len(),
{
    if s.len() == 0 {
        seq![]
    } else {
        match s.last() {
            Some(e) => present(s.drop_last()).push(e),
            None => present(s.drop_last()),
        }
    }
}

/// Entries whose exports carry ordinal `base + k` at index `k` give exports in strictly
/// increasing ordinal order, each with an ordinal in `base .. base + s.len()`.
proof fn lemma_present_ordered(s: Seq<Option<ExportView>>, base: int)
    requires
        forall|k: int| 0 <= k < s.len() && (#[trigger] s[k]) is Some ==> s[k]->Some_0.ordinal == base + k && s[k]->Some_0.rva != 0,
    ensures
        forall|i: int, j: int| 0 <= i < j < present(s).len() ==> (#[trigger] present(s)[i]).ordinal < (#[trigger] present(s)[j]).ordinal,
        forall|i: int| 0 <= i < present(s).len() ==> base <= (#[trigger] present(s)[i]).ordinal < base + s.len() && present(s)[i].rva != 0,
    decreases s.len(),
{
    if s.len() > 0 {
        let rest = s.drop_last();
        assert forall|k: int| 0 <= k < rest.len() && (#[trigger] rest[k]) is Some implies rest[k]->Some_0.ordinal == base + k && rest[k]->Some_0.rva != 0 by {
            assert(rest[k] == s[k]);
        }
        lemma_present_ordered(rest, base);
        assert(s.last() == s[s.len() - 1]);
        let p = present(s);
        let q = present(rest);
        match s.last() {
            Some(e) => {
                assert(p == q.push(e));
                assert(e.ordinal == base + s.len() - 1);
                assert forall|i: int, j: int| 0 <= i < j < p.len() implies (#[trigger] p[i]).ordinal < (#[trigger] p[j]).ordinal by {
                    if j < q.len() {
                        assert(p[i] == q[i] && p[j] == q[j]);
                    } else {
                        assert(p[i] == q[i]);
                    }
                }
                assert forall|i: int| 0 <= i < p.len() implies base <= (#[trigger] p[i]).ordinal < base + s.len() && p[i].rva != 0 by {
                    if i < q.len() {
                        assert(p[i] == q[i]);
                    }
                }
            },
            None => {
                assert(p == q);
            },
        }
    }
}

/// The exports read through the export directory table at `off`.
pub open spec fn export_table(img: ImageView, off: int) -> Outcome<Seq<ExportView>> {
    let b = img.bytes;
    if !in_bounds(b, off + 16, 4) {
        Outcome::Failed(read_error("u32"@, off + 16))
    } else if !in_bounds(b, off + 20, 4) {
        Outcome::Failed(read_error("u32"@, off + 20))
    } else if !in_bounds(b, off + 24, 4) {
        Outcome::Failed(read_error("u32"@, off + 24))
    } else if !in_bounds(b, off + 28, 4) {
        Outcome::Failed(read_error("u32"@, off + 28))
    } else if !in_bounds(b, off + 32, 4) {
        Outcome::Failed(read_error("u32"@, off + 32))
    } else if !in_bounds(b, off + 36, 4) {
        Outcome::Failed(read_error("u32"@, off + 36))
    } else {
        let base = le_u32(b, off + 16);
        let n_funcs = le_u32(b, off + 20) as nat;
        let n_names = le_u32(b, off + 24) as nat;
        match spec_rva_to_offset(img.sections, le_u32(b, off + 28) as u32) {
            None => Outcome::Failed("exports: AddressOfFunctions -> offset failed"@),
            Some(funcs_off) => match export_names(img, n_names, le_u32(b, off + 32) as u32, le_u32(b, off + 36) as u32) {
                Outcome::Done(named) => match read_table(n_funcs, export_entries(img, funcs_off, base, named)) {
                    Outcome::Done(entries) => Outcome::Done(present(entries)),
                    Outcome::Failed(e) => Outcome::Failed(e),
                    Outcome::Panics => Outcome::Panics,
                },
                Outcome::Failed(e) => Outcome::Failed(e),
                Outcome::Panics => Outcome::Panics,
            },
        }
    }
}

/// What reading the export directory of an image comes to.
pub open spec fn spec_exports(img: ImageView) -> Outcome<Seq<ExportView>> {
    let dir = export_directory(img);
    if dir.virtual_address == 0 {
        Outcome::Done(seq![])
    } else {
        match spec_rva_to_offset(img.sections, dir.virtual_address) {
            None => Outcome::Failed("exports: directory RVA -> offset failed"@),
            Some(off) => export_table(img, off),
        }
    }
}

/// Exports come out in strictly increasing ordinal order, so sorting them by ordinal
/// leaves them as they are; and each has a nonzero address.
pub proof fn lemma_exports_in_ordinal_order(img: ImageView)
    requires
        spec_exports(img) is Done,
    ensures
        forall|i: int, j: int| 0 <= i < j < spec_exports(img)->Done_0.len() ==>
            (#[trigger] spec_exports(img)->Done_0[i]).ordinal < (#[trigger] spec_exports(img)->Done_0[j]).ordinal,
        forall|i: int| 0 <= i < spec_exports(img)->Done_0.len() ==> (#[trigger] spec_exports(img)->Done_0[i]).rva != 0,
{
    let dir = export_directory(img);
    if dir.virtual_address != 0 {
        let off = spec_rva_to_offset(img.sections, dir.virtual_address)->Some_0;
        let b = img.bytes;
        let base = le_u32(b, off + 16);
        let n_funcs = le_u32(b, off + 20) as nat;
        let n_names = le_u32(b, off + 24) as nat;
        let funcs_off = spec_rva_to_offset(img.sections, le_u32(b, off + 28) as u32)->Some_0;
        let named = export_names(img, n_names, le_u32(b, off + 32) as u32, le_u32(b, off + 36) as u32)->Done_0;
        let entries = export_entries(img, funcs_off, base, named);
        lemma_table_values(n_funcs, entries);
        let s = read_table(n_funcs, entries)->Done_0;
        assert forall|k: int| 0 <= k < s.len() && (#[trigger] s[k]) is Some implies s[k]->Some_0.ordinal == base + k && s[k]->Some_0.rva != 0 by {
            assert(entries(k) == Outcome::Done(s[k]));
        }
        lemma_present_ordered(s, base);
    }
}

/// What the export directory table at `off` gives when it names no functions: the
/// exports of its address table alone, read without the name and ordinal tables.
pub open spec fn unnamed_exports(img: ImageView, off: int) -> Outcome<Seq<ExportView>> {
    let b = img.bytes;
    match spec_rva_to_offset(img.sections, le_u32(b, off + 28) as u32) {
        None => Outcome::Failed("exports: AddressOfFunctions -> offset failed"@),
        Some(funcs_off) => match read_table(le_u32(b, off + 20) as nat, export_entries(img, funcs_off, le_u32(b, off + 16), seq![])) {
            Outcome::Done(entries) => Outcome::Done(present(entries)),
            Outcome::Failed(e) => Outcome::Failed(e),
            Outcome::Panics => Outcome::Panics,
        },
    }
}

proof fn lemma_present_unnamed(s: Seq<Option<ExportView>>)
    requires
        forall|k: int| 0 <= k < s.len() && (#[trigger] s[k]) is Some ==> s[k]->Some_0.name == Seq::<char>::empty(),
    ensures
        forall|i: int| 0 <= i < present(s).len() ==> (#[trigger] present(s)[i]).name == Seq::<char>::empty(),
    decreases s.len(),
{
    if s.len() > 0 {
        let rest = s.drop_last();
        assert forall|k: int| 0 <= k < rest.len() && (#[trigger] rest[k]) is Some implies rest[k]->Some_0.name == Seq::<char>::empty() by {
            assert(rest[k] == s[k]);
        }
        lemma_present_unnamed(rest);
        assert(s.last() == s[s.len() - 1]);
        let p = present(s);
        let q = present(rest);
        match s.last() {
            Some(e) => {
                assert(p == q.push(e));
                assert forall|i: int| 0 <= i < p.len() implies (#[trigger] p[i]).name == Seq::<char>::empty() by {
                    if i < q.len() {
                        assert(p[i] == q[i]);
                    }
                }
            },
            None => {},
        }
    }
}

/// When the export directory names no functions, every export comes out unnamed, and the
/// exports do not depend on the name and ordinal table fields of the directory: they are
/// those of the address table alone.
pub proof fn lemma_unnamed_exports(img: ImageView, off: int)
    requires
        export_directory(img).virtual_address != 0,
        spec_rva_to_offset(img.sections, export_directory(img).virtual_address) == Some(off),
        in_bounds(img.bytes, off, 40),
        le_u32(img.bytes, off + 24) == 0,
    ensures
        spec_exports(img) == unnamed_exports(img, off),
        spec_exports(img) matches Outcome::Done(v) ==> forall|i: int| 0 <= i < v.len() ==> (#[trigger] v[i]).name == Seq::<char>::empty(),
{
    let b = img.bytes;
    if spec_exports(img) is Done {
        let funcs_off = spec_rva_to_offset(img.sections, le_u32(b, off + 28) as u32)->Some_0;
        let entries = export_entries(img, funcs_off, le_u32(b, off + 16), seq![]);
        let n = le_u32(b, off + 20) as nat;
        lemma_table_values(n, entries);
        let es = read_table(n, entries)->Done_0;
        assert forall|k: int| 0 <= k < es.len() && (#[trigger] es[k]) is Some implies es[k]->Some_0.name == Seq::<char>::empty() by {
            assert(entries(k) == Outcome::Done(es[k]));
        }
        lemma_present_unnamed(es);
    }
}

/// An image whose first data directory is missing or has a zero address exports nothing.
pub proof fn lemma_exports_without_directory(img: ImageView)
    requires
        img.optional_header.data_directories.len() == 0 || img.optional_header.data_directories[0].virtual_address == 0,
    ensures
        spec_exports(img) == Outcome::Done(Seq::<ExportView>::empty()),
{
}

/// An image without an export directory exports nothing.
pub proof fn lemma_no_export_directory(img: ImageView)
    requires
        export_directory(img).virtual_address == 0,
    ensures
        spec_exports(img) == Outcome::Done(Seq::<ExportView>::empty()),
{
}

/// The names of the export directory come from its tables entry by entry: name `k`
/// is the text that entry `k` of the name pointer table (a `u32` address at
/// `names_off + 4 * k`) points to, paired with entry `k` of the ordinal table, the
/// `u16` at `ords_off + 2 * k`.
pub proof fn lemma_export_names_from_tables(img: ImageView, n_names: nat, names_rva: u32, ords_rva: u32)
    requires
        n_names > 0,
        export_names(img, n_names, names_rva, ords_rva) is Done,
    ensures
        spec_rva_to_offset(img.sections, names_rva) is Some,
        spec_rva_to_offset(img.sections, ords_rva) is Some,
        ({
            let b = img.bytes;
            let named = export_names(img, n_names, names_rva, ords_rva)->Done_0;
            let names_off = spec_rva_to_offset(img.sections, names_rva)->Some_0;
            let ords_off = spec_rva_to_offset(img.sections, ords_rva)->Some_0;
            &&& named.len() == n_names
            &&& forall|k: int| 0 <= k < n_names ==> {
                &&& in_bounds(b, ords_off + 2 * k, 2)
                &&& (#[trigger] named[k]).0 == le_u16(b, ords_off + 2 * k)
                &&& in_bounds(b, names_off + 4 * k, 4)
                &&& spec_rva_to_offset(img.sections, le_u32(b, names_off + 4 * k) as u32) is Some
                &&& named[k].1 == c_string(b.skip(spec_rva_to_offset(img.sections, le_u32(b, names_off + 4 * k) as u32)->Some_0))
            }
        }),
{
    let names_off = spec_rva_to_offset(img.sections, names_rva)->Some_0;
    let ords_off = spec_rva_to_offset(img.sections, ords_rva)->Some_0;
    let entries = export_name_entries(img, ords_off, names_off);
    lemma_table_values(n_names, entries);
    assert(export_names(img, n_names, names_rva, ords_rva) == read_table(n_names, entries));
    let named = export_names(img, n_names, names_rva, ords_rva)->Done_0;
    assert(named == read_table(n_names, entries)->Done_0);
    lemma_rva_to_offset_range(img.sections, ords_rva);
    lemma_rva_to_offset_range(img.sections, names_rva);
    assert forall|k: int| 0 <= k < n_names implies {
        &&& in_bounds(img.bytes, ords_off + 2 * k, 2)
        &&& (#[trigger] named[k]).0 == le_u16(img.bytes, ords_off + 2 * k)
        &&& in_bounds(img.bytes, names_off + 4 * k, 4)
        &&& spec_rva_to_offset(img.sections, le_u32(img.bytes, names_off + 4 * k) as u32) is Some
        &&& named[k].1 == c_string(img.bytes.skip(spec_rva_to_offset(img.sections, le_u32(img.bytes, names_off + 4 * k) as u32)->Some_0))
    } by {
        assert(entries(k) == Outcome::Done(named[k]));
    }
}

/// The name that `name_for` gives function `i` is that of the first entry whose ordinal
/// index is `i`, and the empty name when no entry has that index.
pub proof fn lemma_name_for(named: Seq<(u16, Seq<char>)>, i: int)
    ensures
        (forall|j: int| 0 <= j < named.len() ==> (#[trigger] named[j]).0 != i) ==> name_for(named, i) == Seq::<char>::empty(),
        forall|j: int| 0 <= j < named.len() && (#[trigger] named[j]).0 == i && (forall|l: int| 0 <= l < j ==> (#[trigger] named[l]).0 != i)
            ==> name_for(named, i) == named[j].1,
    decreases named.len(),
{
    if named.len() > 0 {
        let rest = named.drop_first();
        lemma_name_for(rest, i);
        assert forall|j: int| 0 <= j < rest.len() implies rest[j] == named[j + 1] by {}
        if named[0].0 != i {
            if forall|j: int| 0 <= j < named.len() ==> (#[trigger] named[j]).0 != i {
                assert forall|j: int| 0 <= j < rest.len() implies (#[trigger] rest[j]).0 != i by {
                    assert(rest[j] == named[j + 1]);
                }
            }
            assert forall|j: int| 0 <= j < named.len() && (#[trigger] named[j]).0 == i && (forall|l: int| 0 <= l < j ==> (#[trigger] named[l]).0 != i)
                implies name_for(named, i) == named[j].1 by {
                assert(j > 0);
                assert(rest[j - 1] == named[j]);
                assert forall|l: int| 0 <= l < j - 1 implies (#[trigger] rest[l]).0 != i by {
                    assert(rest[l] == named[l + 1]);
                }
            }
        } else {
            assert forall|j: int| 0 <= j < named.len() && (#[trigger] named[j]).0 == i && (forall|l: int| 0 <= l < j ==> (#[trigger] named[l]).0 != i)
                implies name_for(named, i) == named[j].1 by {
                if j > 0 {
                    assert(named[0].0 != i);
                }
            }
        }
    }
}

/// Each export in the result comes from a present entry, and each present entry gives
/// an export.
proof fn lemma_present_members(s: Seq<Option<ExportView>>)
    ensures
        forall|i: int| 0 <= i < present(s).len() ==> exists|k: int| 0 <= k < s.len() && s[k] == Some(#[trigger] present(s)[i]),
        forall|k: int| 0 <= k < s.len() && (#[trigger] s[k]) is Some ==> present(s).contains(s[k]->Some_0),
    decreases s.len(),
{
    if s.len() > 0 {
        let rest = s.drop_last();
        lemma_present_members(rest);
        let p = present(s);
        let q = present(rest);
        assert(s.last() == s[s.len() - 1]);
        assert forall|k: int| 0 <= k < rest.len() implies rest[k] == s[k] by {}
        match s.last() {
            Some(e) => {
                assert(p == q.push(e));
                assert forall|i: int| 0 <= i < p.len() implies exists|k: int| 0 <= k < s.len() && s[k] == Some(#[trigger] p[i]) by {
                    if i < q.len() {
                        assert(p[i] == q[i]);
                        let k = choose|k: int| 0 <= k < rest.len() && rest[k] == Some(q[i]);
                        assert(s[k] == rest[k]);
                    } else {
                        assert(s[s.len() - 1] == Some(p[i]));
                    }
                }
                assert forall|k: int| 0 <= k < s.len() && (#[trigger] s[k]) is Some implies p.contains(s[k]->Some_0) by {
                    if k < rest.len() {
                        assert(rest[k] == s[k]);
                        assert(q.contains(s[k]->Some_0));
                        let j = choose|j: int| 0 <= j < q.len() && q[j] == s[k]->Some_0;
                        assert(p[j] == q[j]);
                    } else {
                        assert(p[q.len() as int] == e);
                    }
                }
            },
            None => {
                assert(p == q);
                assert forall|i: int| 0 <= i < p.len() implies exists|k: int| 0 <= k < s.len() && s[k] == Some(#[trigger] p[i]) by {
                    let k = choose|k: int| 0 <= k < rest.len() && rest[k] == Some(q[i]);
                    assert(s[k] == rest[k]);
                }
                assert forall|k: int| 0 <= k < s.len() && (#[trigger] s[k]) is Some implies p.contains(s[k]->Some_0) by {
                    if k < rest.len() {
                        assert(rest[k] == s[k]);
                    }
                }
            },
        }
    }
}

/// Entry `j` of the ordinal table at `ords_off`: the `u16` at `ords_off + 2 * j`.
pub open spec fn ordinal_entry(b: Seq<u8>, ords_off: int, j: int) -> int {
    le_u16(b, ords_off + 2 * j)
}

/// Entry `k` of the export address table at `funcs_off`: the `u32` at `funcs_off + 4 * k`.
pub open spec fn function_address(b: Seq<u8>, funcs_off: int, k: int) -> int {
    le_u32(b, funcs_off + 4 * k)
}

/// What each export is, in terms of the export directory at `off` (the offset of the
/// address of the first data directory): with `base`,
/// `n_funcs` and `n_names` the `u32`s at `off + 16`, `off + 20` and `off + 24`, and the
/// address, name pointer and ordinal tables at the offsets of the addresses at `off + 28`,
/// `off + 32` and `off + 36`: export `i` is function `k = ordinal - base` of the address
/// table, `k < n_funcs`, with the nonzero address at `funcs_off + 4 * k`; it is named by
/// the first name `j` whose ordinal table entry (the `u16` at `ords_off + 2 * j`) is `k`,
/// and unnamed when there is none; and each function with a nonzero address is exported.
pub proof fn lemma_exports_from_tables(img: ImageView)
    requires
        img.optional_header.data_directories.len() > 0,
        img.optional_header.data_directories[0].virtual_address != 0,
        spec_exports(img) is Done,
    ensures
        ({
            let b = img.bytes;
            let off = spec_rva_to_offset(img.sections, img.optional_header.data_directories[0].virtual_address)->Some_0;
            let base = le_u32(b, off + 16);
            let n_funcs = le_u32(b, off + 20);
            let n_names = le_u32(b, off + 24);
            let funcs_off = spec_rva_to_offset(img.sections, le_u32(b, off + 28) as u32)->Some_0;
            let names_off = spec_rva_to_offset(img.sections, le_u32(b, off + 32) as u32)->Some_0;
            let ords_off = spec_rva_to_offset(img.sections, le_u32(b, off + 36) as u32)->Some_0;
            let v = spec_exports(img)->Done_0;
            &&& forall|i: int| 0 <= i < v.len() ==> {
                let k = (#[trigger] v[i]).ordinal - base;
                &&& 0 <= k < n_funcs
                &&& v[i].rva == le_u32(b, funcs_off + 4 * k)
                &&& v[i].rva != 0
                &&& (forall|j: int| 0 <= j < n_names ==> #[trigger] ordinal_entry(b, ords_off, j) != k) ==> v[i].name == Seq::<char>::empty()
                &&& forall|j: int| 0 <= j < n_names && #[trigger] ordinal_entry(b, ords_off, j) == k
                    && (forall|l: int| 0 <= l < j ==> #[trigger] ordinal_entry(b, ords_off, l) != k)
                    ==> v[i].name == c_string(b.skip(spec_rva_to_offset(img.sections, le_u32(b, names_off + 4 * j) as u32)->Some_0))
            }
            &&& forall|k: int| 0 <= k < n_funcs && #[trigger] function_address(b, funcs_off, k) != 0 ==>
                exists|i: int| 0 <= i < v.len() && (#[trigger] v[i]).ordinal == base + k
        }),
{
    let b = img.bytes;
    let off = spec_rva_to_offset(img.sections, img.optional_header.data_directories[0].virtual_address)->Some_0;
    let base = le_u32(b, off + 16);
    let n_funcs = le_u32(b, off + 20);
    let n_names = le_u32(b, off + 24);
    let funcs_off = spec_rva_to_offset(img.sections, le_u32(b, off + 28) as u32)->Some_0;
    let names_rva = le_u32(b, off + 32) as u32;
    let ords_rva = le_u32(b, off + 36) as u32;
    let names_off = spec_rva_to_offset(img.sections, names_rva)->Some_0;
    let ords_off = spec_rva_to_offset(img.sections, ords_rva)->Some_0;
    let named = export_names(img, n_names as nat, names_rva, ords_rva)->Done_0;
    if n_names > 0 {
        lemma_export_names_from_tables(img, n_names as nat, names_rva, ords_rva);
    }
    let entries = export_entries(img, funcs_off, base, named);
    lemma_table_values(n_funcs as nat, entries);
    let es = read_table(n_funcs as nat, entries)->Done_0;
    lemma_present_members(es);
    let v = present(es);
    assert(spec_exports(img)->Done_0 == v);
    assert forall|i: int| 0 <= i < v.len() implies {
        let k = (#[trigger] v[i]).ordinal - base;
        &&& 0 <= k < n_funcs
        &&& v[i].rva == le_u32(b, funcs_off + 4 * k)
        &&& v[i].rva != 0
        &&& (forall|j: int| 0 <= j < n_names ==> #[trigger] ordinal_entry(b, ords_off, j) != k) ==> v[i].name == Seq::<char>::empty()
        &&& forall|j: int| 0 <= j < n_names && #[trigger] ordinal_entry(b, ords_off, j) == k
            && (forall|l: int| 0 <= l < j ==> #[trigger] ordinal_entry(b, ords_off, l) != k)
            ==> v[i].name == c_string(b.skip(spec_rva_to_offset(img.sections, le_u32(b, names_off + 4 * j) as u32)->Some_0))
    } by {
        let k = choose|k: int| 0 <= k < es.len() && es[k] == Some(v[i]);
        assert(entries(k) == Outcome::Done(es[k]));
        assert(v[i].ordinal - base == k);
        lemma_name_for(named, k);
        if forall|j: int| 0 <= j < n_names ==> ordinal_entry(b, ords_off, j) != k {
            assert forall|j: int| 0 <= j < named.len() implies (#[trigger] named[j]).0 != k by {
                assert(ordinal_entry(b, ords_off, j) != k);
            }
        }
        assert forall|j: int| 0 <= j < n_names && #[trigger] ordinal_entry(b, ords_off, j) == k
            && (forall|l: int| 0 <= l < j ==> #[trigger] ordinal_entry(b, ords_off, l) != k)
            implies v[i].name == c_string(b.skip(spec_rva_to_offset(img.sections, le_u32(b, names_off + 4 * j) as u32)->Some_0)) by {
            assert(named[j].0 == k);
            assert forall|l: int| 0 <= l < j implies (#[trigger] named[l]).0 != k by {
                assert(ordinal_entry(b, ords_off, l) != k);
            }
        }
    }
    assert forall|k: int| 0 <= k < n_funcs && #[trigger] function_address(b, funcs_off, k) != 0 implies
        exists|i: int| 0 <= i < v.len() && (#[trigger] v[i]).ordinal == base + k by {
        assert(entries(k) == Outcome::Done(es[k]));
        assert(es[k] is Some);
        assert(v.contains(es[k]->Some_0));
        let i = choose|i: int| 0 <= i < v.len() && v[i] == es[k]->Some_0;
        assert(v[i].ordinal == base + k);
    }
}

/// A list of names with their ordinal indices, the names taken as characters.
pub open spec fn named_view(v: Seq<(u16, String)>) -> Seq<(u16, Seq<char>)> {
    v.map_values(|e: (u16, String)| (e.0, e.1@))
}

/// The name given to function `i` by the list `named`: the first name whose ordinal
/// index is `i`, or the empty name.
fn name_of(named: &Vec<(u16, String)>, i: u64) -> (r: String)
    ensures
        r@ == name_for(named_view(named@), i as int),
{
    let ghost all = named_view(named@);
    let mut j: usize = 0;
    proof {
        assert(all.skip(0) =~= all);
    }
    while j < named.len()
        invariant
            j <= named.len(),
            all == named_view(named@),
            name_for(all, i as int) == name_for(all.skip(j as int), i as int),
        decreases named.len() - j,
    {
        proof {
            assert(all.skip(j as int)[0] == all[j as int]);
            assert(all.skip(j as int).drop_first() =~= all.skip(j + 1));
        }
        if named[j].0 as u64 == i {
            return named[j].1.clone();
        }
        j = j + 1;
    }
    String::new()
}

impl Image {
    /// Reads the names of the export directory with their ordinal indices. `None` where
    /// reading a name would index beyond the end of the file.
    fn read_export_names(&self, n_names: u32, names_rva: u32, ords_rva: u32) -> (r: Option<Result<Vec<(u16, String)>, String>>)
        ensures
            match r {
                None => export_names(self@, n_names as nat, names_rva, ords_rva) is Panics,
                Some(Ok(v)) => export_names(self@, n_names as nat, names_rva, ords_rva) == Outcome::Done(named_view(v@)),
                Some(Err(e)) => export_names(self@, n_names as nat, names_rva, ords_rva) == Outcome::<Seq<(u16, Seq<char>)>>::Failed(e@),
            },
    {
        let mut named: Vec<(u16, String)> = Vec::new();
        proof {
            assert(named_view(named@) =~= Seq::<(u16, Seq<char>)>::empty());
        }
        if n_names == 0 {
            return Some(Ok(named));
        }
        let names_off = match self.rva_to_offset(names_rva) {
            Some(o) => o,
            None => return Some(Err(String::from_str("exports: AddressOfNames -> offset failed"))),
        };
        let ords_off = match self.rva_to_offset(ords_rva) {
            Some(o) => o,
            None => return Some(Err(String::from_str("exports: AddressOfNameOrdinals -> offset failed"))),
        };
        let b = self.bytes.as_slice();
        let ghost img = self@;
        let ghost entries = export_name_entries(img, ords_off as int, names_off as int);
        let mut i: u64 = 0;
        while i < n_names as u64
            invariant
                i <= n_names,
                img == self@,
                b@ == img.bytes,
                names_off < 0x2_0000_0000,
                ords_off < 0x2_0000_0000,
                n_names > 0,
                spec_rva_to_offset(img.sections, names_rva) == Some(names_off as int),
                spec_rva_to_offset(img.sections, ords_rva) == Some(ords_off as int),
                entries == export_name_entries(img, ords_off as int, names_off as int),
                named@.len() == i,
                read_table(i as nat, entries) == Outcome::Done(named_view(named@)),
            decreases n_names - i,
        {
            let ord = match read_u16(b, ords_off + i * 2) {
                Ok(v) => v,
                Err(e) => {
                    proof { lemma_table_stops((i + 1) as nat, n_names as nat, entries); }
                    return Some(Err(e));
                },
            };
            let name_rva = match read_u32(b, names_off + i * 4) {
                Ok(v) => v,
                Err(e) => {
                    proof { lemma_table_stops((i + 1) as nat, n_names as nat, entries); }
                    return Some(Err(e));
                },
            };
            let n_off = match self.rva_to_offset(name_rva) {
                Some(o) => o,
                None => {
                    proof { lemma_table_stops((i + 1) as nat, n_names as nat, entries); }
                    return Some(Err(String::from_str("exports: name entry -> offset failed")));
                },
            };
            if n_off > b.len() as u64 {
                proof { lemma_table_stops((i + 1) as nat, n_names as nat, entries); }
                return None;
            }
            let name = read_cstring(b, n_off);
            let ghost prev = named@;
            named.push((ord, name));
            proof {
                assert(named_view(named@) =~= named_view(prev).push((ord, name@)));
            }
            i = i + 1;
        }
        Some(Ok(named))
    }

    /// Reads the export address table at `funcs_off`, naming each export through `named`.
    /// `None` where an ordinal would overflow `u32`.
    fn read_export_entries(&self, funcs_off: u64, n_funcs: u32, base: u32, named: &Vec<(u16, String)>) -> (r: Option<Result<Vec<Export>, String>>)
        requires
            funcs_off < 0x2_0000_0000,
        ensures
            match read_table(n_funcs as nat, export_entries(self@, funcs_off as int, base as int, named_view(named@))) {
                Outcome::Done(entries) => r matches Some(Ok(v)) && exports_view(v@) == present(entries),
                Outcome::Failed(e) => r matches Some(Err(m)) && m@ == e,
                Outcome::Panics => r is None,
            },
    {
        let b = self.bytes.as_slice();
        let ghost img = self@;
        let ghost entries = export_entries(img, funcs_off as int, base as int, named_view(named@));
        let ghost mut seen: Seq<Option<ExportView>> = seq![];
        let mut out: Vec<Export> = Vec::new();
        proof {
            assert(exports_view(out@) =~= Seq::<ExportView>::empty());
        }
        let mut i: u64 = 0;
        while i < n_funcs as u64
            invariant
                i <= n_funcs,
                img == self@,
                b@ == img.bytes,
                funcs_off < 0x2_0000_0000,
                entries == export_entries(img, funcs_off as int, base as int, named_view(named@)),
                read_table(i as nat, entries) == Outcome::Done(seen),
                exports_view(out@) == present(seen),
            decreases n_funcs - i,
        {
            let fn_rva = match read_u32(b, funcs_off + i * 4) {
                Ok(v) => v,
                Err(e) => {
                    proof { lemma_table_stops((i + 1) as nat, n_funcs as nat, entries); }
                    return Some(Err(e));
                },
            };
            if fn_rva == 0 {
                proof {
                    assert(seen.push(None).drop_last() =~= seen);
                    seen = seen.push(None);
                }
            } else {
                if base as u64 + i > u32::MAX as u64 {
                    proof { lemma_table_stops((i + 1) as nat, n_funcs as nat, entries); }
                    return None;
                }
                let name = name_of(named, i);
                let e = Export { ordinal: base + i as u32, rva: fn_rva, name };
                let ghost prev = out@;
                out.push(e);
                proof {
                    assert(seen.push(Some(e@)).drop_last() =~= seen);
                    assert(exports_view(out@) =~= exports_view(prev).push(e@));
                    seen = seen.push(Some(e@));
                }
            }
            i = i + 1;
        }
        Some(Ok(out))
    }

    /// Reads the export directory: each function of the export address table with a
    /// nonzero address, its ordinal and the first name that refers to it, in ordinal
    /// order. `None` exactly where the walk panics: on a name beyond the
    /// end of the file or an ordinal that overflows `u32`.
    pub fn checked_exports(&self) -> (r: Option<Result<Vec<Export>, String>>)
        ensures
            match r {
                None => spec_exports(self@) is Panics,
                Some(Ok(v)) => spec_exports(self@) == Outcome::Done(exports_view(v@)),
                Some(Err(e)) => spec_exports(self@) == Outcome::<Seq<ExportView>>::Failed(e@),
            },
    {
        let dir = if self.optional_header.data_directories.len() > 0 {
            self.optional_header.data_directories[0]
        } else {
            DataDirectory { virtual_address: 0, size: 0 }
        };
        if dir.virtual_address == 0 {
            let none: Vec<Export> = Vec::new();
            proof {
                assert(exports_view(none@) =~= Seq::<ExportView>::empty());
            }
            return Some(Ok(none));
        }
        let b = self.bytes.as_slice();
        let off = match self.rva_to_offset(dir.virtual_address) {
            Some(o) => o,
            None => return Some(Err(String::from_str("exports: directory RVA -> offset failed"))),
        };
        let base_ordinal = match read_u32(b, off + 16) {
            Ok(v) => v,
            Err(e) => return Some(Err(e)),
        };
        let n_funcs = match read_u32(b, off + 20) {
            Ok(v) => v,
            Err(e) => return Some(Err(e)),
        };
        let n_names = match read_u32(b, off + 24) {
            Ok(v) => v,
            Err(e) => return Some(Err(e)),
        };
        let funcs_rva = match read_u32(b, off + 28) {
            Ok(v) => v,
            Err(e) => return Some(Err(e)),
        };
        let names_rva = match read_u32(b, off + 32) {
            Ok(v) => v,
            Err(e) => return Some(Err(e)),
        };
        let ords_rva = match read_u32(b, off + 36) {
            Ok(v) => v,
            Err(e) => return Some(Err(e)),
        };
        let funcs_off = match self.rva_to_offset(funcs_rva) {
            Some(o) => o,
            None => return Some(Err(String::from_str("exports: AddressOfFunctions -> offset failed"))),
        };
        let named = match self.read_export_names(n_names, names_rva, ords_rva) {
            None => return None,
            Some(Err(e)) => return Some(Err(e)),
            Some(Ok(named)) => named,
        };
        self.read_export_entries(funcs_off, n_funcs, base_ordinal, &named)
    }

    /// The exports of the image, in ordinal order (see `checked_exports`); empty when the
    /// image has no export directory.
    pub fn exports(&self) -> (r: Result<Vec<Export>, String>)
        requires
            !(spec_exports(self@) is Panics),
        ensures
            match r {
                Ok(v) => spec_exports(self@) == Outcome::Done(exports_view(v@)),
                Err(e) => spec_exports(self@) == Outcome::<Seq<ExportView>>::Failed(e@),
            },
    {
        match self.checked_exports() {
            Some(r) => r,
            None => {
                proof {
                    assert(false);
                }
                Ok(Vec::new())
            },
        }
    }
}

} // verus!
