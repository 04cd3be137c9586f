//! Names of the architecture, subsystem and flag bits found in PE/COFF headers.
use vstd::prelude::*;

verus! {

/// The architecture that a COFF `Machine` value stands for.
pub open spec fn spec_machine_name(m: u16) -> Seq<char> {
    if m == 0x014c {
        "i386"@
    } else if m == 0x0200 {
        "ia64"@
    } else if m == 0x8664 {
        "x64"@
    } else if m == 0xaa64 {
        "arm64"@
    } else if m == 0x01c0 {
        "arm"@
    } else if m == 0x01c4 {
        "armnt"@
    } else if m == 0x5032 {
        "riscv32"@
    } else if m == 0x5064 {
        "riscv64"@
    } else {
        "unknown"@
    }
}

/// The name of a machine type; `"unknown"` for a code not listed.
pub fn machine_name(m: u16) -> (r: &'static str)
    ensures
        r@ == spec_machine_name(m),
{
    match m {
        0x014c => "i386",
        0x0200 => "ia64",
        0x8664 => "x64",
        0xaa64 => "arm64",
        0x01c0 => "arm",
        0x01c4 => "armnt",
        0x5032 => "riscv32",
        0x5064 => "riscv64",
        _ => "unknown",
    }
}

/// The subsystem that an optional header's `Subsystem` value stands for.
pub open spec fn spec_subsystem_name(s: u16) -> Seq<char> {
    if s == 1 {
        "Native"@
    } else if s == 2 {
        "Windows GUI"@
    } else if s == 3 {
        "Windows CUI"@
    } else if s == 5 {
        "OS/2 CUI"@
    } else if s == 7 {
        "POSIX CUI"@
    } else if s == 9 {
        "Windows CE GUI"@
    } else if s == 10 {
        "EFI Application"@
    } else if s == 11 {
        "EFI Boot Service Driver"@
    } else if s == 12 {
        "EFI Runtime Driver"@
    } else if s == 13 {
        "EFI ROM"@
    } else if s == 14 {
        "XBOX"@
    } else if s == 16 {
        "Windows Boot Application"@
    } else {
        "unknown"@
    }
}

/// The name of a subsystem; `"unknown"` for a value not listed.
pub fn subsystem_name(s: u16) -> (r: &'static str)
    ensures
        r@ == spec_subsystem_name(s),
{
    match s {
        1 => "Native",
        2 => "Windows GUI",
        3 => "Windows CUI",
        5 => "OS/2 CUI",
        7 => "POSIX CUI",
        9 => "Windows CE GUI",
        10 => "EFI Application",
        11 => "EFI Boot Service Driver",
        12 => "EFI Runtime Driver",
        13 => "EFI ROM",
        14 => "XBOX",
        16 => "Windows Boot Application",
        _ => "unknown",
    }
}

/// The names of the entries of `table` whose bit is set in `c`, in table order.
pub open spec fn flag_names(c: u32, table: Seq<(u32, Seq<char>)>) -> Seq<Seq<char>>
    decreases table.len(),
{
    if table.len() == 0 {
        seq![]
    } else {
        let rest = flag_names(c, table.drop_last());
        if c & table.last().0 != 0 {
            rest.push(table.last().1)
        } else {
            rest
        }
    }
}

/// A table of flag bits with `&str` names, taken by its names' views.
pub open spec fn table_view(table: Seq<(u32, &str)>) -> Seq<(u32, Seq<char>)> {
    table.map_values(|e: (u32, &str)| (e.0, e.1@))
}

/// The names of a list of `&str`, taken by their views.
pub open spec fn names_view(names: Seq<&str>) -> Seq<Seq<char>> {
    names.map_values(|s: &str| s@)
}

/// A flag's name is listed exactly when its bit is set: each entry whose bit is set in
/// `c` has its name in the list, and each name in the list belongs to an entry whose bit
/// is set.
pub proof fn lemma_flag_names_are_set_bits(c: u32, table: Seq<(u32, Seq<char>)>)
    ensures
        forall|k: int| 0 <= k < table.len() && c & (#[trigger] table[k]).0 != 0 ==> flag_names(c, table).contains(table[k].1),
        forall|x: Seq<char>| #[trigger] flag_names(c, table).contains(x) ==> exists|k: int| 0 <= k < table.len() && table[k].1 == x && c & table[k].0 != 0,
    decreases table.len(),
{
    if table.len() > 0 {
        let rest = table.drop_last();
        lemma_flag_names_are_set_bits(c, rest);
        let last = table.last();
        let names = flag_names(c, table);
        let prev = flag_names(c, rest);
        assert forall|k: int| 0 <= k < table.len() && c & (#[trigger] table[k]).0 != 0 implies names.contains(table[k].1) by {
            if k < table.len() - 1 {
                assert(rest[k] == table[k]);
                let j = choose|j: int| 0 <= j < prev.len() && prev[j] == table[k].1;
                if c & last.0 != 0 {
                    assert(names[j] == prev[j]);
                } else {
                    assert(names[j] == prev[j]);
                }
            } else {
                assert(names[names.len() - 1] == last.1);
            }
        }
        assert forall|x: Seq<char>| #[trigger] names.contains(x) implies exists|k: int| 0 <= k < table.len() && table[k].1 == x && c & table[k].0 != 0 by {
            let j = choose|j: int| 0 <= j < names.len() && names[j] == x;
            if j < prev.len() {
                assert(prev[j] == x);
                assert(prev.contains(x));
                let k = choose|k: int| 0 <= k < rest.len() && rest[k].1 == x && c & rest[k].0 != 0;
                assert(table[k] == rest[k]);
            } else {
                assert(table[table.len() - 1] == last);
            }
        }
    }
}

/// The number of one bits of `x` below bit `n`.
pub open spec fn ones_below(x: u32, n: nat) -> nat
    decreases n,
{
    if n == 0 {
        0
    } else {
        ones_below(x, (n - 1) as nat) + if x & (1u32 << ((n - 1) as u32)) != 0 { 1nat } else { 0nat }
    }
}

/// The number of one bits of `x`.
pub open spec fn ones(x: u32) -> nat {
    ones_below(x, 32)
}

/// No two entries of the table have the same name.
pub open spec fn distinct_names(table: Seq<(u32, Seq<char>)>) -> bool {
    forall|i: int, j: int| 0 <= i < j < table.len() ==> #[trigger] table[i].1 != #[trigger] table[j].1
}

/// The table lists its bits in ascending order.
pub open spec fn ascending_bits(table: Seq<(u32, Seq<char>)>) -> bool {
    forall|i: int, j: int| 0 <= i < j < table.len() ==> #[trigger] table[i].0 < #[trigger] table[j].0
}

/// Each entry of the table stands for a single bit.
pub open spec fn single_bits(table: Seq<(u32, Seq<char>)>) -> bool {
    forall|k: int| 0 <= k < table.len() ==> (#[trigger] table[k]).0 != 0 && table[k].0 & ((table[k].0 - 1) as u32) == 0
}

/// Every bit of the table lies within `mask`.
pub open spec fn within_mask(table: Seq<(u32, Seq<char>)>, mask: u32) -> bool {
    forall|k: int| 0 <= k < table.len() ==> (#[trigger] table[k]).0 & mask == table[k].0
}

/// A table of distinct single bits, in ascending order, with distinct names, all within `mask`.
pub open spec fn flag_table(table: Seq<(u32, Seq<char>)>, mask: u32) -> bool {
    &&& distinct_names(table)
    &&& ascending_bits(table)
    &&& single_bits(table)
    &&& within_mask(table, mask)
}

/// The number of table entries whose bit is set in `c`.
pub open spec fn count_set(c: u32, table: Seq<(u32, Seq<char>)>) -> nat
    decreases table.len(),
{
    if table.len() == 0 {
        0
    } else {
        count_set(c, table.drop_last()) + if c & table.last().0 != 0 { 1nat } else { 0nat }
    }
}

/// The names in `names` come in the order of the bits they name in `table`.
pub open spec fn in_bit_order(names: Seq<Seq<char>>, table: Seq<(u32, Seq<char>)>) -> bool {
    forall|i: int, j: int, k1: int, k2: int|
        0 <= i < j < names.len() && 0 <= k1 < table.len() && 0 <= k2 < table.len()
            && #[trigger] table[k1].1 == #[trigger] names[i] && #[trigger] table[k2].1 == #[trigger] names[j]
            ==> table[k1].0 < table[k2].0
}

proof fn lemma_bit_or(a: u32, b: u32, x: u32)
    ensures
        ((a | b) & x != 0) == (a & x != 0 || b & x != 0),
{
    assert(((a | b) & x != 0) == (a & x != 0 || b & x != 0)) by (bit_vector);
}

proof fn lemma_bit_and(a: u32, b: u32, x: u32)
    requires
        x != 0,
        x & ((x - 1) as u32) == 0,
    ensures
        ((a & b) & x != 0) == (a & x != 0 && b & x != 0),
{
    assert(x != 0 && x & ((x - 1) as u32) == 0 ==> (((a & b) & x != 0) == (a & x != 0 && b & x != 0))) by (bit_vector);
}

proof fn lemma_bit_mask(c: u32, m: u32, x: u32)
    requires
        x & m == x,
    ensures
        ((c & m) & x != 0) == (c & x != 0),
{
    assert(x & m == x ==> (((c & m) & x != 0) == (c & x != 0))) by (bit_vector);
}

/// Bits outside `mask` name nothing: the names of `c` are those of `c & mask`.
pub proof fn lemma_flag_names_masked(c: u32, mask: u32, table: Seq<(u32, Seq<char>)>)
    requires
        within_mask(table, mask),
    ensures
        flag_names(c, table) == flag_names(c & mask, table),
    decreases table.len(),
{
    if table.len() > 0 {
        let rest = table.drop_last();
        assert forall|k: int| 0 <= k < rest.len() implies (#[trigger] rest[k]).0 & mask == rest[k].0 by {
            assert(rest[k] == table[k]);
        }
        lemma_flag_names_masked(c, mask, rest);
        assert(table.last() == table[table.len() - 1]);
        lemma_bit_mask(c, mask, table.last().0);
    }
}

/// The list holds one name per table bit set in `c`.
pub proof fn lemma_flag_names_len(c: u32, table: Seq<(u32, Seq<char>)>)
    ensures
        flag_names(c, table).len() == count_set(c, table),
    decreases table.len(),
{
    if table.len() > 0 {
        lemma_flag_names_len(c, table.drop_last());
    }
}

/// With distinct names in the table, the list names no flag twice.
pub proof fn lemma_flag_names_distinct(c: u32, table: Seq<(u32, Seq<char>)>)
    requires
        distinct_names(table),
    ensures
        flag_names(c, table).no_duplicates(),
    decreases table.len(),
{
    if table.len() > 0 {
        let rest = table.drop_last();
        let last = table.last();
        assert forall|i: int, j: int| 0 <= i < j < rest.len() implies #[trigger] rest[i].1 != #[trigger] rest[j].1 by {
            assert(rest[i] == table[i] && rest[j] == table[j]);
        }
        lemma_flag_names_distinct(c, rest);
        let prev = flag_names(c, rest);
        if c & last.0 != 0 {
            lemma_flag_names_are_set_bits(c, rest);
            assert(!prev.contains(last.1)) by {
                if prev.contains(last.1) {
                    let k = choose|k: int| 0 <= k < rest.len() && rest[k].1 == last.1 && c & rest[k].0 != 0;
                    assert(table[k] == rest[k]);
                    assert(table[table.len() - 1] == last);
                }
            }
            let names = flag_names(c, table);
            assert forall|i: int, j: int| 0 <= i < names.len() && 0 <= j < names.len() && i != j implies names[i] != names[j] by {
                if i < prev.len() && j < prev.len() {
                } else if i < prev.len() {
                    assert(prev.contains(names[i]));
                } else {
                    assert(prev.contains(names[j]));
                }
            }
        }
    }
}

/// With ascending bits and distinct names, the list comes in ascending bit order.
pub proof fn lemma_flag_names_in_bit_order(c: u32, table: Seq<(u32, Seq<char>)>)
    requires
        distinct_names(table),
        ascending_bits(table),
    ensures
        in_bit_order(flag_names(c, table), table),
    decreases table.len(),
{
    if table.len() > 0 {
        let rest = table.drop_last();
        let n = table.len() - 1;
        let last = table.last();
        assert(table[n] == last);
        assert forall|i: int, j: int| 0 <= i < j < rest.len() implies #[trigger] rest[i].1 != #[trigger] rest[j].1 by {
            assert(rest[i] == table[i] && rest[j] == table[j]);
        }
        assert forall|i: int, j: int| 0 <= i < j < rest.len() implies #[trigger] rest[i].0 < #[trigger] rest[j].0 by {
            assert(rest[i] == table[i] && rest[j] == table[j]);
        }
        lemma_flag_names_in_bit_order(c, rest);
        lemma_flag_names_are_set_bits(c, rest);
        let prev = flag_names(c, rest);
        let names = flag_names(c, table);
        assert forall|i: int, j: int, k1: int, k2: int|
            0 <= i < j < names.len() && 0 <= k1 < table.len() && 0 <= k2 < table.len()
                && #[trigger] table[k1].1 == #[trigger] names[i] && #[trigger] table[k2].1 == #[trigger] names[j]
            implies table[k1].0 < table[k2].0 by {
            assert(i < prev.len());
            assert(names[i] == prev[i]);
            assert(prev.contains(prev[i]));
            let k = choose|k: int| 0 <= k < rest.len() && rest[k].1 == prev[i] && c & rest[k].0 != 0;
            assert(table[k] == rest[k]);
            if k1 != k {
                if k1 < k {
                    assert(table[k1].1 != table[k].1);
                } else {
                    assert(table[k].1 != table[k1].1);
                }
            }
            if j < prev.len() {
                assert(names[j] == prev[j]);
                assert(prev.contains(prev[j]));
                let kj = choose|kj: int| 0 <= kj < rest.len() && rest[kj].1 == prev[j] && c & rest[kj].0 != 0;
                assert(table[kj] == rest[kj]);
                if k2 != kj {
                    if k2 < kj {
                        assert(table[k2].1 != table[kj].1);
                    } else {
                        assert(table[kj].1 != table[k2].1);
                    }
                }
                assert(rest[k1].1 == prev[i] && rest[k2].1 == prev[j]);
            } else {
                assert(names[j] == last.1);
                if k2 != n {
                    assert(table[k2].1 != table[n].1);
                }
            }
        }
    }
}

/// As sets, the names of `a | b` are those of `a` together with those of `b`.
pub proof fn lemma_flag_names_union(a: u32, b: u32, table: Seq<(u32, Seq<char>)>)
    ensures
        flag_names(a | b, table).to_set() == flag_names(a, table).to_set().union(flag_names(b, table).to_set()),
{
    lemma_flag_names_are_set_bits(a | b, table);
    lemma_flag_names_are_set_bits(a, table);
    lemma_flag_names_are_set_bits(b, table);
    assert forall|x: Seq<char>| flag_names(a | b, table).to_set().contains(x)
        == flag_names(a, table).to_set().union(flag_names(b, table).to_set()).contains(x) by {
        if flag_names(a | b, table).contains(x) {
            let k = choose|k: int| 0 <= k < table.len() && table[k].1 == x && (a | b) & table[k].0 != 0;
            lemma_bit_or(a, b, table[k].0);
        }
        if flag_names(a, table).contains(x) {
            let k = choose|k: int| 0 <= k < table.len() && table[k].1 == x && a & table[k].0 != 0;
            lemma_bit_or(a, b, table[k].0);
        }
        if flag_names(b, table).contains(x) {
            let k = choose|k: int| 0 <= k < table.len() && table[k].1 == x && b & table[k].0 != 0;
            lemma_bit_or(a, b, table[k].0);
        }
    }
    assert(flag_names(a | b, table).to_set() =~= flag_names(a, table).to_set().union(flag_names(b, table).to_set()));
}

/// As sets, the names of `a & b` are those that `a` and `b` both name.
pub proof fn lemma_flag_names_intersect(a: u32, b: u32, table: Seq<(u32, Seq<char>)>)
    requires
        distinct_names(table),
        single_bits(table),
    ensures
        flag_names(a & b, table).to_set() == flag_names(a, table).to_set().intersect(flag_names(b, table).to_set()),
{
    lemma_flag_names_are_set_bits(a & b, table);
    lemma_flag_names_are_set_bits(a, table);
    lemma_flag_names_are_set_bits(b, table);
    assert forall|x: Seq<char>| flag_names(a & b, table).to_set().contains(x)
        == flag_names(a, table).to_set().intersect(flag_names(b, table).to_set()).contains(x) by {
        if flag_names(a & b, table).contains(x) {
            let k = choose|k: int| 0 <= k < table.len() && table[k].1 == x && (a & b) & table[k].0 != 0;
            lemma_bit_and(a, b, table[k].0);
        }
        if flag_names(a, table).contains(x) && flag_names(b, table).contains(x) {
            let ka = choose|k: int| 0 <= k < table.len() && table[k].1 == x && a & table[k].0 != 0;
            let kb = choose|k: int| 0 <= k < table.len() && table[k].1 == x && b & table[k].0 != 0;
            if ka != kb {
                if ka < kb {
                    assert(table[ka].1 != table[kb].1);
                } else {
                    assert(table[kb].1 != table[ka].1);
                }
            }
            lemma_bit_and(a, b, table[ka].0);
        }
    }
    assert(flag_names(a & b, table).to_set() =~= flag_names(a, table).to_set().intersect(flag_names(b, table).to_set()));
}

/// The laws of a flag list over a well-formed table: bits outside `mask` name nothing,
/// the list holds one name per set bit, names no flag twice, comes in ascending bit
/// order, and as a set follows `|` by union and `&` by intersection.
pub proof fn lemma_flag_list_laws(a: u32, b: u32, c: u32, table: Seq<(u32, Seq<char>)>, mask: u32)
    requires
        flag_table(table, mask),
    ensures
        flag_names(c, table) == flag_names(c & mask, table),
        flag_names(c, table).len() == count_set(c, table),
        flag_names(c, table).no_duplicates(),
        in_bit_order(flag_names(c, table), table),
        flag_names(a | b, table).to_set() == flag_names(a, table).to_set().union(flag_names(b, table).to_set()),
        flag_names(a & b, table).to_set() == flag_names(a, table).to_set().intersect(flag_names(b, table).to_set()),
{
    lemma_flag_names_masked(c, mask, table);
    lemma_flag_names_len(c, table);
    lemma_flag_names_distinct(c, table);
    lemma_flag_names_in_bit_order(c, table);
    lemma_flag_names_union(a, b, table);
    lemma_flag_names_intersect(a, b, table);
}

/// The COFF characteristics table holds exactly the bits of `0xffbf`: the number of its bits set in
/// `c` is the number of one bits of `c & 0xffbf`.
#[verifier::rlimit(60)]
pub proof fn lemma_characteristic_flags_count(c: u32)
    ensures
        count_set(c, characteristic_flags()) == ones(c & 0xffbf),
{
    reveal_with_fuel(ones_below, 33);
    reveal_with_fuel(count_set, 16);
    let m = c & 0xffbf;
    assert(
        ((m & (1u32 << 0u32) != 0) == (c & 0x1 != 0))
        && ((m & (1u32 << 1u32) != 0) == (c & 0x2 != 0))
        && ((m & (1u32 << 2u32) != 0) == (c & 0x4 != 0))
        && ((m & (1u32 << 3u32) != 0) == (c & 0x8 != 0))
        && ((m & (1u32 << 4u32) != 0) == (c & 0x10 != 0))
        && ((m & (1u32 << 5u32) != 0) == (c & 0x20 != 0))
        && (m & (1u32 << 6u32) == 0)
        && ((m & (1u32 << 7u32) != 0) == (c & 0x80 != 0))
        && ((m & (1u32 << 8u32) != 0) == (c & 0x100 != 0))
        && ((m & (1u32 << 9u32) != 0) == (c & 0x200 != 0))
        && ((m & (1u32 << 10u32) != 0) == (c & 0x400 != 0))
        && ((m & (1u32 << 11u32) != 0) == (c & 0x800 != 0))
        && ((m & (1u32 << 12u32) != 0) == (c & 0x1000 != 0))
        && ((m & (1u32 << 13u32) != 0) == (c & 0x2000 != 0))
        && ((m & (1u32 << 14u32) != 0) == (c & 0x4000 != 0))
        && ((m & (1u32 << 15u32) != 0) == (c & 0x8000 != 0))
        && (m & (1u32 << 16u32) == 0)
        && (m & (1u32 << 17u32) == 0)
        && (m & (1u32 << 18u32) == 0)
        && (m & (1u32 << 19u32) == 0)
        && (m & (1u32 << 20u32) == 0)
        && (m & (1u32 << 21u32) == 0)
        && (m & (1u32 << 22u32) == 0)
        && (m & (1u32 << 23u32) == 0)
        && (m & (1u32 << 24u32) == 0)
        && (m & (1u32 << 25u32) == 0)
        && (m & (1u32 << 26u32) == 0)
        && (m & (1u32 << 27u32) == 0)
        && (m & (1u32 << 28u32) == 0)
        && (m & (1u32 << 29u32) == 0)
        && (m & (1u32 << 30u32) == 0)
        && (m & (1u32 << 31u32) == 0)
    ) by (bit_vector)
        requires
            m == c & 0xffbf,
    ;
}

/// The COFF characteristics table lists distinct single bits within `0xffbf`, in ascending order,
/// under distinct names.
pub proof fn lemma_characteristic_flags_table()
    ensures
        flag_table(characteristic_flags(), 0xffbf),
{
    let t = characteristic_flags();
    reveal_strlit("RELOCS_STRIPPED");
    assert("RELOCS_STRIPPED"@.len() == 15);
    assert(t[0].1 == "RELOCS_STRIPPED"@);
    reveal_strlit("EXECUTABLE_IMAGE");
    assert("EXECUTABLE_IMAGE"@.len() == 16);
    assert(t[1].1 == "EXECUTABLE_IMAGE"@);
    reveal_strlit("LINE_NUMS_STRIPPED");
    assert("LINE_NUMS_STRIPPED"@.len() == 18);
    assert(t[2].1 == "LINE_NUMS_STRIPPED"@);
    reveal_strlit("LOCAL_SYMS_STRIPPED");
    assert("LOCAL_SYMS_STRIPPED"@.len() == 19);
    assert(t[3].1 == "LOCAL_SYMS_STRIPPED"@);
    reveal_strlit("AGGRESSIVE_WS_TRIM");
    assert("AGGRESSIVE_WS_TRIM"@.len() == 18);
    assert(t[4].1 == "AGGRESSIVE_WS_TRIM"@);
    reveal_strlit("LARGE_ADDRESS_AWARE");
    assert("LARGE_ADDRESS_AWARE"@.len() == 19);
    assert(t[5].1 == "LARGE_ADDRESS_AWARE"@);
    reveal_strlit("BYTES_REVERSED_LO");
    assert("BYTES_REVERSED_LO"@.len() == 17);
    assert(t[6].1 == "BYTES_REVERSED_LO"@);
    reveal_strlit("32BIT_MACHINE");
    assert("32BIT_MACHINE"@.len() == 13);
    assert(t[7].1 == "32BIT_MACHINE"@);
    reveal_strlit("DEBUG_STRIPPED");
    assert("DEBUG_STRIPPED"@.len() == 14);
    assert(t[8].1 == "DEBUG_STRIPPED"@);
    reveal_strlit("REMOVABLE_RUN_FROM_SWAP");
    assert("REMOVABLE_RUN_FROM_SWAP"@.len() == 23);
    assert(t[9].1 == "REMOVABLE_RUN_FROM_SWAP"@);
    reveal_strlit("NET_RUN_FROM_SWAP");
    assert("NET_RUN_FROM_SWAP"@.len() == 17);
    assert(t[10].1 == "NET_RUN_FROM_SWAP"@);
    reveal_strlit("SYSTEM");
    assert("SYSTEM"@.len() == 6);
    assert(t[11].1 == "SYSTEM"@);
    reveal_strlit("DLL");
    assert("DLL"@.len() == 3);
    assert(t[12].1 == "DLL"@);
    reveal_strlit("UP_SYSTEM_ONLY");
    assert("UP_SYSTEM_ONLY"@.len() == 14);
    assert(t[13].1 == "UP_SYSTEM_ONLY"@);
    reveal_strlit("BYTES_REVERSED_HI");
    assert("BYTES_REVERSED_HI"@.len() == 17);
    assert(t[14].1 == "BYTES_REVERSED_HI"@);
    assert("LINE_NUMS_STRIPPED"@[0] != "AGGRESSIVE_WS_TRIM"@[0]);
    assert("LOCAL_SYMS_STRIPPED"@[1] != "LARGE_ADDRESS_AWARE"@[1]);
    assert("BYTES_REVERSED_LO"@[0] != "NET_RUN_FROM_SWAP"@[0]);
    assert("BYTES_REVERSED_LO"@[15] != "BYTES_REVERSED_HI"@[15]);
    assert("DEBUG_STRIPPED"@[0] != "UP_SYSTEM_ONLY"@[0]);
    assert("NET_RUN_FROM_SWAP"@[0] != "BYTES_REVERSED_HI"@[0]);
    assert(t[0].0 == 0x0001);
    assert(t[1].0 == 0x0002);
    assert(t[2].0 == 0x0004);
    assert(t[3].0 == 0x0008);
    assert(t[4].0 == 0x0010);
    assert(t[5].0 == 0x0020);
    assert(t[6].0 == 0x0080);
    assert(t[7].0 == 0x0100);
    assert(t[8].0 == 0x0200);
    assert(t[9].0 == 0x0400);
    assert(t[10].0 == 0x0800);
    assert(t[11].0 == 0x1000);
    assert(t[12].0 == 0x2000);
    assert(t[13].0 == 0x4000);
    assert(t[14].0 == 0x8000);
    assert(0x0001u32 & ((0x0001u32 - 1) as u32) == 0 && 0x0001u32 & 0xffbfu32 == 0x0001u32 && 0x0002u32 & ((0x0002u32 - 1) as u32) == 0 && 0x0002u32 & 0xffbfu32 == 0x0002u32 && 0x0004u32 & ((0x0004u32 - 1) as u32) == 0 && 0x0004u32 & 0xffbfu32 == 0x0004u32 && 0x0008u32 & ((0x0008u32 - 1) as u32) == 0 && 0x0008u32 & 0xffbfu32 == 0x0008u32 && 0x0010u32 & ((0x0010u32 - 1) as u32) == 0 && 0x0010u32 & 0xffbfu32 == 0x0010u32 && 0x0020u32 & ((0x0020u32 - 1) as u32) == 0 && 0x0020u32 & 0xffbfu32 == 0x0020u32 && 0x0080u32 & ((0x0080u32 - 1) as u32) == 0 && 0x0080u32 & 0xffbfu32 == 0x0080u32 && 0x0100u32 & ((0x0100u32 - 1) as u32) == 0 && 0x0100u32 & 0xffbfu32 == 0x0100u32 && 0x0200u32 & ((0x0200u32 - 1) as u32) == 0 && 0x0200u32 & 0xffbfu32 == 0x0200u32 && 0x0400u32 & ((0x0400u32 - 1) as u32) == 0 && 0x0400u32 & 0xffbfu32 == 0x0400u32 && 0x0800u32 & ((0x0800u32 - 1) as u32) == 0 && 0x0800u32 & 0xffbfu32 == 0x0800u32 && 0x1000u32 & ((0x1000u32 - 1) as u32) == 0 && 0x1000u32 & 0xffbfu32 == 0x1000u32 && 0x2000u32 & ((0x2000u32 - 1) as u32) == 0 && 0x2000u32 & 0xffbfu32 == 0x2000u32 && 0x4000u32 & ((0x4000u32 - 1) as u32) == 0 && 0x4000u32 & 0xffbfu32 == 0x4000u32 && 0x8000u32 & ((0x8000u32 - 1) as u32) == 0 && 0x8000u32 & 0xffbfu32 == 0x8000u32) by (bit_vector);
    assert forall|i: int, j: int| 0 <= i < j < t.len() implies #[trigger] t[i].1 != #[trigger] t[j].1 && t[i].0 < t[j].0 by {
        assert(i == 0 || i == 1 || i == 2 || i == 3 || i == 4 || i == 5 || i == 6 || i == 7 || i == 8 || i == 9 || i == 10 || i == 11 || i == 12 || i == 13 || i == 14);
        assert(j == 0 || j == 1 || j == 2 || j == 3 || j == 4 || j == 5 || j == 6 || j == 7 || j == 8 || j == 9 || j == 10 || j == 11 || j == 12 || j == 13 || j == 14);
    }
    assert forall|k: int| 0 <= k < t.len() implies (#[trigger] t[k]).0 != 0 && t[k].0 & ((t[k].0 - 1) as u32) == 0 && t[k].0 & 0xffbf == t[k].0 by {
        assert(k == 0 || k == 1 || k == 2 || k == 3 || k == 4 || k == 5 || k == 6 || k == 7 || k == 8 || k == 9 || k == 10 || k == 11 || k == 12 || k == 13 || k == 14);
    }
}

/// The DLL characteristics table holds exactly the bits of `0xffe0`: the number of its bits set in
/// `c` is the number of one bits of `c & 0xffe0`.
pub proof fn lemma_dll_characteristic_flags_count(c: u32)
    ensures
        count_set(c, dll_characteristic_flags()) == ones(c & 0xffe0),
{
    reveal_with_fuel(ones_below, 33);
    reveal_with_fuel(count_set, 12);
    let m = c & 0xffe0;
    assert(
        (m & (1u32 << 0u32) == 0)
        && (m & (1u32 << 1u32) == 0)
        && (m & (1u32 << 2u32) == 0)
        && (m & (1u32 << 3u32) == 0)
        && (m & (1u32 << 4u32) == 0)
        && ((m & (1u32 << 5u32) != 0) == (c & 0x20 != 0))
        && ((m & (1u32 << 6u32) != 0) == (c & 0x40 != 0))
        && ((m & (1u32 << 7u32) != 0) == (c & 0x80 != 0))
        && ((m & (1u32 << 8u32) != 0) == (c & 0x100 != 0))
        && ((m & (1u32 << 9u32) != 0) == (c & 0x200 != 0))
        && ((m & (1u32 << 10u32) != 0) == (c & 0x400 != 0))
        && ((m & (1u32 << 11u32) != 0) == (c & 0x800 != 0))
        && ((m & (1u32 << 12u32) != 0) == (c & 0x1000 != 0))
        && ((m & (1u32 << 13u32) != 0) == (c & 0x2000 != 0))
        && ((m & (1u32 << 14u32) != 0) == (c & 0x4000 != 0))
        && ((m & (1u32 << 15u32) != 0) == (c & 0x8000 != 0))
        && (m & (1u32 << 16u32) == 0)
        && (m & (1u32 << 17u32) == 0)
        && (m & (1u32 << 18u32) == 0)
        && (m & (1u32 << 19u32) == 0)
        && (m & (1u32 << 20u32) == 0)
        && (m & (1u32 << 21u32) == 0)
        && (m & (1u32 << 22u32) == 0)
        && (m & (1u32 << 23u32) == 0)
        && (m & (1u32 << 24u32) == 0)
        && (m & (1u32 << 25u32) == 0)
        && (m & (1u32 << 26u32) == 0)
        && (m & (1u32 << 27u32) == 0)
        && (m & (1u32 << 28u32) == 0)
        && (m & (1u32 << 29u32) == 0)
        && (m & (1u32 << 30u32) == 0)
        && (m & (1u32 << 31u32) == 0)
    ) by (bit_vector)
        requires
            m == c & 0xffe0,
    ;
}

/// The DLL characteristics table lists distinct single bits within `0xffe0`, in ascending order,
/// under distinct names.
pub proof fn lemma_dll_characteristic_flags_table()
    ensures
        flag_table(dll_characteristic_flags(), 0xffe0),
{
    let t = dll_characteristic_flags();
    reveal_strlit("HIGH_ENTROPY_VA");
    assert("HIGH_ENTROPY_VA"@.len() == 15);
    assert(t[0].1 == "HIGH_ENTROPY_VA"@);
    reveal_strlit("DYNAMIC_BASE");
    assert("DYNAMIC_BASE"@.len() == 12);
    assert(t[1].1 == "DYNAMIC_BASE"@);
    reveal_strlit("FORCE_INTEGRITY");
    assert("FORCE_INTEGRITY"@.len() == 15);
    assert(t[2].1 == "FORCE_INTEGRITY"@);
    reveal_strlit("NX_COMPAT");
    assert("NX_COMPAT"@.len() == 9);
    assert(t[3].1 == "NX_COMPAT"@);
    reveal_strlit("NO_ISOLATION");
    assert("NO_ISOLATION"@.len() == 12);
    assert(t[4].1 == "NO_ISOLATION"@);
    reveal_strlit("NO_SEH");
    assert("NO_SEH"@.len() == 6);
    assert(t[5].1 == "NO_SEH"@);
    reveal_strlit("NO_BIND");
    assert("NO_BIND"@.len() == 7);
    assert(t[6].1 == "NO_BIND"@);
    reveal_strlit("APPCONTAINER");
    assert("APPCONTAINER"@.len() == 12);
    assert(t[7].1 == "APPCONTAINER"@);
    reveal_strlit("WDM_DRIVER");
    assert("WDM_DRIVER"@.len() == 10);
    assert(t[8].1 == "WDM_DRIVER"@);
    reveal_strlit("GUARD_CF");
    assert("GUARD_CF"@.len() == 8);
    assert(t[9].1 == "GUARD_CF"@);
    reveal_strlit("TERMINAL_SERVER_AWARE");
    assert("TERMINAL_SERVER_AWARE"@.len() == 21);
    assert(t[10].1 == "TERMINAL_SERVER_AWARE"@);
    assert("HIGH_ENTROPY_VA"@[0] != "FORCE_INTEGRITY"@[0]);
    assert("DYNAMIC_BASE"@[0] != "NO_ISOLATION"@[0]);
    assert("DYNAMIC_BASE"@[0] != "APPCONTAINER"@[0]);
    assert("NO_ISOLATION"@[0] != "APPCONTAINER"@[0]);
    assert(t[0].0 == 0x0020);
    assert(t[1].0 == 0x0040);
    assert(t[2].0 == 0x0080);
    assert(t[3].0 == 0x0100);
    assert(t[4].0 == 0x0200);
    assert(t[5].0 == 0x0400);
    assert(t[6].0 == 0x0800);
    assert(t[7].0 == 0x1000);
    assert(t[8].0 == 0x2000);
    assert(t[9].0 == 0x4000);
    assert(t[10].0 == 0x8000);
    assert(0x0020u32 & ((0x0020u32 - 1) as u32) == 0 && 0x0020u32 & 0xffe0u32 == 0x0020u32 && 0x0040u32 & ((0x0040u32 - 1) as u32) == 0 && 0x0040u32 & 0xffe0u32 == 0x0040u32 && 0x0080u32 & ((0x0080u32 - 1) as u32) == 0 && 0x0080u32 & 0xffe0u32 == 0x0080u32 && 0x0100u32 & ((0x0100u32 - 1) as u32) == 0 && 0x0100u32 & 0xffe0u32 == 0x0100u32 && 0x0200u32 & ((0x0200u32 - 1) as u32) == 0 && 0x0200u32 & 0xffe0u32 == 0x0200u32 && 0x0400u32 & ((0x0400u32 - 1) as u32) == 0 && 0x0400u32 & 0xffe0u32 == 0x0400u32 && 0x0800u32 & ((0x0800u32 - 1) as u32) == 0 && 0x0800u32 & 0xffe0u32 == 0x0800u32 && 0x1000u32 & ((0x1000u32 - 1) as u32) == 0 && 0x1000u32 & 0xffe0u32 == 0x1000u32 && 0x2000u32 & ((0x2000u32 - 1) as u32) == 0 && 0x2000u32 & 0xffe0u32 == 0x2000u32 && 0x4000u32 & ((0x4000u32 - 1) as u32) == 0 && 0x4000u32 & 0xffe0u32 == 0x4000u32 && 0x8000u32 & ((0x8000u32 - 1) as u32) == 0 && 0x8000u32 & 0xffe0u32 == 0x8000u32) by (bit_vector);
    assert forall|i: int, j: int| 0 <= i < j < t.len() implies #[trigger] t[i].1 != #[trigger] t[j].1 && t[i].0 < t[j].0 by {
        assert(i == 0 || i == 1 || i == 2 || i == 3 || i == 4 || i == 5 || i == 6 || i == 7 || i == 8 || i == 9 || i == 10);
        assert(j == 0 || j == 1 || j == 2 || j == 3 || j == 4 || j == 5 || j == 6 || j == 7 || j == 8 || j == 9 || j == 10);
    }
    assert forall|k: int| 0 <= k < t.len() implies (#[trigger] t[k]).0 != 0 && t[k].0 & ((t[k].0 - 1) as u32) == 0 && t[k].0 & 0xffe0 == t[k].0 by {
        assert(k == 0 || k == 1 || k == 2 || k == 3 || k == 4 || k == 5 || k == 6 || k == 7 || k == 8 || k == 9 || k == 10);
    }
}

/// The section characteristics table holds exactly the bits of `0xfe00_00e0`: the number of its bits set in
/// `c` is the number of one bits of `c & 0xfe00_00e0`.
pub proof fn lemma_section_characteristic_flags_count(c: u32)
    ensures
        count_set(c, section_characteristic_flags()) == ones(c & 0xfe00_00e0),
{
    reveal_with_fuel(ones_below, 33);
    reveal_with_fuel(count_set, 11);
    let m = c & 0xfe00_00e0;
    assert(
        (m & (1u32 << 0u32) == 0)
        && (m & (1u32 << 1u32) == 0)
        && (m & (1u32 << 2u32) == 0)
        && (m & (1u32 << 3u32) == 0)
        && (m & (1u32 << 4u32) == 0)
        && ((m & (1u32 << 5u32) != 0) == (c & 0x20 != 0))
        && ((m & (1u32 << 6u32) != 0) == (c & 0x40 != 0))
        && ((m & (1u32 << 7u32) != 0) == (c & 0x80 != 0))
        && (m & (1u32 << 8u32) == 0)
        && (m & (1u32 << 9u32) == 0)
        && (m & (1u32 << 10u32) == 0)
        && (m & (1u32 << 11u32) == 0)
        && (m & (1u32 << 12u32) == 0)
        && (m & (1u32 << 13u32) == 0)
        && (m & (1u32 << 14u32) == 0)
        && (m & (1u32 << 15u32) == 0)
        && (m & (1u32 << 16u32) == 0)
        && (m & (1u32 << 17u32) == 0)
        && (m & (1u32 << 18u32) == 0)
        && (m & (1u32 << 19u32) == 0)
        && (m & (1u32 << 20u32) == 0)
        && (m & (1u32 << 21u32) == 0)
        && (m & (1u32 << 22u32) == 0)
        && (m & (1u32 << 23u32) == 0)
        && (m & (1u32 << 24u32) == 0)
        && ((m & (1u32 << 25u32) != 0) == (c & 0x2000000 != 0))
        && ((m & (1u32 << 26u32) != 0) == (c & 0x4000000 != 0))
        && ((m & (1u32 << 27u32) != 0) == (c & 0x8000000 != 0))
        && ((m & (1u32 << 28u32) != 0) == (c & 0x10000000 != 0))
        && ((m & (1u32 << 29u32) != 0) == (c & 0x20000000 != 0))
        && ((m & (1u32 << 30u32) != 0) == (c & 0x40000000 != 0))
        && ((m & (1u32 << 31u32) != 0) == (c & 0x80000000 != 0))
    ) by (bit_vector)
        requires
            m == c & 0xfe00_00e0,
    ;
}

/// The section characteristics table lists distinct single bits within `0xfe00_00e0`, in ascending order,
/// under distinct names.
pub proof fn lemma_section_characteristic_flags_table()
    ensures
        flag_table(section_characteristic_flags(), 0xfe00_00e0),
{
    let t = section_characteristic_flags();
    reveal_strlit("CODE");
    assert("CODE"@.len() == 4);
    assert(t[0].1 == "CODE"@);
    reveal_strlit("INITIALIZED_DATA");
    assert("INITIALIZED_DATA"@.len() == 16);
    assert(t[1].1 == "INITIALIZED_DATA"@);
    reveal_strlit("UNINITIALIZED_DATA");
    assert("UNINITIALIZED_DATA"@.len() == 18);
    assert(t[2].1 == "UNINITIALIZED_DATA"@);
    reveal_strlit("DISCARDABLE");
    assert("DISCARDABLE"@.len() == 11);
    assert(t[3].1 == "DISCARDABLE"@);
    reveal_strlit("NOT_CACHED");
    assert("NOT_CACHED"@.len() == 10);
    assert(t[4].1 == "NOT_CACHED"@);
    reveal_strlit("NOT_PAGED");
    assert("NOT_PAGED"@.len() == 9);
    assert(t[5].1 == "NOT_PAGED"@);
    reveal_strlit("SHARED");
    assert("SHARED"@.len() == 6);
    assert(t[6].1 == "SHARED"@);
    reveal_strlit("EXECUTE");
    assert("EXECUTE"@.len() == 7);
    assert(t[7].1 == "EXECUTE"@);
    reveal_strlit("READ");
    assert("READ"@.len() == 4);
    assert(t[8].1 == "READ"@);
    reveal_strlit("WRITE");
    assert("WRITE"@.len() == 5);
    assert(t[9].1 == "WRITE"@);
    assert("CODE"@[0] != "READ"@[0]);
    assert(t[0].0 == 0x0000_0020);
    assert(t[1].0 == 0x0000_0040);
    assert(t[2].0 == 0x0000_0080);
    assert(t[3].0 == 0x0200_0000);
    assert(t[4].0 == 0x0400_0000);
    assert(t[5].0 == 0x0800_0000);
    assert(t[6].0 == 0x1000_0000);
    assert(t[7].0 == 0x2000_0000);
    assert(t[8].0 == 0x4000_0000);
    assert(t[9].0 == 0x8000_0000);
    assert(0x0000_0020u32 & ((0x0000_0020u32 - 1) as u32) == 0 && 0x0000_0020u32 & 0xfe00_00e0u32 == 0x0000_0020u32 && 0x0000_0040u32 & ((0x0000_0040u32 - 1) as u32) == 0 && 0x0000_0040u32 & 0xfe00_00e0u32 == 0x0000_0040u32 && 0x0000_0080u32 & ((0x0000_0080u32 - 1) as u32) == 0 && 0x0000_0080u32 & 0xfe00_00e0u32 == 0x0000_0080u32 && 0x0200_0000u32 & ((0x0200_0000u32 - 1) as u32) == 0 && 0x0200_0000u32 & 0xfe00_00e0u32 == 0x0200_0000u32 && 0x0400_0000u32 & ((0x0400_0000u32 - 1) as u32) == 0 && 0x0400_0000u32 & 0xfe00_00e0u32 == 0x0400_0000u32 && 0x0800_0000u32 & ((0x0800_0000u32 - 1) as u32) == 0 && 0x0800_0000u32 & 0xfe00_00e0u32 == 0x0800_0000u32 && 0x1000_0000u32 & ((0x1000_0000u32 - 1) as u32) == 0 && 0x1000_0000u32 & 0xfe00_00e0u32 == 0x1000_0000u32 && 0x2000_0000u32 & ((0x2000_0000u32 - 1) as u32) == 0 && 0x2000_0000u32 & 0xfe00_00e0u32 == 0x2000_0000u32 && 0x4000_0000u32 & ((0x4000_0000u32 - 1) as u32) == 0 && 0x4000_0000u32 & 0xfe00_00e0u32 == 0x4000_0000u32 && 0x8000_0000u32 & ((0x8000_0000u32 - 1) as u32) == 0 && 0x8000_0000u32 & 0xfe00_00e0u32 == 0x8000_0000u32) by (bit_vector);
    assert forall|i: int, j: int| 0 <= i < j < t.len() implies #[trigger] t[i].1 != #[trigger] t[j].1 && t[i].0 < t[j].0 by {
        assert(i == 0 || i == 1 || i == 2 || i == 3 || i == 4 || i == 5 || i == 6 || i == 7 || i == 8 || i == 9);
        assert(j == 0 || j == 1 || j == 2 || j == 3 || j == 4 || j == 5 || j == 6 || j == 7 || j == 8 || j == 9);
    }
    assert forall|k: int| 0 <= k < t.len() implies (#[trigger] t[k]).0 != 0 && t[k].0 & ((t[k].0 - 1) as u32) == 0 && t[k].0 & 0xfe00_00e0 == t[k].0 by {
        assert(k == 0 || k == 1 || k == 2 || k == 3 || k == 4 || k == 5 || k == 6 || k == 7 || k == 8 || k == 9);
    }
}

/// Collects, in table order, the names of the table entries whose bit is set in `c`.
fn set_flag_names(c: u32, table: &Vec<(u32, &'static str)>) -> (v: Vec<&'static str>)
    ensures
        names_view(v@) == flag_names(c, table_view(table@)),
{
    let mut v: Vec<&'static str> = Vec::new();
    let mut i: usize = 0;
    while i < table.len()
        invariant
            i <= table.len(),
            names_view(v@) == flag_names(c, table_view(table@.take(i as int))),
        decreases table.len() - i,
    {
        let (bit, name) = table[i];
        proof {
            assert(table@.take(i + 1).drop_last() =~= table@.take(i as int));
            assert(table_view(table@.take(i + 1)).drop_last() =~= table_view(table@.take(i as int)));
        }
        if c & bit != 0 {
            v.push(name);
        }
        proof {
            assert(names_view(v@) =~= flag_names(c, table_view(table@.take(i + 1))));
        }
        i = i + 1;
    }
    proof {
        assert(table@.take(table.len() as int) =~= table@);
    }
    v
}

/// The flag bits of COFF characteristics, with their names, in the order they are listed.
pub open spec fn characteristic_flags() -> Seq<(u32, Seq<char>)> {
    seq![
        (0x0001, "RELOCS_STRIPPED"@),
        (0x0002, "EXECUTABLE_IMAGE"@),
        (0x0004, "LINE_NUMS_STRIPPED"@),
        (0x0008, "LOCAL_SYMS_STRIPPED"@),
        (0x0010, "AGGRESSIVE_WS_TRIM"@),
        (0x0020, "LARGE_ADDRESS_AWARE"@),
        (0x0080, "BYTES_REVERSED_LO"@),
        (0x0100, "32BIT_MACHINE"@),
        (0x0200, "DEBUG_STRIPPED"@),
        (0x0400, "REMOVABLE_RUN_FROM_SWAP"@),
        (0x0800, "NET_RUN_FROM_SWAP"@),
        (0x1000, "SYSTEM"@),
        (0x2000, "DLL"@),
        (0x4000, "UP_SYSTEM_ONLY"@),
        (0x8000, "BYTES_REVERSED_HI"@),
    ]
}

/// The names of the COFF characteristics flags set in `c`, in table order.
pub fn characteristics(c: u16) -> (v: Vec<&'static str>)
    ensures
        names_view(v@) == flag_names(c as u32, characteristic_flags()),
{
    let table: Vec<(u32, &'static str)> = vec![
        (0x0001, "RELOCS_STRIPPED"),
        (0x0002, "EXECUTABLE_IMAGE"),
        (0x0004, "LINE_NUMS_STRIPPED"),
        (0x0008, "LOCAL_SYMS_STRIPPED"),
        (0x0010, "AGGRESSIVE_WS_TRIM"),
        (0x0020, "LARGE_ADDRESS_AWARE"),
        (0x0080, "BYTES_REVERSED_LO"),
        (0x0100, "32BIT_MACHINE"),
        (0x0200, "DEBUG_STRIPPED"),
        (0x0400, "REMOVABLE_RUN_FROM_SWAP"),
        (0x0800, "NET_RUN_FROM_SWAP"),
        (0x1000, "SYSTEM"),
        (0x2000, "DLL"),
        (0x4000, "UP_SYSTEM_ONLY"),
        (0x8000, "BYTES_REVERSED_HI"),
    ];
    proof {
        assert(table_view(table@) =~= characteristic_flags());
    }
    set_flag_names(c as u32, &table)
}

/// The laws of `characteristics`: bits outside `0xffbf` name nothing; the list holds
/// one name per table bit set in `c`, as many as `c` has one bits within the mask; it
/// names no flag twice and comes in ascending bit order; and, as sets, the names of
/// `a | b` are those of `a` and of `b` together, the names of `a & b` those both name.
pub proof fn lemma_characteristics_laws(a: u16, b: u16, c: u16)
    ensures
        flag_names(c as u32, characteristic_flags()) == flag_names((c & 0xffbf) as u32, characteristic_flags()),
        flag_names(c as u32, characteristic_flags()).len() == count_set(c as u32, characteristic_flags()),
        flag_names(c as u32, characteristic_flags()).len() == ones((c as u32) & 0xffbf),
        flag_names(c as u32, characteristic_flags()).no_duplicates(),
        in_bit_order(flag_names(c as u32, characteristic_flags()), characteristic_flags()),
        flag_names((a | b) as u32, characteristic_flags()).to_set() == flag_names(a as u32, characteristic_flags()).to_set().union(flag_names(b as u32, characteristic_flags()).to_set()),
        flag_names((a & b) as u32, characteristic_flags()).to_set() == flag_names(a as u32, characteristic_flags()).to_set().intersect(flag_names(b as u32, characteristic_flags()).to_set()),
{
    lemma_characteristic_flags_table();
    lemma_characteristic_flags_count(c as u32);
    lemma_flag_list_laws(a as u32, b as u32, c as u32, characteristic_flags(), 0xffbf);
    assert((a | b) as u32 == (a as u32) | (b as u32) && (a & b) as u32 == (a as u32) & (b as u32)
        && (c & 0xffbf) as u32 == (c as u32) & 0xffbfu32) by (bit_vector);
}

/// The flag bits of DLL characteristics, with their names, in the order they are listed.
pub open spec fn dll_characteristic_flags() -> Seq<(u32, Seq<char>)> {
    seq![
        (0x0020, "HIGH_ENTROPY_VA"@),
        (0x0040, "DYNAMIC_BASE"@),
        (0x0080, "FORCE_INTEGRITY"@),
        (0x0100, "NX_COMPAT"@),
        (0x0200, "NO_ISOLATION"@),
        (0x0400, "NO_SEH"@),
        (0x0800, "NO_BIND"@),
        (0x1000, "APPCONTAINER"@),
        (0x2000, "WDM_DRIVER"@),
        (0x4000, "GUARD_CF"@),
        (0x8000, "TERMINAL_SERVER_AWARE"@),
    ]
}

/// The names of the DLL characteristics flags set in `c`, in table order.
pub fn dll_characteristics(c: u16) -> (v: Vec<&'static str>)
    ensures
        names_view(v@) == flag_names(c as u32, dll_characteristic_flags()),
{
    let table: Vec<(u32, &'static str)> = vec![
        (0x0020, "HIGH_ENTROPY_VA"),
        (0x0040, "DYNAMIC_BASE"),
        (0x0080, "FORCE_INTEGRITY"),
        (0x0100, "NX_COMPAT"),
        (0x0200, "NO_ISOLATION"),
        (0x0400, "NO_SEH"),
        (0x0800, "NO_BIND"),
        (0x1000, "APPCONTAINER"),
        (0x2000, "WDM_DRIVER"),
        (0x4000, "GUARD_CF"),
        (0x8000, "TERMINAL_SERVER_AWARE"),
    ];
    proof {
        assert(table_view(table@) =~= dll_characteristic_flags());
    }
    set_flag_names(c as u32, &table)
}

/// The laws of `dll_characteristics`: bits outside `0xffe0` name nothing; the list holds
/// one name per table bit set in `c`, as many as `c` has one bits within the mask; it
/// names no flag twice and comes in ascending bit order; and, as sets, the names of
/// `a | b` are those of `a` and of `b` together, the names of `a & b` those both name.
pub proof fn lemma_dll_characteristics_laws(a: u16, b: u16, c: u16)
    ensures
        flag_names(c as u32, dll_characteristic_flags()) == flag_names((c & 0xffe0) as u32, dll_characteristic_flags()),
        flag_names(c as u32, dll_characteristic_flags()).len() == count_set(c as u32, dll_characteristic_flags()),
        flag_names(c as u32, dll_characteristic_flags()).len() == ones((c as u32) & 0xffe0),
        flag_names(c as u32, dll_characteristic_flags()).no_duplicates(),
        in_bit_order(flag_names(c as u32, dll_characteristic_flags()), dll_characteristic_flags()),
        flag_names((a | b) as u32, dll_characteristic_flags()).to_set() == flag_names(a as u32, dll_characteristic_flags()).to_set().union(flag_names(b as u32, dll_characteristic_flags()).to_set()),
        flag_names((a & b) as u32, dll_characteristic_flags()).to_set() == flag_names(a as u32, dll_characteristic_flags()).to_set().intersect(flag_names(b as u32, dll_characteristic_flags()).to_set()),
{
    lemma_dll_characteristic_flags_table();
    lemma_dll_characteristic_flags_count(c as u32);
    lemma_flag_list_laws(a as u32, b as u32, c as u32, dll_characteristic_flags(), 0xffe0);
    assert((a | b) as u32 == (a as u32) | (b as u32) && (a & b) as u32 == (a as u32) & (b as u32)
        && (c & 0xffe0) as u32 == (c as u32) & 0xffe0u32) by (bit_vector);
}

/// The flag bits of section characteristics, with their names, in the order they are listed.
pub open spec fn section_characteristic_flags() -> Seq<(u32, Seq<char>)> {
    seq![
        (0x0000_0020, "CODE"@),
        (0x0000_0040, "INITIALIZED_DATA"@),
        (0x0000_0080, "UNINITIALIZED_DATA"@),
        (0x0200_0000, "DISCARDABLE"@),
        (0x0400_0000, "NOT_CACHED"@),
        (0x0800_0000, "NOT_PAGED"@),
        (0x1000_0000, "SHARED"@),
        (0x2000_0000, "EXECUTE"@),
        (0x4000_0000, "READ"@),
        (0x8000_0000, "WRITE"@),
    ]
}

/// The names of the section characteristics flags set in `c`, in table order.
pub fn section_characteristics(c: u32) -> (v: Vec<&'static str>)
    ensures
        names_view(v@) == flag_names(c as u32, section_characteristic_flags()),
{
    let table: Vec<(u32, &'static str)> = vec![
        (0x0000_0020, "CODE"),
        (0x0000_0040, "INITIALIZED_DATA"),
        (0x0000_0080, "UNINITIALIZED_DATA"),
        (0x0200_0000, "DISCARDABLE"),
        (0x0400_0000, "NOT_CACHED"),
        (0x0800_0000, "NOT_PAGED"),
        (0x1000_0000, "SHARED"),
        (0x2000_0000, "EXECUTE"),
        (0x4000_0000, "READ"),
        (0x8000_0000, "WRITE"),
    ];
    proof {
        assert(table_view(table@) =~= section_characteristic_flags());
    }
    set_flag_names(c, &table)
}

/// The laws of `section_characteristics`: bits outside `0xfe00_00e0` name nothing; the list holds
/// one name per table bit set in `c`, as many as `c` has one bits within the mask; it
/// names no flag twice and comes in ascending bit order; and, as sets, the names of
/// `a | b` are those of `a` and of `b` together, the names of `a & b` those both name.
pub proof fn lemma_section_characteristics_laws(a: u32, b: u32, c: u32)
    ensures
        flag_names(c, section_characteristic_flags()) == flag_names(c & 0xfe00_00e0, section_characteristic_flags()),
        flag_names(c, section_characteristic_flags()).len() == count_set(c, section_characteristic_flags()),
        flag_names(c, section_characteristic_flags()).len() == ones((c) & 0xfe00_00e0),
        flag_names(c, section_characteristic_flags()).no_duplicates(),
        in_bit_order(flag_names(c, section_characteristic_flags()), section_characteristic_flags()),
        flag_names(a | b, section_characteristic_flags()).to_set() == flag_names(a, section_characteristic_flags()).to_set().union(flag_names(b, section_characteristic_flags()).to_set()),
        flag_names(a & b, section_characteristic_flags()).to_set() == flag_names(a, section_characteristic_flags()).to_set().intersect(flag_names(b, section_characteristic_flags()).to_set()),
{
    lemma_section_characteristic_flags_table();
    lemma_section_characteristic_flags_count(c);
    lemma_flag_list_laws(a, b, c, section_characteristic_flags(), 0xfe00_00e0);
}

} // verus!
