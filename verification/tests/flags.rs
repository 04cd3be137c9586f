use pe_info::flags::{characteristics, dll_characteristics, machine_name, section_characteristics, subsystem_name};

#[test]
fn machine_names_of_known_codes() {
    assert_eq!(machine_name(0x014c), "i386");
    assert_eq!(machine_name(0x0200), "ia64");
    assert_eq!(machine_name(0x8664), "x64");
    assert_eq!(machine_name(0xaa64), "arm64");
    assert_eq!(machine_name(0x01c0), "arm");
    assert_eq!(machine_name(0x01c4), "armnt");
    assert_eq!(machine_name(0x5032), "riscv32");
    assert_eq!(machine_name(0x5064), "riscv64");
}

#[test]
fn machine_name_of_unlisted_code_is_unknown() {
    assert_eq!(machine_name(0), "unknown");
    assert_eq!(machine_name(0x014d), "unknown");
    assert_eq!(machine_name(0xffff), "unknown");
}

#[test]
fn subsystem_names_of_known_values() {
    assert_eq!(subsystem_name(1), "Native");
    assert_eq!(subsystem_name(2), "Windows GUI");
    assert_eq!(subsystem_name(3), "Windows CUI");
    assert_eq!(subsystem_name(5), "OS/2 CUI");
    assert_eq!(subsystem_name(7), "POSIX CUI");
    assert_eq!(subsystem_name(9), "Windows CE GUI");
    assert_eq!(subsystem_name(10), "EFI Application");
    assert_eq!(subsystem_name(11), "EFI Boot Service Driver");
    assert_eq!(subsystem_name(12), "EFI Runtime Driver");
    assert_eq!(subsystem_name(13), "EFI ROM");
    assert_eq!(subsystem_name(14), "XBOX");
    assert_eq!(subsystem_name(16), "Windows Boot Application");
}

#[test]
fn subsystem_name_of_unlisted_value_is_unknown() {
    assert_eq!(subsystem_name(0), "unknown");
    assert_eq!(subsystem_name(4), "unknown");
    assert_eq!(subsystem_name(15), "unknown");
    assert_eq!(subsystem_name(17), "unknown");
}

#[test]
fn characteristics_of_executable_32bit() {
    assert_eq!(characteristics(0x0102), vec!["EXECUTABLE_IMAGE", "32BIT_MACHINE"]);
}

#[test]
fn characteristics_of_dll() {
    assert_eq!(characteristics(0x2022), vec!["EXECUTABLE_IMAGE", "LARGE_ADDRESS_AWARE", "DLL"]);
}

#[test]
fn characteristics_of_zero_is_empty() {
    assert!(characteristics(0).is_empty());
    assert!(dll_characteristics(0).is_empty());
    assert!(section_characteristics(0).is_empty());
}

#[test]
fn characteristics_all_bits_in_table_order() {
    assert_eq!(
        characteristics(0xffff),
        vec![
            "RELOCS_STRIPPED",
            "EXECUTABLE_IMAGE",
            "LINE_NUMS_STRIPPED",
            "LOCAL_SYMS_STRIPPED",
            "AGGRESSIVE_WS_TRIM",
            "LARGE_ADDRESS_AWARE",
            "BYTES_REVERSED_LO",
            "32BIT_MACHINE",
            "DEBUG_STRIPPED",
            "REMOVABLE_RUN_FROM_SWAP",
            "NET_RUN_FROM_SWAP",
            "SYSTEM",
            "DLL",
            "UP_SYSTEM_ONLY",
            "BYTES_REVERSED_HI",
        ]
    );
}

#[test]
fn characteristics_unnamed_bit_is_ignored() {
    assert!(characteristics(0x0040).is_empty());
}

#[test]
fn dll_characteristics_of_common_image() {
    assert_eq!(dll_characteristics(0x8160), vec!["HIGH_ENTROPY_VA", "DYNAMIC_BASE", "NX_COMPAT", "TERMINAL_SERVER_AWARE"]);
}

#[test]
fn dll_characteristics_all_bits() {
    assert_eq!(
        dll_characteristics(0xffff),
        vec![
            "HIGH_ENTROPY_VA",
            "DYNAMIC_BASE",
            "FORCE_INTEGRITY",
            "NX_COMPAT",
            "NO_ISOLATION",
            "NO_SEH",
            "NO_BIND",
            "APPCONTAINER",
            "WDM_DRIVER",
            "GUARD_CF",
            "TERMINAL_SERVER_AWARE",
        ]
    );
    assert!(dll_characteristics(0x001f).is_empty());
}

#[test]
fn section_characteristics_of_text_section() {
    assert_eq!(section_characteristics(0x6000_0020), vec!["CODE", "EXECUTE", "READ"]);
}

#[test]
fn section_characteristics_all_bits() {
    assert_eq!(
        section_characteristics(0xffff_ffff),
        vec![
            "CODE",
            "INITIALIZED_DATA",
            "UNINITIALIZED_DATA",
            "DISCARDABLE",
            "NOT_CACHED",
            "NOT_PAGED",
            "SHARED",
            "EXECUTE",
            "READ",
            "WRITE",
        ]
    );
}

#[test]
fn characteristics_union_and_masked_bits() {
    let a: u16 = 0x0102;
    let b: u16 = 0x2022;
    let mut u = characteristics(a);
    for n in characteristics(b) {
        if !u.contains(&n) {
            u.push(n);
        }
    }
    let mut got = characteristics(a | b);
    got.sort();
    u.sort();
    assert_eq!(got, u);
    assert_eq!(characteristics(a & b), vec!["EXECUTABLE_IMAGE"]);
    assert_eq!(characteristics(0xffff).len(), (0xffffu16 & 0xffbf).count_ones() as usize);
    assert_eq!(characteristics(0x0040 | 0x0001), characteristics(0x0001));
    assert_eq!(dll_characteristics(0x001f | 0x0100), vec!["NX_COMPAT"]);
    assert_eq!(section_characteristics(0x01ff_ff1f), Vec::<&str>::new());
}
