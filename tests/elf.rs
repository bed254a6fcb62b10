use cachesim::elf::{Elf, ElfHeader, Error, ProgramEntry, SectionEntry, StringTable, SymbolEntry};

fn put(b: &mut Vec<u8>, at: usize, value: u64, n: usize) {
    for i in 0..n {
        b[at + i] = (value >> (8 * i)) as u8;
    }
}

/// A small ELF file: one program header, three sections (the name table, the
/// string table and the symbol table) and two symbols.
fn sample() -> Vec<u8> {
    let shstr: &[u8] = b"\0.shstrtab\0.strtab\0.symtab\0";
    let strtab: &[u8] = b"\0main\0";
    let shstr_off = 64 + 56 + 3 * 64;
    let strtab_off = shstr_off + shstr.len();
    let symtab_off = strtab_off + strtab.len();
    let mut b = vec![0u8; symtab_off + 48];
    b[0..4].copy_from_slice(&[0x7f, 0x45, 0x4c, 0x46]);
    b[4] = 2;
    b[5] = 1;
    put(&mut b, 0x18, 0x1000, 8);
    put(&mut b, 0x20, 64, 8);
    put(&mut b, 0x28, 120, 8);
    put(&mut b, 0x34, 0x40, 2);
    put(&mut b, 0x36, 0x38, 2);
    put(&mut b, 0x38, 1, 2);
    put(&mut b, 0x3a, 0x40, 2);
    put(&mut b, 0x3c, 3, 2);
    put(&mut b, 0x3e, 0, 2);
    put(&mut b, 64 + 0x08, 0, 8);
    put(&mut b, 64 + 0x10, 0x1000, 8);
    put(&mut b, 64 + 0x20, 16, 8);
    put(&mut b, 64 + 0x28, 32, 8);
    let sections = [
        (1u64, shstr_off, shstr.len(), 0u64),
        (11, strtab_off, strtab.len(), 0),
        (19, symtab_off, 48, 0x18),
    ];
    for (k, (name, off, size, entsize)) in sections.iter().enumerate() {
        let at = 120 + 64 * k;
        put(&mut b, at, *name, 4);
        put(&mut b, at + 0x18, *off as u64, 8);
        put(&mut b, at + 0x20, *size as u64, 8);
        put(&mut b, at + 0x38, *entsize, 8);
    }
    b[shstr_off..shstr_off + shstr.len()].copy_from_slice(shstr);
    b[strtab_off..strtab_off + strtab.len()].copy_from_slice(strtab);
    put(&mut b, symtab_off + 24, 1, 4);
    put(&mut b, symtab_off + 24 + 0x08, 0x1040, 8);
    put(&mut b, symtab_off + 24 + 0x10, 0x20, 8);
    b
}

#[test]
fn whole_file_is_read() {
    let b = sample();
    let elf = Elf::parse(&b).unwrap();
    assert_eq!(elf.header.entry, 0x1000);
    assert_eq!((elf.header.phnum, elf.header.shnum, elf.header.shstrndx), (1, 3, 0));
    assert_eq!(elf.programs.len(), 1);
    assert_eq!(elf.programs[0].vaddr, 0x1000);
    assert_eq!(elf.programs[0].filesz, 16);
    assert_eq!(elf.programs[0].memsz, 32);
    assert_eq!(elf.sections().len(), 3);
    assert_eq!(elf.sections()[2].entsize, 0x18);
    assert_eq!(elf.symbol_entries.len(), 2);
    assert_eq!(elf.symbol_entries[0], (String::from("<null>"), 0, 0));
    assert_eq!(elf.symbol_entries[1], (String::from("main"), 0x1040, 0x20));
    assert_eq!(elf.find_section(".symtab").unwrap().size, 48);
    assert!(matches!(elf.find_section(".text"), Err(Error::CanNotFindSection(n)) if n == ".text"));
}

#[test]
fn header_errors_in_order() {
    let good = sample();
    assert!(matches!(ElfHeader::from_reader(&good[..63]), Err(Error::Io)));
    let mut b = good.clone();
    b[1] = b'F';
    assert!(matches!(ElfHeader::from_reader(&b), Err(Error::InvalidMagic)));
    let mut b = good.clone();
    b[4] = 1;
    assert!(matches!(ElfHeader::from_reader(&b), Err(Error::Not64Bit)));
    let mut b = good.clone();
    b[5] = 2;
    assert!(matches!(ElfHeader::from_reader(&b), Err(Error::NotLittleEndianness)));
    let mut b = good.clone();
    b[0x36] = 0x40;
    assert!(matches!(ElfHeader::from_reader(&b), Err(Error::InvalidStructureSize)));
    assert!(matches!(Elf::parse(&b), Err(Error::InvalidStructureSize)));
    let mut b = good.clone();
    b.truncate(300);
    assert!(matches!(Elf::parse(&b), Err(Error::Io)));
}

#[test]
fn entries_are_read_little_endian() {
    let b = sample();
    let s = SectionEntry::from_reader(&b[120 + 128..]).unwrap();
    assert_eq!((s.name, s.size, s.entsize), (19, 48, 0x18));
    let p = ProgramEntry::from_reader(&b[64..]).unwrap();
    assert_eq!((p.off, p.vaddr), (0, 0x1000));
    let sym = SymbolEntry::from_reader(&b[b.len() - 24..]).unwrap();
    assert_eq!((sym.name, sym.value, sym.size), (1, 0x1040, 0x20));
    assert!(matches!(SymbolEntry::from_reader(&b[b.len() - 23..]), Err(Error::Io)));
    assert!(matches!(ProgramEntry::from_reader(&b[..0x37]), Err(Error::Io)));
    assert!(matches!(SectionEntry::from_reader(&b[..0x3f]), Err(Error::Io)));
}

#[test]
fn string_table_lookups() {
    let t = StringTable::from_reader(b"\0main\0\xff\xfe\0", 9);
    assert!(t.equal_to_string(1, "main"));
    assert!(!t.equal_to_string(1, "mai"));
    assert!(t.equal_to_string(0, ""));
    let sym = |name: u32| SymbolEntry { name, value: 0, size: 0 };
    assert_eq!(t.lookup_symbol_name(&sym(1)), "main");
    assert_eq!(t.lookup_symbol_name(&sym(2)), "ain");
    assert_eq!(t.lookup_symbol_name(&sym(0)), "<null>");
    assert_eq!(t.lookup_symbol_name(&sym(6)), "<unknown>");
    let sec = SectionEntry { name: 1, offset: 0, size: 0, entsize: 0 };
    assert!(t.section_is(&sec, "main"));
    assert_eq!(t.find_end(1), Some(5));
    let padded = StringTable::from_reader(b"ab", 4);
    assert_eq!(padded.find_end(0), Some(2));
    let short = StringTable::from_reader(b"ab", 2);
    assert_eq!(short.find_end(0), None);
}
