//! The records of a 64-bit little-endian ELF file, read from its bytes.
use vstd::prelude::*;
use vstd::slice::slice_subrange;
use vstd::string::StringSliceAdditionalSpecFns;
use crate::endian::{le_value, read_u16_at, read_u32_at, read_u64_at};

verus! {

/// The size of the file header.
pub const ELF_HEADER_SIZE: u16 = 0x40;
/// The size of a section header.
pub const ELF_SHENT_SIZE: u16 = 0x40;
/// The size of a program header.
pub const ELF_PHENT_SIZE: u16 = 0x38;
/// The size of a symbol table entry.
pub const ELF_SYMBOL_SIZE: u64 = 0x18;

/// Why an ELF file could not be read.
#[derive(Debug)]
pub enum Error {
    /// The bytes ended before a record did.
    Io,
    InvalidMagic,
    NotLittleEndianness,
    Not64Bit,
    InvalidStructureSize,
    CanNotFindSection(String),
}

/// The parts of the file header the loader needs.
#[derive(Clone, Copy, Debug, Default)]
pub struct ElfHeader {
    pub entry: u64,
    pub shoff: u64,
    pub phoff: u64,
    pub phnum: u16,
    pub shnum: u16,
    pub shstrndx: u16,
}

/// The parts of a section header the loader needs.
#[derive(Clone, Copy, Debug, Default)]
pub struct SectionEntry {
    pub name: u32,
    pub offset: u64,
    pub size: u64,
    pub entsize: u64,
}

/// The parts of a program header the loader needs.
#[derive(Clone, Copy, Debug, Default)]
pub struct ProgramEntry {
    pub off: u64,
    pub vaddr: u64,
    pub filesz: u64,
    pub memsz: u64,
}

/// The parts of a symbol table entry the loader needs.
#[derive(Clone, Copy, Debug, Default)]
pub struct SymbolEntry {
    pub name: u32,
    pub value: u64,
    pub size: u64,
}

/// The little-endian number in the `n` bytes of `b` from `off`.
pub open spec fn le_at(b: Seq<u8>, off: int, n: int) -> nat {
    le_value(b.subrange(off, off + n))
}

/// The file header held by the first bytes of `b`, or why there is none.
pub open spec fn header_of(b: Seq<u8>) -> Result<ElfHeader, Error> {
    if b.len() < ELF_HEADER_SIZE {
        Err(Error::Io)
    } else if b[0] != 0x7f || b[1] != 0x45 || b[2] != 0x4c || b[3] != 0x46 {
        Err(Error::InvalidMagic)
    } else if b[4] != 2 {
        Err(Error::Not64Bit)
    } else if b[5] != 1 {
        Err(Error::NotLittleEndianness)
    } else if le_at(b, 0x34, 2) != ELF_HEADER_SIZE || le_at(b, 0x36, 2) != ELF_PHENT_SIZE || le_at(b, 0x3a, 2)
        != ELF_SHENT_SIZE {
        Err(Error::InvalidStructureSize)
    } else {
        Ok(
            ElfHeader {
                entry: le_at(b, 0x18, 8) as u64,
                phoff: le_at(b, 0x20, 8) as u64,
                shoff: le_at(b, 0x28, 8) as u64,
                phnum: le_at(b, 0x38, 2) as u16,
                shnum: le_at(b, 0x3c, 2) as u16,
                shstrndx: le_at(b, 0x3e, 2) as u16,
            },
        )
    }
}

/// The section header held by the first bytes of `b`, or why there is none.
pub open spec fn section_of(b: Seq<u8>) -> Result<SectionEntry, Error> {
    if b.len() < ELF_SHENT_SIZE {
        Err(Error::Io)
    } else {
        Ok(
            SectionEntry {
                name: le_at(b, 0, 4) as u32,
                offset: le_at(b, 0x18, 8) as u64,
                size: le_at(b, 0x20, 8) as u64,
                entsize: le_at(b, 0x38, 8) as u64,
            },
        )
    }
}

/// The program header held by the first bytes of `b`, or why there is none.
pub open spec fn program_of(b: Seq<u8>) -> Result<ProgramEntry, Error> {
    if b.len() < ELF_PHENT_SIZE {
        Err(Error::Io)
    } else {
        Ok(
            ProgramEntry {
                off: le_at(b, 0x08, 8) as u64,
                vaddr: le_at(b, 0x10, 8) as u64,
                filesz: le_at(b, 0x20, 8) as u64,
                memsz: le_at(b, 0x28, 8) as u64,
            },
        )
    }
}

/// The symbol table entry held by the first bytes of `b`, or why there is
/// none.
pub open spec fn symbol_of(b: Seq<u8>) -> Result<SymbolEntry, Error> {
    if b.len() < ELF_SYMBOL_SIZE {
        Err(Error::Io)
    } else {
        Ok(
            SymbolEntry {
                name: le_at(b, 0, 4) as u32,
                value: le_at(b, 0x08, 8) as u64,
                size: le_at(b, 0x10, 8) as u64,
            },
        )
    }
}

impl ElfHeader {
    /// Reads the file header from the start of `reader`.
    pub fn from_reader(reader: &[u8]) -> (r: Result<ElfHeader, Error>)
        ensures
            r == header_of(reader@),
    {
        if reader.len() < ELF_HEADER_SIZE as usize {
            return Err(Error::Io);
        }
        if reader[0] != 0x7f || reader[1] != 0x45 || reader[2] != 0x4c || reader[3] != 0x46 {
            return Err(Error::InvalidMagic);
        }
        if reader[4] != 2 {
            return Err(Error::Not64Bit);
        }
        if reader[5] != 1 {
            return Err(Error::NotLittleEndianness);
        }
        if read_u16_at(reader, 0x34) != ELF_HEADER_SIZE || read_u16_at(reader, 0x36) != ELF_PHENT_SIZE
            || read_u16_at(reader, 0x3a) != ELF_SHENT_SIZE {
            return Err(Error::InvalidStructureSize);
        }
        Ok(
            ElfHeader {
                entry: read_u64_at(reader, 0x18),
                phoff: read_u64_at(reader, 0x20),
                shoff: read_u64_at(reader, 0x28),
                phnum: read_u16_at(reader, 0x38),
                shnum: read_u16_at(reader, 0x3c),
                shstrndx: read_u16_at(reader, 0x3e),
            },
        )
    }
}

impl SectionEntry {
    /// Reads a section header from the start of `reader`.
    pub fn from_reader(reader: &[u8]) -> (r: Result<SectionEntry, Error>)
        ensures
            r == section_of(reader@),
    {
        if reader.len() < ELF_SHENT_SIZE as usize {
            return Err(Error::Io);
        }
        Ok(
            SectionEntry {
                name: read_u32_at(reader, 0),
                offset: read_u64_at(reader, 0x18),
                size: read_u64_at(reader, 0x20),
                entsize: read_u64_at(reader, 0x38),
            },
        )
    }
}

impl ProgramEntry {
    /// Reads a program header from the start of `reader`.
    pub fn from_reader(reader: &[u8]) -> (r: Result<ProgramEntry, Error>)
        ensures
            r == program_of(reader@),
    {
        if reader.len() < ELF_PHENT_SIZE as usize {
            return Err(Error::Io);
        }
        Ok(
            ProgramEntry {
                vaddr: read_u64_at(reader, 0x10),
                off: read_u64_at(reader, 0x08),
                filesz: read_u64_at(reader, 0x20),
                memsz: read_u64_at(reader, 0x28),
            },
        )
    }
}

impl SymbolEntry {
    /// Reads a symbol table entry from the start of `reader`.
    pub fn from_reader(reader: &[u8]) -> (r: Result<SymbolEntry, Error>)
        ensures
            r == symbol_of(reader@),
    {
        if reader.len() < ELF_SYMBOL_SIZE as usize {
            return Err(Error::Io);
        }
        Ok(
            SymbolEntry {
                name: read_u32_at(reader, 0),
                value: read_u64_at(reader, 0x08),
                size: read_u64_at(reader, 0x10),
            },
        )
    }
}

/// What UTF-8 decoding makes of `b`: the characters, or nothing when `b` is
/// not UTF-8.
pub uninterp spec fn utf8_text(b: Seq<u8>) -> Option<Seq<char>>;

/// Relies on `String::from_utf8`: a string exactly when the bytes are UTF-8,
/// holding what they encode; no bytes give the empty string.
#[verifier::external_body]
fn decode_utf8(bytes: Vec<u8>) -> (r: Option<String>)
    ensures
        r is Some ==> utf8_text(bytes@) == Some(r->Some_0@),
        r is None ==> utf8_text(bytes@) is None,
        bytes@.len() == 0 ==> r is Some && r->Some_0@.len() == 0,
{
    String::from_utf8(bytes).ok()
}

/// The first zero byte of `t` at index `i` or later.
pub open spec fn string_end(t: Seq<u8>, i: int) -> Option<int>
    decreases t.len() - i,
{
    if i < 0 || i >= t.len() {
        None
    } else if t[i] == 0 {
        Some(i)
    } else {
        string_end(t, i + 1)
    }
}

/// The zero-terminated string of `t` that starts at `i`, without its end.
pub open spec fn string_at(t: Seq<u8>, i: int) -> Seq<u8> {
    t.subrange(i, string_end(t, i)->Some_0)
}

/// A string end found is a zero byte at or after the start.
proof fn lemma_string_end(t: Seq<u8>, i: int)
    ensures
        string_end(t, i) matches Some(k) ==> 0 <= i <= k < t.len() && t[k] == 0,
    decreases t.len() - i,
{
    if 0 <= i < t.len() && t[i] != 0 {
        lemma_string_end(t, i + 1);
    }
}

/// The name a symbol table shows for a string: its text, `<null>` when it is
/// empty, `<unknown>` when it is not UTF-8.
pub open spec fn symbol_name(b: Seq<u8>) -> Seq<char> {
    match utf8_text(b) {
        Some(s) => if s.len() == 0 {
            "<null>"@
        } else {
            s
        },
        None => "<unknown>"@,
    }
}

/// A table of zero-terminated strings, addressed by byte offset.
#[derive(Default)]
pub struct StringTable {
    table: Vec<u8>,
}

impl View for StringTable {
    type V = Seq<u8>;

    closed spec fn view(&self) -> Seq<u8> {
        self.table@
    }
}

impl StringTable {
    /// The end of the string at `index`, when it is terminated.
    pub fn find_end(&self, index: usize) -> (r: Option<usize>)
        ensures
            r matches Some(k) ==> string_end(self@, index as int) == Some(k as int),
            r is None ==> string_end(self@, index as int) is None,
    {
        let n = self.table.len();
        let mut rear = index;
        while rear < n
            invariant
                n == self@.len(),
                index <= rear,
                string_end(self@, index as int) == string_end(self@, rear as int),
            decreases n - rear,
        {
            if self.table[rear] == 0 {
                return Some(rear);
            }
            rear += 1;
        }
        None
    }

    fn lookup(&self, index: usize) -> (r: &[u8])
        requires
            string_end(self@, index as int) is Some,
        ensures
            r@ == string_at(self@, index as int),
    {
        proof {
            lemma_string_end(self@, index as int);
        }
        let rear = match self.find_end(index) {
            Some(k) => k,
            None => index,
        };
        slice_subrange(self.table.as_slice(), index, rear)
    }

    /// The name of `sym` as the table holds it.
    pub fn lookup_symbol_name(&self, sym: &SymbolEntry) -> (r: String)
        requires
            string_end(self@, sym.name as int) is Some,
        ensures
            r@ == symbol_name(string_at(self@, sym.name as int)),
    {
        let b = self.lookup(sym.name as usize);
        match decode_utf8(vstd::slice::slice_to_vec(b)) {
            Some(rv) => if rv.as_str().is_empty() {
                "<null>".to_owned()
            } else {
                rv
            },
            None => "<unknown>".to_owned(),
        }
    }

    /// Whether the string at `index` is `s`.
    pub fn equal_to_string(&self, index: usize, s: &str) -> (r: bool)
        requires
            string_end(self@, index as int) is Some,
        ensures
            r == (s.spec_bytes() == string_at(self@, index as int)),
    {
        let a = s.as_bytes();
        let b = self.lookup(index);
        if a.len() != b.len() {
            proof {
                assert(a@.len() != b@.len());
            }
            return false;
        }
        let mut i: usize = 0;
        while i < a.len()
            invariant
                a@ == s.spec_bytes(),
                b@ == string_at(self@, index as int),
                a@.len() == b@.len(),
                i <= a@.len(),
                forall|j: int| 0 <= j < i ==> a@[j] == b@[j],
            decreases a@.len() - i,
        {
            if a[i] != b[i] {
                proof {
                    assert(a@[i as int] != b@[i as int]);
                }
                return false;
            }
            i += 1;
        }
        proof {
            assert(a@ =~= b@);
        }
        true
    }

    /// A table of `size` bytes: those of `reader`, then zeros where it ends.
    pub fn from_reader(reader: &[u8], size: usize) -> (r: StringTable)
        ensures
            r@.len() == size,
            forall|i: int| 0 <= i < size ==> #[trigger] r@[i] == if i < reader@.len() {
                reader@[i]
            } else {
                0u8
            },
    {
        let mut table: Vec<u8> = Vec::new();
        let mut i: usize = 0;
        while i < size
            invariant
                i <= size,
                table@.len() == i,
                forall|j: int| 0 <= j < i ==> #[trigger] table@[j] == if j < reader@.len() {
                    reader@[j]
                } else {
                    0u8
                },
            decreases size - i,
        {
            if i < reader.len() {
                table.push(reader[i]);
            } else {
                table.push(0);
            }
            i += 1;
        }
        StringTable { table }
    }

    /// Whether `sec` is named `s`.
    pub fn section_is(&self, sec: &SectionEntry, s: &str) -> (r: bool)
        requires
            string_end(self@, sec.name as int) is Some,
        ensures
            r == (s.spec_bytes() == string_at(self@, sec.name as int)),
    {
        self.equal_to_string(sec.name as usize, s)
    }
}

/// The first of `secs`, from index `i` on, whose name in `names` is `s`.
pub open spec fn first_named(secs: Seq<SectionEntry>, names: Seq<u8>, s: Seq<u8>, i: int) -> Option<int>
    decreases secs.len() - i,
{
    if i < 0 || i >= secs.len() {
        None
    } else if string_at(names, secs[i].name as int) == s {
        Some(i)
    } else {
        first_named(secs, names, s, i + 1)
    }
}

/// Where entry `i` of a table at `base` with entries of `size` bytes starts,
/// when that lies within `len` bytes.
fn entry_offset(base: u64, i: u64, size: u64, len: usize) -> (r: Option<usize>)
    ensures
        r matches Some(o) ==> o == base + i * size && o <= len,
        r is None ==> base + i * size > len,
{
    match i.checked_mul(size) {
        None => {
            proof {
                assert(base + i * size > len) by (nonlinear_arith)
                    requires
                        i * size > u64::MAX,
                        len <= usize::MAX,
                ;
            }
            None
        },
        Some(d) => match base.checked_add(d) {
            None => None,
            Some(o) => if o <= len as u64 {
                Some(o as usize)
            } else {
                None
            },
        },
    }
}

/// The bytes of `data` from `offset` on, when `offset` lies within it.
fn tail(data: &[u8], offset: usize) -> (r: Result<&[u8], Error>)
    ensures
        r matches Ok(t) ==> offset <= data@.len() && t@ == data@.subrange(offset as int, data@.len() as int),
        r is Err ==> offset > data@.len() && r == Err::<&[u8], Error>(Error::Io),
{
    if offset <= data.len() {
        Ok(slice_subrange(data, offset, data.len()))
    } else {
        Err(Error::Io)
    }
}

/// The `size` bytes of `data` at `offset`, as a string table.
fn table_at(data: &[u8], offset: u64, size: u64) -> (r: Result<StringTable, Error>)
    ensures
        r matches Ok(t) ==> offset + size <= data@.len() && t@ == data@.subrange(offset as int, offset + size),
        r is Err ==> offset + size > data@.len() && r == Err::<StringTable, Error>(Error::Io),
{
    match entry_offset(offset, 1, size, data.len()) {
        None => Err(Error::Io),
        Some(end) => {
            let t = StringTable::from_reader(slice_subrange(data, offset as usize, end), (end - offset as usize));
            proof {
                assert(t@ =~= data@.subrange(offset as int, offset + size));
            }
            Ok(t)
        },
    }
}

/// An ELF file: its header, program and section headers, string tables and
/// symbols.
#[derive(Default)]
pub struct Elf {
    pub header: ElfHeader,
    pub programs: Vec<ProgramEntry>,
    sections: Vec<SectionEntry>,
    symbols: Vec<SymbolEntry>,
    shstrtab: StringTable,
    strtab: StringTable,
    pub symbol_entries: Vec<(String, u64, u64)>,
}

impl Elf {
    pub closed spec fn spec_header(&self) -> ElfHeader {
        self.header
    }

    pub closed spec fn program_list(&self) -> Seq<ProgramEntry> {
        self.programs@
    }

    pub closed spec fn section_list(&self) -> Seq<SectionEntry> {
        self.sections@
    }

    pub closed spec fn section_names(&self) -> Seq<u8> {
        self.shstrtab@
    }

    /// Every section's name is a terminated string of the name table.
    pub open spec fn names_ok(&self) -> bool {
        forall|i: int|
            0 <= i < self.section_list().len() ==> string_end(
                self.section_names(),
                (#[trigger] self.section_list()[i]).name as int,
            ) is Some
    }

    pub fn sections(&self) -> (r: &Vec<SectionEntry>)
        ensures
            r@ == self.section_list(),
    {
        &self.sections
    }

    /// The first section named `name`.
    pub fn find_section(&self, name: &str) -> (r: Result<SectionEntry, Error>)
        requires
            self.names_ok(),
        ensures
            match first_named(self.section_list(), self.section_names(), name.spec_bytes(), 0) {
                Some(k) => r == Ok::<SectionEntry, Error>(self.section_list()[k]),
                None => r matches Err(Error::CanNotFindSection(n)) && n@ == name@,
            },
    {
        let n = self.sections.len();
        let mut i: usize = 0;
        while i < n
            invariant
                n == self.section_list().len(),
                i <= n,
                self.names_ok(),
                first_named(self.section_list(), self.section_names(), name.spec_bytes(), 0) == first_named(
                    self.section_list(),
                    self.section_names(),
                    name.spec_bytes(),
                    i as int,
                ),
            decreases n - i,
        {
            if self.shstrtab.section_is(&self.sections[i], name) {
                return Ok(self.sections[i]);
            }
            i += 1;
        }
        Err(Error::CanNotFindSection(name.to_owned()))
    }
}

/// The bytes of `data` from the start of entry `i` of a table at `base` with
/// entries of `size` bytes.
pub open spec fn entry_bytes(data: Seq<u8>, base: u64, i: int, size: int) -> Seq<u8> {
    data.subrange(base + i * size, data.len() as int)
}

impl Elf {
    /// Reads the whole file from its bytes: the header, the program and section
    /// headers it points to, the section name table, then the string and
    /// symbol tables found by name.
    pub fn parse(data: &[u8]) -> (r: Result<Elf, Error>)
        ensures
            header_of(data@) is Err ==> r == Err::<Elf, Error>(header_of(data@)->Err_0),
            r is Ok ==> ({
                let elf = r->Ok_0;
                &&& header_of(data@) == Ok::<ElfHeader, Error>(elf.spec_header())
                &&& elf.program_list().len() == elf.spec_header().phnum
                &&& forall|k: int|
                    0 <= k < elf.spec_header().phnum ==> program_of(
                        entry_bytes(data@, elf.spec_header().phoff, k, ELF_PHENT_SIZE as int),
                    ) == Ok::<ProgramEntry, Error>(#[trigger] elf.program_list()[k])
                &&& elf.section_list().len() == elf.spec_header().shnum
                &&& forall|k: int|
                    0 <= k < elf.spec_header().shnum ==> section_of(
                        entry_bytes(data@, elf.spec_header().shoff, k, ELF_SHENT_SIZE as int),
                    ) == Ok::<SectionEntry, Error>(#[trigger] elf.section_list()[k])
                &&& elf.names_ok()
            }),
    {
        let header = match ElfHeader::from_reader(data) {
            Ok(h) => h,
            Err(e) => return Err(e),
        };
        let mut programs: Vec<ProgramEntry> = Vec::new();
        let mut i: u16 = 0;
        while i < header.phnum
            invariant
                header_of(data@) == Ok::<ElfHeader, Error>(header),
                i <= header.phnum,
                programs@.len() == i,
                forall|k: int|
                    0 <= k < i ==> program_of(entry_bytes(data@, header.phoff, k, ELF_PHENT_SIZE as int))
                        == Ok::<ProgramEntry, Error>(#[trigger] programs@[k]),
            decreases header.phnum - i,
        {
            let off = match entry_offset(header.phoff, i as u64, ELF_PHENT_SIZE as u64, data.len()) {
                Some(o) => o,
                None => return Err(Error::Io),
            };
            let p = match ProgramEntry::from_reader(slice_subrange(data, off, data.len())) {
                Ok(p) => p,
                Err(e) => return Err(e),
            };
            programs.push(p);
            i += 1;
        }
        let mut sections: Vec<SectionEntry> = Vec::new();
        let mut j: u16 = 0;
        while j < header.shnum
            invariant
                header_of(data@) == Ok::<ElfHeader, Error>(header),
                j <= header.shnum,
                sections@.len() == j,
                forall|k: int|
                    0 <= k < j ==> section_of(entry_bytes(data@, header.shoff, k, ELF_SHENT_SIZE as int))
                        == Ok::<SectionEntry, Error>(#[trigger] sections@[k]),
            decreases header.shnum - j,
        {
            let off = match entry_offset(header.shoff, j as u64, ELF_SHENT_SIZE as u64, data.len()) {
                Some(o) => o,
                None => return Err(Error::Io),
            };
            let p = match SectionEntry::from_reader(slice_subrange(data, off, data.len())) {
                Ok(p) => p,
                Err(e) => return Err(e),
            };
            sections.push(p);
            j += 1;
        }
        if header.shstrndx as usize >= sections.len() {
            return Err(Error::InvalidStructureSize);
        }
        let shstr = sections[header.shstrndx as usize];
        let shstrtab = match table_at(data, shstr.offset, shstr.size) {
            Ok(t) => t,
            Err(e) => return Err(e),
        };
        let mut k: usize = 0;
        while k < sections.len()
            invariant
                header_of(data@) == Ok::<ElfHeader, Error>(header),
                programs@.len() == header.phnum,
                forall|q: int|
                    0 <= q < header.phnum ==> program_of(entry_bytes(data@, header.phoff, q, ELF_PHENT_SIZE as int))
                        == Ok::<ProgramEntry, Error>(#[trigger] programs@[q]),
                sections@.len() == header.shnum,
                forall|q: int|
                    0 <= q < header.shnum ==> section_of(entry_bytes(data@, header.shoff, q, ELF_SHENT_SIZE as int))
                        == Ok::<SectionEntry, Error>(#[trigger] sections@[q]),
                k <= sections@.len(),
                forall|m: int| 0 <= m < k ==> string_end(shstrtab@, (#[trigger] sections@[m]).name as int) is Some,
            decreases sections@.len() - k,
        {
            if shstrtab.find_end(sections[k].name as usize).is_none() {
                return Err(Error::InvalidStructureSize);
            }
            k += 1;
        }
        let mut elf = Elf {
            header,
            programs,
            sections,
            symbols: Vec::new(),
            shstrtab,
            strtab: StringTable { table: Vec::new() },
            symbol_entries: Vec::new(),
        };
        let strtab = match elf.find_section(".strtab") {
            Ok(s) => s,
            Err(e) => return Err(e),
        };
        elf.strtab = match table_at(data, strtab.offset, strtab.size) {
            Ok(t) => t,
            Err(e) => return Err(e),
        };
        let symtab = match elf.find_section(".symtab") {
            Ok(s) => s,
            Err(e) => return Err(e),
        };
        if symtab.entsize != ELF_SYMBOL_SIZE {
            return Err(Error::InvalidStructureSize);
        }
        let count = symtab.size / symtab.entsize;
        let mut m: u64 = 0;
        while m < count
            invariant
                m <= count,
                header_of(data@) == Ok::<ElfHeader, Error>(elf.header),
                elf.programs@.len() == elf.header.phnum,
                forall|q: int|
                    0 <= q < elf.header.phnum ==> program_of(
                        entry_bytes(data@, elf.header.phoff, q, ELF_PHENT_SIZE as int),
                    ) == Ok::<ProgramEntry, Error>(#[trigger] elf.programs@[q]),
                elf.section_list().len() == elf.header.shnum,
                forall|q: int|
                    0 <= q < elf.header.shnum ==> section_of(
                        entry_bytes(data@, elf.header.shoff, q, ELF_SHENT_SIZE as int),
                    ) == Ok::<SectionEntry, Error>(#[trigger] elf.section_list()[q]),
                elf.names_ok(),
            decreases count - m,
        {
            let off = match entry_offset(symtab.offset, m, ELF_SYMBOL_SIZE, data.len()) {
                Some(o) => o,
                None => return Err(Error::Io),
            };
            let p = match SymbolEntry::from_reader(slice_subrange(data, off, data.len())) {
                Ok(p) => p,
                Err(e) => return Err(e),
            };
            if elf.strtab.find_end(p.name as usize).is_none() {
                return Err(Error::InvalidStructureSize);
            }
            let name = elf.strtab.lookup_symbol_name(&p);
            elf.symbol_entries.push((name, p.value, p.size));
            elf.symbols.push(p);
            m += 1;
        }
        Ok(elf)
    }
}

} // verus!
